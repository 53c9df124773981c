//! Shared deck primitives for the card games (faro, vingt-et-un): the rank
//! constants and the stake-progression end check.

use vstd::prelude::*;

verus! {

/// The thirteen ranks, ace-low index through king (index 0..13).
pub const RANKS: usize = 13;

/// A full deck: four suits of each rank.
pub const DECK: usize = 52;

/// On-screen rank labels, indexed 0..13.
pub const RANK_LABELS: [&'static str; 13] = ["A", "2", "3", "4", "5", "6", "7", "8", "9", "10", "J", "Q", "K"];

/// Inline card-face styling (border, rounded, faint phosphor fill, 3:4
/// portrait), applied directly so a host needs no card-game CSS compiled.
pub const CARD_FACE_STYLE: &'static str = "border:1px solid var(--phosphor-dim);border-radius:3px;background:rgba(51,255,102,.04);display:flex;flex-direction:column;align-items:center;justify-content:center;aspect-ratio:3/4;";

/// Whether a session is over: busted, at the target, or out of rounds.
pub open spec fn session_over_spec(stake: i64, target: i64, played: int, total: int) -> bool {
    stake <= 0 || stake >= target || played >= total
}

/// Whether a card-gambling session ends after a round or turn settles: the
/// stake is busted, the target is reached, or the round allowance is spent.
pub fn session_over(stake: i64, target: i64, played: usize, rounds_total: usize) -> (r: bool)
    ensures
        r == session_over_spec(stake, target, played as int, rounds_total as int),
{
    stake <= 0 || stake >= target || played >= rounds_total
}

} // verus!
