//! Faro — the banking card game, distilled to its decisions: the scoring core.
//! Each turn the dealer pulls two cards from the box, the losing card first,
//! then the winning card. Chips on the losing rank are raked, chips on the
//! winning rank pay even money; a coppered bet backs the rank to lose. When
//! both cards share a rank it is a split, and the bank takes half of any bet on
//! it. The case keeper tracks how many of each rank remain in the box.

use vstd::prelude::*;

use crate::minigames::cards::{session_over, session_over_spec, RANKS};
use crate::minigames::vingt_un::half_toward_zero;

verus! {

/// Turns dealt from one deck: the first card is burned ("soda"), then 25
/// paired turns are pulled, leaving the last card ("hock") in the box.
pub const TURNS: usize = 25;

/// The two cards pulled on a turn: the losing (banker's) card and the winning
/// (player's) card, as ranks 0..13.
#[derive(Debug, Clone, Copy, PartialEq, Eq, Structural)]
pub struct Turn {
    /// The rank that loses this turn (raked by the bank).
    pub loser: u8,
    /// The rank that wins this turn (pays even money).
    pub winner: u8,
}

impl Turn {
    /// A split: both cards are the same rank. The bank takes half of any bet
    /// riding on that rank.
    pub fn split(&self) -> (b: bool)
        ensures
            b == (self.loser == self.winner),
    {
        self.loser == self.winner
    }
}

/// One placed bet: `amount` chips on `rank`, betting it to win — or to lose if
/// `copper` is set.
#[derive(Debug, Clone, Copy, PartialEq, Eq, Structural)]
pub struct Bet {
    /// The rank the chips sit on (0..13).
    pub rank: u8,
    /// Chips wagered (in the host's money units).
    pub amount: i64,
    /// Coppered: betting the rank to *lose* rather than win.
    pub copper: bool,
}

/// The two cards pulled on turn `t` (0-based). `deck[0]` is the burned soda,
/// so turn 0 is `deck[1]` (loser) and `deck[2]` (winner), and so on.
pub fn turn_at(deck: &[u8], t: usize) -> (turn: Turn)
    requires
        2 * t + 2 < deck@.len(),
    ensures
        turn.loser == deck@[2 * t + 1],
        turn.winner == deck@[2 * t + 2],
{
    let n = deck.len();
    assert(2 * t + 2 < n);
    let lo = 1 + 2 * t;
    Turn { loser: deck[lo], winner: deck[lo + 1] }
}

/// What one bet gains or loses on a turn. On a split the bank takes half of
/// a bet on the split rank (rounded toward zero), win or copper alike; a
/// plain bet wins on the winner and loses on the loser; a coppered bet the
/// other way round; a bet on an uninvolved rank stands.
pub open spec fn bet_result(b: Bet, turn: Turn) -> int {
    let on_winner = b.rank == turn.winner;
    let on_loser = b.rank == turn.loser;
    if turn.loser == turn.winner {
        if on_winner {
            -half_toward_zero(b.amount as int)
        } else {
            0
        }
    } else if b.copper {
        if on_loser {
            b.amount as int
        } else if on_winner {
            -b.amount
        } else {
            0
        }
    } else if on_winner {
        b.amount as int
    } else if on_loser {
        -b.amount
    } else {
        0
    }
}

/// The net of every bet on a turn.
pub open spec fn turn_result(bets: Seq<Bet>, turn: Turn) -> int
    decreases bets.len(),
{
    if bets.len() == 0 {
        0
    } else {
        turn_result(bets.drop_last(), turn) + bet_result(bets.last(), turn)
    }
}

/// Whether a number fits an `i64`.
pub open spec fn fits_i64(x: int) -> bool {
    i64::MIN <= x <= i64::MAX
}

/// Settle a single bet — the per-rank core of [`settle`].
fn settle_one(b: Bet, turn: Turn) -> (r: i64)
    requires
        fits_i64(bet_result(b, turn)),
    ensures
        r == bet_result(b, turn),
{
    let on_winner = b.rank == turn.winner;
    let on_loser = b.rank == turn.loser;
    if turn.split() {
        if on_winner {
            -(b.amount / 2)
        } else {
            0
        }
    } else if b.copper {
        if on_loser {
            b.amount
        } else if on_winner {
            -b.amount
        } else {
            0
        }
    } else if on_winner {
        b.amount
    } else if on_loser {
        -b.amount
    } else {
        0
    }
}

/// Net stake change from settling `bets` against one `turn`. Positive means
/// the player gains. Untouched ranks return their chips (zero delta).
pub fn settle(bets: &[Bet], turn: Turn) -> (r: i64)
    requires
        forall|i: int| 0 <= i < bets@.len() ==> fits_i64(#[trigger] bet_result(bets@[i], turn)),
        forall|k: int| 0 <= k <= bets@.len() ==> fits_i64(#[trigger] turn_result(bets@.take(k), turn)),
    ensures
        r == turn_result(bets@, turn),
{
    let mut sum: i64 = 0;
    let mut i: usize = 0;
    proof {
        assert(bets@.take(0) =~= Seq::<Bet>::empty());
    }
    while i < bets.len()
        invariant
            i <= bets@.len(),
            forall|i: int| 0 <= i < bets@.len() ==> fits_i64(#[trigger] bet_result(bets@[i], turn)),
            forall|k: int| 0 <= k <= bets@.len() ==> fits_i64(#[trigger] turn_result(bets@.take(k), turn)),
            sum == turn_result(bets@.take(i as int), turn),
        decreases bets@.len() - i,
    {
        proof {
            assert(bets@.take(i + 1).drop_last() =~= bets@.take(i as int));
            assert(fits_i64(turn_result(bets@.take(i + 1), turn)));
        }
        let x = settle_one(bets[i], turn);
        sum = sum + x;
        i += 1;
    }
    proof {
        assert(bets@.take(bets@.len() as int) =~= bets@);
    }
    sum
}

/// On a turn that is not a split, coppering a bet exactly inverts what it
/// wins or loses.
pub proof fn law_copper_inverts(b: Bet, turn: Turn)
    requires
        turn.loser != turn.winner,
    ensures
        bet_result(Bet { copper: true, ..b }, turn) == -bet_result(Bet { copper: false, ..b }, turn),
{
}

/// How many cards of rank `r` a run of the box holds.
pub open spec fn count_of(s: Seq<u8>, r: u8) -> nat
    decreases s.len(),
{
    if s.len() == 0 {
        0
    } else {
        count_of(s.drop_last(), r) + if s.last() == r {
            1nat
        } else {
            0nat
        }
    }
}

/// How many cards the first `turns` turns consume (the soda included),
/// capped at the deck.
pub open spec fn consumed(len: nat, turns: nat) -> nat {
    if 1 + 2 * turns <= len {
        1 + 2 * turns
    } else {
        len
    }
}

/// How many of each rank remain in the box after `turns_played` turns (the
/// burned soda counts as consumed). The case keeper, indexed 0..13.
pub fn remaining_counts(deck: &[u8], turns_played: usize) -> (counts: [u8; 13])
    requires
        1 + 2 * turns_played <= usize::MAX,
        forall|i: int|
            consumed(deck@.len(), turns_played as nat) <= i < deck@.len() ==> #[trigger] deck@[i] < 13,
        forall|r: u8| r < 13 ==> count_of(deck@.skip(consumed(deck@.len(), turns_played as nat) as int), r) <= u8::MAX,
    ensures
        forall|r: int|
            0 <= r < 13 ==> counts@[r] == count_of(
                deck@.skip(consumed(deck@.len(), turns_played as nat) as int),
                r as u8,
            ),
{
    let start = if 1 + 2 * turns_played <= deck.len() {
        1 + 2 * turns_played
    } else {
        deck.len()
    };
    let ghost rest = deck@.skip(start as int);
    let mut counts = [0u8; 13];
    let mut i: usize = start;
    proof {
        assert(deck@.subrange(start as int, start as int) =~= Seq::<u8>::empty());
    }
    while i < deck.len()
        invariant
            start <= i <= deck@.len(),
            start == consumed(deck@.len(), turns_played as nat),
            rest == deck@.skip(start as int),
            forall|j: int| start <= j < deck@.len() ==> #[trigger] deck@[j] < 13,
            forall|r: u8| r < 13 ==> count_of(rest, r) <= u8::MAX,
            forall|r: int|
                0 <= r < 13 ==> counts@[r] == count_of(deck@.subrange(start as int, i as int), r as u8),
        decreases deck@.len() - i,
    {
        let c = deck[i];
        proof {
            let seen = deck@.subrange(start as int, i + 1);
            assert(seen.drop_last() =~= deck@.subrange(start as int, i as int));
            lemma_count_prefix(rest, (i + 1 - start) as int, c);
            assert(rest.take((i + 1 - start) as int) =~= seen);
        }
        let k = c as usize;
        counts.set(k, counts[k] + 1);
        i += 1;
    }
    proof {
        assert(deck@.subrange(start as int, deck@.len() as int) =~= rest);
    }
    counts
}

proof fn lemma_count_prefix(s: Seq<u8>, i: int, r: u8)
    requires
        0 <= i <= s.len(),
    ensures
        count_of(s.take(i), r) <= count_of(s, r),
    decreases s.len() - i,
{
    if i < s.len() {
        lemma_count_prefix(s, i + 1, r);
        assert(s.take(i + 1).drop_last() =~= s.take(i));
    } else {
        assert(s.take(i) =~= s);
    }
}

/// The total of the first `k` ranks' counts.
pub open spec fn counted(s: Seq<u8>, k: nat) -> nat
    decreases k,
{
    if k == 0 {
        0
    } else {
        counted(s, (k - 1) as nat) + count_of(s, (k - 1) as u8)
    }
}

proof fn lemma_counted_push(s: Seq<u8>, x: u8, k: nat)
    requires
        k <= 256,
    ensures
        counted(s.push(x), k) == counted(s, k) + if x < k {
            1nat
        } else {
            0nat
        },
    decreases k,
{
    if k > 0 {
        lemma_counted_push(s, x, (k - 1) as nat);
        assert(s.push(x).drop_last() =~= s);
    }
}

/// The case keeper accounts for every card left in the box: when every card
/// is a rank, the thirteen counts add up to the cards remaining.
pub proof fn law_counts_cover_the_box(s: Seq<u8>)
    requires
        forall|i: int| 0 <= i < s.len() ==> #[trigger] s[i] < 13,
    ensures
        counted(s, 13) == s.len(),
    decreases s.len(),
{
    if s.len() == 0 {
        assert(counted(s, 13) == 0) by {
            lemma_counted_empty(s, 13);
        }
    } else {
        let init = s.drop_last();
        assert forall|i: int| 0 <= i < init.len() implies #[trigger] init[i] < 13 by {
            assert(init[i] == s[i]);
        }
        law_counts_cover_the_box(init);
        lemma_counted_push(init, s.last(), 13);
        assert(init.push(s.last()) =~= s);
    }
}

proof fn lemma_counted_empty(s: Seq<u8>, k: nat)
    requires
        s.len() == 0,
    ensures
        counted(s, k) == 0,
    decreases k,
{
    if k > 0 {
        lemma_counted_empty(s, (k - 1) as nat);
    }
}
/// The outcome of a faro session, handed to the host.
#[derive(Debug, Clone, Copy, PartialEq, Eq, Structural)]
pub struct FaroResult {
    /// Whether the player reached the target stake.
    pub won: bool,
    /// The stake left when the session ended (busted = 0).
    pub final_stake: i64,
    /// How many turns were dealt before the session ended.
    pub turns_played: usize,
}

/// The sum of the first `k` entries.
pub open spec fn sum_upto(w: Seq<i64>, k: int) -> int
    decreases k,
{
    if k <= 0 {
        0
    } else {
        sum_upto(w, k - 1) + w[k - 1]
    }
}

/// The bets the layout carries: one per rank with chips on it, in rank order.
pub open spec fn bets_upto(w: Seq<i64>, c: Seq<bool>, k: int) -> Seq<Bet>
    decreases k,
{
    if k <= 0 {
        Seq::empty()
    } else if w[k - 1] > 0 {
        bets_upto(w, c, k - 1).push(Bet { rank: (k - 1) as u8, amount: w[k - 1], copper: c[k - 1] })
    } else {
        bets_upto(w, c, k - 1)
    }
}

/// The chips riding on a run of bets.
pub open spec fn staked(bets: Seq<Bet>) -> int
    decreases bets.len(),
{
    if bets.len() == 0 {
        0
    } else {
        staked(bets.drop_last()) + bets.last().amount
    }
}

proof fn lemma_bet_result_bounded(b: Bet, turn: Turn)
    requires
        b.amount >= 0,
    ensures
        -b.amount <= bet_result(b, turn) <= b.amount,
{
}

proof fn lemma_turn_result_bounded(bets: Seq<Bet>, turn: Turn)
    requires
        forall|i: int| 0 <= i < bets.len() ==> (#[trigger] bets[i]).amount >= 0,
    ensures
        -staked(bets) <= turn_result(bets, turn) <= staked(bets),
        staked(bets) >= 0,
    decreases bets.len(),
{
    if bets.len() > 0 {
        let init = bets.drop_last();
        assert forall|i: int| 0 <= i < init.len() implies (#[trigger] init[i]).amount >= 0 by {
            assert(init[i] == bets[i]);
        }
        lemma_turn_result_bounded(init, turn);
        lemma_bet_result_bounded(bets.last(), turn);
    }
}

proof fn lemma_staked_prefix(bets: Seq<Bet>, k: int)
    requires
        0 <= k <= bets.len(),
        forall|i: int| 0 <= i < bets.len() ==> (#[trigger] bets[i]).amount >= 0,
    ensures
        0 <= staked(bets.take(k)) <= staked(bets),
    decreases bets.len() - k,
{
    if k < bets.len() {
        lemma_staked_prefix(bets, k + 1);
        assert(bets.take(k + 1).drop_last() =~= bets.take(k));
        assert(bets.take(k + 1).last() == bets[k]);
    } else {
        assert(bets.take(k) =~= bets);
    }
    let p = bets.take(k);
    assert forall|i: int| 0 <= i < p.len() implies (#[trigger] p[i]).amount >= 0 by {
        assert(p[i] == bets[i]);
    }
    lemma_turn_result_bounded(p, Turn { loser: 0, winner: 0 });
}

proof fn lemma_bets_upto(w: Seq<i64>, c: Seq<bool>, k: int)
    requires
        0 <= k <= w.len(),
        k <= c.len(),
        k <= 256,
        forall|i: int| 0 <= i < w.len() ==> #[trigger] w[i] >= 0,
    ensures
        staked(bets_upto(w, c, k)) == sum_upto(w, k),
        sum_upto(w, k) >= 0,
        forall|i: int| 0 <= i < bets_upto(w, c, k).len() ==> (#[trigger] bets_upto(w, c, k)[i]).amount >= 0,
    decreases k,
{
    if k > 0 {
        lemma_bets_upto(w, c, k - 1);
        let prev = bets_upto(w, c, k - 1);
        if w[k - 1] > 0 {
            let b = Bet { rank: (k - 1) as u8, amount: w[k - 1], copper: c[k - 1] };
            assert(prev.push(b).drop_last() =~= prev);
            assert forall|i: int| 0 <= i < prev.push(b).len() implies (#[trigger] prev.push(b)[i]).amount >= 0 by {
                if i < prev.len() {
                    assert(prev.push(b)[i] == prev[i]);
                }
            }
        }
    }
}

proof fn lemma_sum_prefix(w: Seq<i64>, k: int, n: int)
    requires
        0 <= k <= n <= w.len(),
        forall|i: int| 0 <= i < w.len() ==> #[trigger] w[i] >= 0,
    ensures
        0 <= sum_upto(w, k) <= sum_upto(w, n),
    decreases n - k,
{
    if k < n {
        lemma_sum_prefix(w, k, n - 1);
    }
    lemma_sum_nonneg(w, k);
}

proof fn lemma_sum_nonneg(w: Seq<i64>, k: int)
    requires
        0 <= k <= w.len(),
        forall|i: int| 0 <= i < w.len() ==> #[trigger] w[i] >= 0,
    ensures
        sum_upto(w, k) >= 0,
    decreases k,
{
    if k > 0 {
        lemma_sum_nonneg(w, k - 1);
    }
}

/// A faro table mid-session: the box, the stakes, and this turn's layout.
/// Each method is one thing the player can do at the table.
pub struct FaroTable {
    /// The shuffled box, as ranks.
    pub deck: Vec<u8>,
    /// Stake to reach to win the session.
    pub target: i64,
    /// Turns the session allows (1..=TURNS).
    pub turns_total: usize,
    /// Chips added per tap on a rank (at least one).
    pub min_bet: i64,
    /// The player's chips.
    pub stake: i64,
    /// The turn being bet on or just dealt (0-based).
    pub turn_idx: usize,
    /// Chips on each of the thirteen ranks this turn.
    pub wagers: Vec<i64>,
    /// Whether each rank's chips are coppered (bet to lose).
    pub copper: Vec<bool>,
    /// Whether a tap on a rank coppers it.
    pub copper_mode: bool,
    /// Once dealt, the turn and the stake change it made; bets are locked.
    pub revealed: Option<(Turn, i64)>,
}

impl FaroTable {
    /// The table's invariant: a full box of ranks, a turn within the
    /// allowance, thirteen non-negative wagers that the stake covers.
    pub open spec fn wf(self) -> bool {
        &&& self.deck@.len() == 52
        &&& forall|i: int| 0 <= i < 52 ==> #[trigger] self.deck@[i] < 13
        &&& 1 <= self.turns_total <= TURNS
        &&& self.turn_idx < self.turns_total
        &&& self.min_bet >= 1
        &&& self.wagers@.len() == 13
        &&& self.copper@.len() == 13
        &&& forall|i: int| 0 <= i < 13 ==> #[trigger] self.wagers@[i] >= 0
        &&& self.revealed is None ==> (sum_upto(self.wagers@, 13) == 0 || sum_upto(self.wagers@, 13)
            <= self.stake)
        &&& sum_upto(self.wagers@, 13) <= i64::MAX
    }

    /// The chips laid this turn.
    pub open spec fn placed_spec(self) -> int {
        sum_upto(self.wagers@, 13)
    }

    /// The stake change dealing this turn makes.
    pub open spec fn deal_delta(self) -> int {
        turn_result(
            bets_upto(self.wagers@, self.copper@, 13),
            Turn { loser: self.deck@[2 * self.turn_idx + 1], winner: self.deck@[2 * self.turn_idx + 2] },
        )
    }

    /// Sit down: the allowance is clamped to 1..=TURNS, and the chip per tap to
    /// 1..=max(starting stake, 1) so a tap can always lay at least one chip.
    pub fn new(deck: Vec<u8>, starting_stake: i64, target: i64, max_turns: usize, min_bet: i64) -> (t: FaroTable)
        requires
            deck@.len() == 52,
            forall|i: int| 0 <= i < 52 ==> #[trigger] deck@[i] < 13,
        ensures
            t.wf(),
            t.deck@ == deck@,
            t.stake == starting_stake,
            t.target == target,
            t.turns_total == if max_turns > TURNS { TURNS } else if max_turns < 1 { 1 } else { max_turns },
            t.min_bet == (if min_bet < 1 { 1 } else if min_bet > (if starting_stake > 1 { starting_stake } else { 1 }) {
                if starting_stake > 1 { starting_stake } else { 1 }
            } else {
                min_bet
            }),
            t.turn_idx == 0,
            t.wagers@ == Seq::new(13, |i: int| 0i64),
            t.copper@ == Seq::new(13, |i: int| false),
            !t.copper_mode,
            t.revealed is None,
    {
        let turns_total = if max_turns > TURNS {
            TURNS
        } else if max_turns < 1 {
            1
        } else {
            max_turns
        };
        let cap = if starting_stake > 1 {
            starting_stake
        } else {
            1
        };
        let min_bet = if min_bet < 1 {
            1
        } else if min_bet > cap {
            cap
        } else {
            min_bet
        };
        let mut wagers: Vec<i64> = Vec::new();
        let mut copper: Vec<bool> = Vec::new();
        let mut i: usize = 0;
        while i < 13
            invariant
                i <= 13,
                wagers@ == Seq::new(i as nat, |j: int| 0i64),
                copper@ == Seq::new(i as nat, |j: int| false),
            decreases 13 - i,
        {
            wagers.push(0);
            copper.push(false);
            i += 1;
        }
        proof {
            lemma_sum_zero(wagers@, 13);
        }
        FaroTable {
            deck,
            target,
            turns_total,
            min_bet,
            stake: starting_stake,
            turn_idx: 0,
            wagers,
            copper,
            copper_mode: false,
            revealed: None,
        }
    }

    /// The chips laid this turn.
    pub fn placed(&self) -> (p: i64)
        requires
            self.wf(),
        ensures
            p == self.placed_spec(),
    {
        let mut p: i64 = 0;
        let mut i: usize = 0;
        proof {
            lemma_sum_prefix(self.wagers@, 13, 13);
        }
        while i < 13
            invariant
                self.wf(),
                i <= 13,
                p == sum_upto(self.wagers@, i as int),
            decreases 13 - i,
        {
            proof {
                lemma_sum_prefix(self.wagers@, i + 1, 13);
            }
            p = p + self.wagers[i];
            i += 1;
        }
        p
    }

    /// Tap a rank: lay `min_bet` more chips on it (coppered if copper mode is
    /// on) — unless the turn is dealt or the stake cannot cover the chips.
    pub fn tap_rank(&mut self, r: usize)
        requires
            old(self).wf(),
            r < 13,
        ensures
            final(self).wf(),
            if old(self).revealed is None && old(self).placed_spec() + old(self).min_bet <= old(self).stake {
                &&& final(self).wagers@ == old(self).wagers@.update(r as int, (old(self).wagers@[r as int] + old(self).min_bet) as i64)
                &&& final(self).copper@ == old(self).copper@.update(r as int, old(self).copper_mode)
                &&& final(self).stake == old(self).stake
                &&& final(self).turn_idx == old(self).turn_idx
                &&& final(self).revealed == old(self).revealed
                &&& final(self).copper_mode == old(self).copper_mode
                &&& final(self).deck@ == old(self).deck@
            } else {
                *final(self) == *old(self)
            },
    {
        if self.revealed.is_some() {
            return;
        }
        let cur = self.placed();
        if (cur as i128) + (self.min_bet as i128) > (self.stake as i128) {
            return;
        }
        proof {
            lemma_elem_le_sum(self.wagers@, r as int, 13);
        }
        let w = self.wagers[r] + self.min_bet;
        proof {
            lemma_sum_update(self.wagers@, r as int, w, 13);
        }
        self.wagers.set(r, w);
        self.copper.set(r, self.copper_mode);
    }

    /// Switch between betting ranks to win and coppering them.
    pub fn toggle_copper(&mut self)
        requires
            old(self).wf(),
        ensures
            final(self).wf(),
            *final(self) == (FaroTable { copper_mode: !old(self).copper_mode, ..*old(self) }),
    {
        self.copper_mode = !self.copper_mode;
    }

    /// Take every chip back off the layout (before the deal).
    pub fn clear(&mut self)
        requires
            old(self).wf(),
        ensures
            final(self).wf(),
            old(self).revealed is None ==> *final(self) == (FaroTable {
                wagers: final(self).wagers,
                copper: final(self).copper,
                ..*old(self)
            }) && final(self).wagers@ == Seq::new(13, |i: int| 0i64) && final(self).copper@ == Seq::new(
                13,
                |i: int| false,
            ),
            old(self).revealed is Some ==> *final(self) == *old(self),
    {
        if self.revealed.is_some() {
            return;
        }
        self.wipe();
    }

    fn wipe(&mut self)
        requires
            old(self).wagers@.len() == 13,
            old(self).copper@.len() == 13,
        ensures
            *final(self) == (FaroTable { wagers: final(self).wagers, copper: final(self).copper, ..*old(self) }),
            final(self).wagers@ == Seq::new(13, |i: int| 0i64),
            final(self).copper@ == Seq::new(13, |i: int| false),
            sum_upto(final(self).wagers@, 13) == 0,
    {
        let mut i: usize = 0;
        while i < 13
            invariant
                i <= 13,
                self.wagers@.len() == 13,
                self.copper@.len() == 13,
                forall|j: int| 0 <= j < i ==> self.wagers@[j] == 0 && !self.copper@[j],
                *self == (FaroTable { wagers: self.wagers, copper: self.copper, ..*old(self) }),
            decreases 13 - i,
        {
            self.wagers.set(i, 0);
            self.copper.set(i, false);
            i += 1;
        }
        proof {
            assert(self.wagers@ =~= Seq::new(13, |i: int| 0i64));
            assert(self.copper@ =~= Seq::new(13, |i: int| false));
            lemma_sum_zero(self.wagers@, 13);
        }
    }

    /// Deal the turn: pull its losing and winning cards, settle every bet on
    /// the layout, and bank the change. A no-op once the turn is dealt.
    pub fn deal(&mut self)
        requires
            old(self).wf(),
            old(self).revealed is None ==> fits_i64(old(self).stake + old(self).deal_delta()),
        ensures
            final(self).wf(),
            final(self).target == old(self).target,
            final(self).turns_total == old(self).turns_total,
            final(self).min_bet == old(self).min_bet,
            final(self).copper_mode == old(self).copper_mode,
            old(self).revealed is Some ==> *final(self) == *old(self),
            old(self).revealed is None ==> {
                &&& final(self).stake == old(self).stake + old(self).deal_delta()
                &&& final(self).revealed == Some(
                    (
                        Turn {
                            loser: old(self).deck@[2 * old(self).turn_idx + 1],
                            winner: old(self).deck@[2 * old(self).turn_idx + 2],
                        },
                        old(self).deal_delta() as i64,
                    ),
                )
                &&& final(self).wagers@ == old(self).wagers@
                &&& final(self).copper@ == old(self).copper@
                &&& final(self).turn_idx == old(self).turn_idx
                &&& final(self).deck@ == old(self).deck@
            },
    {
        if self.revealed.is_some() {
            return;
        }
        let t = turn_at(self.deck.as_slice(), self.turn_idx);
        let mut bets: Vec<Bet> = Vec::new();
        let mut r: usize = 0;
        while r < 13
            invariant
                r <= 13,
                self.wf(),
                bets@ == bets_upto(self.wagers@, self.copper@, r as int),
            decreases 13 - r,
        {
            if self.wagers[r] > 0 {
                bets.push(Bet { rank: r as u8, amount: self.wagers[r], copper: self.copper[r] });
            }
            r += 1;
        }
        proof {
            lemma_bets_upto(self.wagers@, self.copper@, 13);
            lemma_turn_result_bounded(bets@, t);
            if self.stake < 0 {
                assert(sum_upto(self.wagers@, 13) == 0);
            }
            assert forall|i: int| 0 <= i < bets@.len() implies fits_i64(#[trigger] bet_result(bets@[i], t)) by {
                lemma_bet_result_bounded(bets@[i], t);
                lemma_staked_single(bets@, i);
            }
            assert forall|k: int| 0 <= k <= bets@.len() implies fits_i64(#[trigger] turn_result(bets@.take(k), t)) by {
                lemma_staked_prefix(bets@, k);
                let p = bets@.take(k);
                assert forall|i: int| 0 <= i < p.len() implies (#[trigger] p[i]).amount >= 0 by {
                    assert(p[i] == bets@[i]);
                }
                lemma_turn_result_bounded(p, t);
            }
        }
        let delta = settle(bets.as_slice(), t);
        self.stake = self.stake + delta;
        self.revealed = Some((t, delta));
    }

    /// After a dealt turn: end the session if the stake is busted, the target
    /// reached, or the allowance spent (handing back the result), else clear
    /// the layout for the next turn. A no-op before the deal.
    pub fn next(&mut self) -> (r: Option<FaroResult>)
        requires
            old(self).wf(),
        ensures
            final(self).wf(),
            final(self).target == old(self).target,
            final(self).turns_total == old(self).turns_total,
            final(self).min_bet == old(self).min_bet,
            old(self).revealed is None ==> r is None && *final(self) == *old(self),
            old(self).revealed is Some && session_over_spec(old(self).stake, old(self).target, old(self).turn_idx + 1, old(self).turns_total as int) ==> {
                &&& r == Some(FaroResult {
                    won: old(self).stake > 0 && old(self).stake >= old(self).target,
                    final_stake: if old(self).stake > 0 { old(self).stake } else { 0 },
                    turns_played: (old(self).turn_idx + 1) as usize,
                })
                &&& *final(self) == *old(self)
            },
            old(self).revealed is Some && !session_over_spec(old(self).stake, old(self).target, old(self).turn_idx + 1, old(self).turns_total as int) ==> {
                &&& r is None
                &&& final(self).turn_idx == old(self).turn_idx + 1
                &&& final(self).revealed is None
                &&& final(self).wagers@ == Seq::new(13, |i: int| 0i64)
                &&& final(self).copper@ == Seq::new(13, |i: int| false)
                &&& final(self).stake == old(self).stake
                &&& final(self).deck@ == old(self).deck@
            },
    {
        if self.revealed.is_none() {
            return None;
        }
        let played = self.turn_idx + 1;
        if session_over(self.stake, self.target, played, self.turns_total) {
            let won = self.stake > 0 && self.stake >= self.target;
            let final_stake = if self.stake > 0 {
                self.stake
            } else {
                0
            };
            return Some(FaroResult { won, final_stake, turns_played: played });
        }
        self.wipe();
        self.turn_idx = played;
        self.revealed = None;
        None
    }

    /// Leave between turns with the chips still held.
    pub fn leave(&self) -> (r: FaroResult)
        requires
            self.revealed is None,
        ensures
            r == (FaroResult {
                won: self.stake > 0 && self.stake >= self.target,
                final_stake: if self.stake > 0 { self.stake } else { 0 },
                turns_played: self.turn_idx,
            }),
    {
        let final_stake = if self.stake > 0 {
            self.stake
        } else {
            0
        };
        FaroResult { won: self.stake > 0 && self.stake >= self.target, final_stake, turns_played: self.turn_idx }
    }

    /// The case keeper for the table: how many of each rank remain, counting a
    /// dealt turn's two cards as out.
    pub fn counts(&self) -> (c: [u8; 13])
        requires
            self.wf(),
        ensures
            forall|r: int|
                0 <= r < 13 ==> c@[r] == count_of(
                    self.deck@.skip(
                        consumed(52, (self.turn_idx + if self.revealed is Some { 1int } else { 0int }) as nat) as int,
                    ),
                    r as u8,
                ),
    {
        let played = self.turn_idx + if self.revealed.is_some() {
            1
        } else {
            0
        };
        proof {
            assert forall|r: u8| r < 13 implies count_of(self.deck@.skip(consumed(52, played as nat) as int), r) <= u8::MAX by {
                lemma_count_bound(self.deck@.skip(consumed(52, played as nat) as int), r);
            }
        }
        remaining_counts(self.deck.as_slice(), played)
    }
}

proof fn lemma_count_bound(s: Seq<u8>, r: u8)
    ensures
        count_of(s, r) <= s.len(),
    decreases s.len(),
{
    if s.len() > 0 {
        lemma_count_bound(s.drop_last(), r);
    }
}

proof fn lemma_staked_single(bets: Seq<Bet>, i: int)
    requires
        0 <= i < bets.len(),
        forall|j: int| 0 <= j < bets.len() ==> (#[trigger] bets[j]).amount >= 0,
    ensures
        bets[i].amount <= staked(bets),
{
    lemma_staked_prefix(bets, i);
    lemma_staked_prefix(bets, i + 1);
    assert(bets.take(i + 1).drop_last() =~= bets.take(i));
}

proof fn lemma_elem_le_sum(w: Seq<i64>, r: int, k: int)
    requires
        0 <= r < k <= w.len(),
        forall|i: int| 0 <= i < w.len() ==> #[trigger] w[i] >= 0,
    ensures
        w[r] <= sum_upto(w, k),
    decreases k,
{
    lemma_sum_nonneg(w, k - 1);
    if r < k - 1 {
        lemma_elem_le_sum(w, r, k - 1);
    }
}

proof fn lemma_sum_zero(w: Seq<i64>, k: int)
    requires
        0 <= k <= w.len(),
        forall|i: int| 0 <= i < w.len() ==> #[trigger] w[i] == 0,
    ensures
        sum_upto(w, k) == 0,
    decreases k,
{
    if k > 0 {
        lemma_sum_zero(w, k - 1);
    }
}

proof fn lemma_sum_update(w: Seq<i64>, r: int, v: i64, k: int)
    requires
        0 <= r < w.len(),
        0 <= k <= w.len(),
    ensures
        sum_upto(w.update(r, v), k) == sum_upto(w, k) + if r < k { v - w[r] } else { 0 },
    decreases k,
{
    if k > 0 {
        lemma_sum_update(w, r, v, k - 1);
    }
}

/// You cannot lose more than you staked: a table that sits down with a
/// non-negative stake never goes below zero, since every bet loses at most its
/// own chips and the chips laid never exceed the stake.
pub proof fn law_stake_never_goes_negative(t: FaroTable)
    requires
        t.wf(),
        t.stake >= 0,
        t.revealed is None,
    ensures
        t.stake + t.deal_delta() >= 0,
{
    lemma_bets_upto(t.wagers@, t.copper@, 13);
    lemma_turn_result_bounded(
        bets_upto(t.wagers@, t.copper@, 13),
        Turn { loser: t.deck@[2 * t.turn_idx + 1], winner: t.deck@[2 * t.turn_idx + 2] },
    );
}

} // verus!
