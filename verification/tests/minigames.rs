use std::collections::HashMap;
use kaintuck::minigames::bucket_brigade::Board;
use kaintuck::minigames::cards::{session_over, CARD_FACE_STYLE, DECK, RANKS, RANK_LABELS};
use kaintuck::minigames::crowd_threading::{build_level, carve_route, grid_dims, Dir, RouteCarver, DIRS};
use kaintuck::minigames::faro::{remaining_counts, settle as faro_settle, turn_at, Bet, Turn, TURNS};
use kaintuck::minigames::grid::{container_style, CELL_BOX_STYLE};
use kaintuck::minigames::hot_cold::{ceil_log2, distance, par, ring, temperature, Feedback, Temperature};
use kaintuck::minigames::sequence::correct_prefix;
use kaintuck::minigames::vingt_un::{
    dealer_should_hit, hand_value, is_bust, is_natural, play_dealer, rank_of, settle, suit_of,
};

// ----- vingt-et-un -----

/// Build a card index from a rank (0..13) and suit (0..4).
fn card(rank: u8, suit: u8) -> u8 {
    suit * RANKS as u8 + rank
}

#[test]
fn rank_and_suit_decompose_the_index() {
    for c in 0..DECK as u8 {
        assert!((rank_of(c) as usize) < RANKS);
        assert!((suit_of(c) as usize) < 4);
        assert_eq!(suit_of(c) * RANKS as u8 + rank_of(c), c);
    }
}

#[test]
fn hand_value_counts_pips_faces_and_hard_aces() {
    // 9 + 10(king) = 19, no ace -> hard.
    assert_eq!(hand_value(&[card(8, 0), card(12, 1)]), (19, false));
    // 10 + 7 = 17 hard.
    assert_eq!(hand_value(&[card(9, 0), card(6, 0)]), (17, false));
    // Two as pips: 2 + 5 = 7.
    assert_eq!(hand_value(&[card(1, 0), card(4, 0)]), (7, false));
}

#[test]
fn ace_is_soft_then_demotes_to_avoid_bust() {
    // A + 6 = 17 soft.
    assert_eq!(hand_value(&[card(0, 0), card(5, 0)]), (17, true));
    // A + 6 + 10 = 17 hard (ace demoted to 1).
    assert_eq!(hand_value(&[card(0, 0), card(5, 0), card(9, 0)]), (17, false));
    // A + A = 12 soft (one ace 11, one ace 1).
    assert_eq!(hand_value(&[card(0, 0), card(0, 1)]), (12, true));
    // A + A + 9 = 21 soft.
    assert_eq!(hand_value(&[card(0, 0), card(0, 1), card(8, 0)]), (21, true));
}

#[test]
fn natural_and_bust_detection() {
    // A + king = 21 in two cards -> natural.
    assert!(is_natural(&[card(0, 0), card(12, 0)]));
    // 21 in three cards is not a natural.
    assert!(!is_natural(&[card(6, 0), card(6, 1), card(6, 2)]));
    assert!(!is_natural(&[card(0, 0)]));
    // Over 21 busts.
    assert!(is_bust(&[card(12, 0), card(12, 1), card(4, 0)])); // 10+10+5
    assert!(!is_bust(&[card(12, 0), card(12, 1)])); // 20
}

#[test]
fn dealer_draws_to_seventeen_and_stands() {
    assert!(dealer_should_hit(16));
    assert!(!dealer_should_hit(17));
    assert!(!dealer_should_hit(21));
    // Starts 10 + 5 = 15, draws a 6 -> 21, stands.
    let final_hand = play_dealer(&[card(9, 0), card(4, 0)], &[card(5, 1)]);
    assert_eq!(hand_value(&final_hand).0, 21);
    assert_eq!(final_hand.len(), 3);
    // Starts on 18, never draws.
    let stood = play_dealer(&[card(9, 0), card(7, 0)], &[card(9, 1)]);
    assert_eq!(stood.len(), 2);
}

#[test]
fn dealer_stops_when_pile_runs_dry() {
    // Starts on 12, pile empty -> can't draw, stands short.
    let hand = play_dealer(&[card(1, 0), card(9, 0)], &[]);
    assert_eq!(hand.len(), 2);
    assert_eq!(hand_value(&hand).0, 12);
}

#[test]
fn dealer_keeps_drawing_until_it_stands() {
    // 2 + 3 = 5; draws 4 (9), 2 (11), 5 (16), 3 (19) and stops with cards left.
    let pile = [card(3, 1), card(1, 2), card(4, 3), card(2, 0), card(9, 1)];
    let hand = play_dealer(&[card(1, 0), card(2, 0)], &pile);
    assert_eq!(hand, vec![card(1, 0), card(2, 0), card(3, 1), card(1, 2), card(4, 3), card(2, 0)]);
    assert_eq!(hand_value(&hand).0, 19);
}

#[test]
fn settle_player_bust_always_loses() {
    let player = [card(12, 0), card(12, 1), card(4, 0)]; // 25, bust
    let dealer_bust = [card(12, 2), card(12, 3), card(5, 0)]; // 25, also bust
    assert_eq!(settle(100, &player, &dealer_bust), -100);
}

#[test]
fn settle_naturals_pay_three_to_two_and_push() {
    let nat = [card(0, 0), card(12, 0)]; // A + K = 21 natural
    let twenty = [card(12, 1), card(9, 0)]; // 20
    assert_eq!(settle(100, &nat, &twenty), 150); // 3:2
    let other_nat = [card(0, 1), card(12, 2)];
    assert_eq!(settle(100, &nat, &other_nat), 0); // push
    // Dealer natural beats the player's plain 21.
    let drawn_21 = [card(6, 0), card(6, 1), card(6, 2)]; // 21 in three
    assert_eq!(settle(100, &drawn_21, &other_nat), -100);
}

#[test]
fn settle_compares_totals_and_dealer_bust() {
    let p20 = [card(12, 0), card(9, 0)]; // 20
    let d18 = [card(9, 1), card(7, 0)]; // 18
    assert_eq!(settle(100, &p20, &d18), 100); // higher wins
    assert_eq!(settle(100, &d18, &p20), -100); // lower loses
    assert_eq!(settle(100, &p20, &p20), 0); // equal pushes
    let d_bust = [card(12, 2), card(12, 3), card(4, 0)]; // 24
    assert_eq!(settle(100, &p20, &d_bust), 100); // dealer bust pays
}

#[test]
fn settle_rounds_natural_payout_down() {
    let nat = [card(0, 0), card(12, 0)];
    let twenty = [card(12, 1), card(9, 0)];
    assert_eq!(settle(101, &nat, &twenty), 151); // 101*3/2 = 151
}

#[test]
fn settle_rounds_a_negative_natural_payout_toward_zero() {
    let nat = [card(0, 0), card(12, 0)];
    let twenty = [card(12, 1), card(9, 0)];
    assert_eq!(settle(-101, &nat, &twenty), -151);
}

#[test]
fn session_over_on_bust_target_or_allowance() {
    assert!(session_over(0, 500, 1, 12)); // busted purse
    assert!(session_over(-50, 500, 1, 12));
    assert!(session_over(500, 500, 1, 12)); // hit target
    assert!(session_over(600, 500, 1, 12));
    assert!(session_over(300, 500, 12, 12)); // rounds spent
    assert!(!session_over(300, 500, 5, 12)); // still playing
}

// ----- faro -----

fn bet(rank: u8, amount: i64, copper: bool) -> Bet {
    Bet { rank, amount, copper }
}

#[test]
fn turn_skips_the_soda_and_advances_by_two() {
    let deck: Vec<u8> = (0..DECK as u8).collect();
    // deck[0] is burned; turn 0 = (deck[1], deck[2]).
    assert_eq!(turn_at(&deck, 0), Turn { loser: 1, winner: 2 });
    assert_eq!(turn_at(&deck, 1), Turn { loser: 3, winner: 4 });
    assert_eq!(turn_at(&deck, 24), Turn { loser: 49, winner: 50 });
}

#[test]
fn settle_win_lose_and_no_action() {
    let turn = Turn { loser: 3, winner: 8 };
    assert_eq!(faro_settle(&[bet(8, 100, false)], turn), 100); // on winner
    assert_eq!(faro_settle(&[bet(3, 100, false)], turn), -100); // on loser
    assert_eq!(faro_settle(&[bet(5, 100, false)], turn), 0); // uninvolved
}

#[test]
fn copper_inverts_win_and_lose() {
    let turn = Turn { loser: 3, winner: 8 };
    assert_eq!(faro_settle(&[bet(3, 100, true)], turn), 100); // coppered loser pays
    assert_eq!(faro_settle(&[bet(8, 100, true)], turn), -100); // coppered winner costs
    assert_eq!(faro_settle(&[bet(5, 100, true)], turn), 0);
}

#[test]
fn split_takes_half_win_or_copper() {
    let turn = Turn { loser: 6, winner: 6 };
    assert!(turn.split());
    assert_eq!(faro_settle(&[bet(6, 100, false)], turn), -50);
    assert_eq!(faro_settle(&[bet(6, 100, true)], turn), -50);
    assert_eq!(faro_settle(&[bet(6, 101, false)], turn), -50); // rounds down
    assert_eq!(faro_settle(&[bet(2, 100, false)], turn), 0); // off the split
}

#[test]
fn settle_sums_across_bets() {
    let turn = Turn { loser: 3, winner: 8 };
    let bets = [bet(8, 100, false), bet(3, 40, false), bet(1, 25, false)];
    assert_eq!(faro_settle(&bets, turn), 100 - 40);
    assert_eq!(faro_settle(&[], turn), 0);
}

#[test]
fn remaining_counts_shrink_as_turns_play() {
    // Four of each rank, in dealing order 0, 1, …, 12, 0, 1, ….
    let deck: Vec<u8> = (0..DECK).map(|i| (i % RANKS) as u8).collect();
    let start = remaining_counts(&deck, 0);
    assert_eq!(start.iter().map(|&c| c as usize).sum::<usize>(), DECK - 1); // soda burned
    assert_eq!(start[0], 3);
    assert_eq!(start[1], 4);
    let later = remaining_counts(&deck, 5);
    assert_eq!(later.iter().map(|&c| c as usize).sum::<usize>(), DECK - 1 - 10);
    // The full deal leaves exactly the hock card.
    let end = remaining_counts(&deck, TURNS);
    assert_eq!(end.iter().map(|&c| c as usize).sum::<usize>(), 1);
    assert_eq!(end[12], 1);
    // Past the end of the box nothing remains.
    assert_eq!(remaining_counts(&deck, 40), [0u8; 13]);
}

// ----- hot/cold -----

#[test]
fn distance_is_chebyshev_zero_at_self_and_symmetric() {
    let cols = 5;
    // (0,0) to (3,2): max(3,2) = 3.
    assert_eq!(distance(0, 2 * cols + 3, cols), 3);
    // Self-distance is zero; ring 0 only at the target.
    for i in 0..cols * cols {
        assert_eq!(distance(i, i, cols), 0);
    }
    // Symmetric.
    let (a, b) = (1, 3 * cols + 4);
    assert_eq!(distance(a, b, cols), distance(b, a, cols));
    // A diagonal step counts as one ring (king-move), not two.
    assert_eq!(distance(0, cols + 1, cols), 1);
}

#[test]
fn ring_is_zero_only_at_the_target() {
    let (cols, rows) = (6, 5);
    for t in [0usize, 9, 17, 29] {
        for i in 0..cols * rows {
            assert_eq!(ring(i, t, cols) == 0, i == t);
        }
    }
}

#[test]
fn temperature_reads_closer_farther_and_equal() {
    let cols = 7;
    let target = 3 * cols + 3; // (3,3)
    let far = 0; // (0,0), ring 3
    let near = 2 * cols + 2; // (2,2), ring 1
    let other_near = 4 * cols + 4; // (4,4), ring 1 — same distance as `near`
    assert_eq!(temperature(near, far, target, cols), Temperature::Warmer);
    assert_eq!(temperature(far, near, target, cols), Temperature::Colder);
    assert_eq!(temperature(other_near, near, target, cols), Temperature::Same);
}

#[test]
fn par_is_sane_monotonic_and_leaves_headroom() {
    // At least one probe, always.
    assert!(par(2, 2, Feedback::DistanceRing) >= 1);
    assert!(par(2, 2, Feedback::WarmerColder) >= 1);
    // Ring feedback is never harder-to-par than warmer/colder — host headroom.
    for &(c, r) in &[(2usize, 2usize), (5, 5), (8, 6), (16, 16)] {
        assert!(par(c, r, Feedback::DistanceRing) <= par(c, r, Feedback::WarmerColder));
    }
    // Monotonic non-decreasing as the grid grows.
    for fb in [Feedback::DistanceRing, Feedback::WarmerColder] {
        assert!(par(4, 4, fb) <= par(8, 8, fb));
        assert!(par(8, 8, fb) <= par(16, 16, fb));
    }
}

#[test]
fn ceil_log2_is_the_bisection_depth() {
    assert_eq!(ceil_log2(0), 0);
    assert_eq!(ceil_log2(1), 0);
    assert_eq!(ceil_log2(2), 1);
    assert_eq!(ceil_log2(5), 3);
    assert_eq!(ceil_log2(8), 3);
    assert_eq!(ceil_log2(9), 4);
    assert_eq!(ceil_log2(usize::MAX), usize::BITS as usize);
    assert_eq!(par(5, 5, Feedback::DistanceRing), 6);
    assert_eq!(par(5, 5, Feedback::WarmerColder), 12);
    assert_eq!(par(1, 1, Feedback::DistanceRing), 2);
    assert_eq!(par(1, 1, Feedback::WarmerColder), 3);
}

// ----- crowd threading -----

#[test]
fn grid_grows_with_crowd_and_stays_in_bounds() {
    let small = grid_dims(1);
    let big = grid_dims(100);
    assert!(small.0 >= 4 && small.1 >= 4);
    assert!(big.0 <= 8 && big.1 <= 8);
    // Monotone: a packed crowd is never on a smaller grid than a thin one.
    assert!(grid_dims(40).0 >= grid_dims(4).0);
}

#[test]
fn grid_side_is_one_past_the_root() {
    assert_eq!(grid_dims(0), (4, 4)); // ceil(sqrt(4)) + 1 = 3, floored to 4
    assert_eq!(grid_dims(3), (5, 5)); // ceil(sqrt(10)) + 1 = 5
    assert_eq!(grid_dims(6), (5, 5)); // ceil(sqrt(16)) + 1 = 5
    assert_eq!(grid_dims(7), (6, 6)); // ceil(sqrt(18)) + 1 = 6
    assert_eq!(grid_dims(16), (7, 7)); // ceil(sqrt(36)) + 1 = 7
    assert_eq!(grid_dims(17), (8, 8)); // ceil(sqrt(38)) + 1 = 8
    assert_eq!(grid_dims(1000), (8, 8)); // capped
}

#[test]
fn dir_glyphs_and_steps_match() {
    assert_eq!(Dir::Up.step(), (0, -1));
    assert_eq!(Dir::Down.step(), (0, 1));
    assert_eq!(Dir::Left.step(), (-1, 0));
    assert_eq!(Dir::Right.step(), (1, 0));
    assert_eq!(Dir::Up.glyph(), "↑");
    assert_eq!(Dir::Left.glyph(), "←");
}

// ----- sequence -----

#[test]
fn correct_prefix_stops_at_the_first_slip() {
    let target = [0usize, 2, 1, 3];
    // Flawless full match.
    assert_eq!(correct_prefix(&target, &[0, 2, 1, 3]), 4);
    // A clean prefix, then a slip.
    assert_eq!(correct_prefix(&target, &[0, 2, 0]), 2);
    // Wrong from the very first tap.
    assert_eq!(correct_prefix(&target, &[1]), 0);
    // A correct but unfinished prefix.
    assert_eq!(correct_prefix(&target, &[0, 2]), 2);
    // Nothing entered yet.
    assert_eq!(correct_prefix(&target, &[]), 0);
}

// ----- grid styling -----

#[test]
fn container_style_names_the_columns() {
    assert_eq!(
        container_style(7),
        "display: grid; width: 100%; max-width: 19rem; grid-template-columns: repeat(7, 1fr); gap: 2px; padding: 4px; border: 1px solid var(--phosphor-dim); border-radius: 4px; background: rgba(20, 95, 40, 0.10);"
    );
    assert!(container_style(12).contains("repeat(12, 1fr)"));
    assert!(CELL_BOX_STYLE.starts_with("display: flex;"));
}

// ----- bucket brigade -----

#[test]
fn extinguish_is_idempotent_and_safe() {
    let mut b = Board::new(4, 4);
    for i in [1, 6, 11, 12] {
        b.ignite(i);
    }
    // Find a live cell and clear it.
    let live = (0..16).find(|&i| b.is_active(i)).unwrap();
    let before = b.active_count();
    b.extinguish(live);
    assert_eq!(b.active_count(), before - 1);
    // Clearing it again, a safe cell, and an out-of-range index are all no-ops.
    b.extinguish(live);
    b.extinguish(live);
    b.extinguish(9999);
    assert_eq!(b.active_count(), before - 1);
}

#[test]
fn spread_is_double_buffered_no_same_step_cascade() {
    // One active cell in the middle of a 5x5; one step at certainty.
    let mut b = Board::new(5, 5);
    let center = b.idx(2, 2);
    b.ignite(center);
    let safe = b.capacity() - b.active_count();
    b.spread(&vec![true; safe]);
    // Exactly the 4 orthogonal neighbours catch — not the diagonals, and not
    // the neighbours-of-neighbours.
    assert_eq!(b.active_count(), 5);
    for &(c, r) in &[(2usize, 1usize), (2, 3), (1, 2), (3, 2)] {
        assert!(b.is_active(b.idx(c, r)), "neighbour ({c},{r}) should catch");
    }
    assert!(!b.is_active(b.idx(1, 1)), "diagonal should not catch");
    assert!(!b.is_active(b.idx(2, 0)), "neighbour-of-neighbour should not catch");
}

#[test]
fn spread_with_zero_chance_never_grows() {
    let mut b = Board::new(5, 5);
    b.ignite(3);
    b.ignite(17);
    let start = b.active_count();
    for _ in 0..20 {
        let safe = b.capacity() - b.active_count();
        b.spread(&vec![false; safe]);
    }
    assert_eq!(b.active_count(), start);
}

#[test]
fn spread_uses_each_safe_cells_own_roll() {
    // A lit corner on a 3x3: its two neighbours are safe cells #0 and #2 in
    // row-major order (cell 1 and cell 3); only the rolls that hit ignite.
    let mut b = Board::new(3, 3);
    b.ignite(0);
    // Safe cells in order: 1, 2, 3, 4, 5, 6, 7, 8.
    b.spread(&[false, true, true, true, true, true, true, true]);
    assert!(!b.is_active(1), "cell 1 rolled a miss");
    assert!(b.is_active(3), "cell 3 rolled a hit and borders the corner");
    assert!(!b.is_active(2) && !b.is_active(4), "no lit neighbour before the step");
    assert_eq!(b.active_count(), 2);
}

#[test]
fn board_floors_the_grid_at_two() {
    let b = Board::new(0, 1);
    assert_eq!((b.cols(), b.rows(), b.capacity()), (2, 2, 4));
    assert_eq!(b.active_count(), 0);
    assert!(!b.is_active(4));
}

// ----- table sessions -----

use kaintuck::minigames::bucket_brigade::{BrigadeRun, BucketBrigadeResult};
use kaintuck::minigames::crowd_threading::{CrowdWalk, WalkOutcome};
use kaintuck::minigames::faro::{FaroResult, FaroTable};
use kaintuck::minigames::hot_cold::{Clue, HotColdHunt, HotColdResult};
use kaintuck::minigames::sequence::{SequenceResult, SequenceRound};
use kaintuck::minigames::steady_hands::Accumulator;
use kaintuck::minigames::vingt_un::{VingtUnResult, VingtUnTable};

fn faro_deck() -> Vec<u8> {
    // soda 12, then turn 0 = (3 loses, 8 wins), turn 1 = (6, 6) a split, …
    let mut d = vec![12u8, 3, 8, 6, 6];
    while d.len() < 52 {
        d.push((d.len() % 13) as u8);
    }
    d
}

#[test]
fn faro_table_settles_a_turn_into_the_stake() {
    let mut t = FaroTable::new(faro_deck(), 200, 500, 25, 25);
    assert_eq!(t.min_bet, 25);
    t.tap_rank(8); // 25 on the winner
    t.tap_rank(8); // 50
    t.toggle_copper();
    t.tap_rank(3); // 25 coppered on the loser
    assert_eq!(t.placed(), 75);
    t.deal();
    assert_eq!(t.stake, 200 + 50 + 25);
    assert_eq!(t.revealed.map(|(turn, d)| (turn.loser, turn.winner, d)), Some((3, 8, 75)));
    assert_eq!(t.next(), None);
    assert_eq!(t.turn_idx, 1);
    assert_eq!(t.placed(), 0);
    // The split takes half of a bet on the split rank.
    t.toggle_copper();
    t.tap_rank(6);
    t.deal();
    assert_eq!(t.stake, 275 - 12);
}

#[test]
fn faro_table_refuses_chips_the_stake_cannot_cover() {
    let mut t = FaroTable::new(faro_deck(), 60, 500, 25, 25);
    t.tap_rank(0);
    t.tap_rank(1);
    t.tap_rank(2); // would be 75 > 60
    assert_eq!(t.placed(), 50);
    t.clear();
    assert_eq!(t.placed(), 0);
    // A chip per tap never exceeds the opening stake.
    let small = FaroTable::new(faro_deck(), 10, 500, 25, 25);
    assert_eq!(small.min_bet, 10);
    assert_eq!(FaroTable::new(faro_deck(), 10, 500, 99, 0).turns_total, 25);
}

#[test]
fn faro_table_ends_on_target_or_allowance() {
    let mut t = FaroTable::new(faro_deck(), 100, 150, 2, 100);
    t.tap_rank(8);
    t.deal();
    assert_eq!(t.next(), Some(FaroResult { won: true, final_stake: 200, turns_played: 1 }));
    let mut t = FaroTable::new(faro_deck(), 100, 1000, 1, 25);
    t.deal(); // sit the turn out
    assert_eq!(t.next(), Some(FaroResult { won: false, final_stake: 100, turns_played: 1 }));
    let t = FaroTable::new(faro_deck(), 100, 1000, 3, 25);
    assert_eq!(t.leave(), FaroResult { won: false, final_stake: 100, turns_played: 0 });
    let counts = t.counts();
    assert_eq!(counts.iter().map(|&c| c as usize).sum::<usize>(), 51);
}

fn vingt_deck(top: &[u8]) -> Vec<u8> {
    let mut d = top.to_vec();
    let mut i = 0u8;
    while d.len() < 52 {
        d.push(i % 52);
        i += 1;
    }
    d
}

#[test]
fn vingt_un_table_plays_a_round() {
    // Player 10 + 9 = 19; dealer 10 + 6 = 16, draws a 5 -> 21.
    let deck = vingt_deck(&[card(9, 0), card(9, 1), card(8, 0), card(5, 0), card(4, 2)]);
    let mut t = VingtUnTable::new(deck.clone(), 200, 500, 12, 25);
    t.stake_up();
    t.stake_up();
    assert_eq!(t.bet, 50);
    t.deal();
    assert_eq!(t.player, vec![card(9, 0), card(8, 0)]);
    assert_eq!(t.dealer, vec![card(9, 1), card(5, 0)]);
    assert!(t.revealed.is_none());
    t.stand();
    let (final_dealer, delta) = t.revealed.clone().unwrap();
    assert_eq!(final_dealer, vec![card(9, 1), card(5, 0), card(4, 2)]);
    assert_eq!(delta, -50);
    assert_eq!(t.stake, 150);
    assert_eq!(t.next(deck), None);
    assert_eq!(t.round_idx, 1);
    assert_eq!(t.bet, 0);
}

#[test]
fn vingt_un_table_settles_a_natural_and_a_bust_on_the_spot() {
    // Player A + K natural against dealer 10 + 7.
    let deck = vingt_deck(&[card(0, 0), card(9, 1), card(12, 0), card(6, 0)]);
    let mut t = VingtUnTable::new(deck, 100, 1000, 12, 100);
    t.stake_up();
    t.deal();
    assert_eq!(t.revealed.as_ref().map(|r| r.1), Some(150));
    assert_eq!(t.stake, 250);
    // Player 10 + 6, draws a king and busts.
    let deck = vingt_deck(&[card(9, 0), card(9, 1), card(5, 0), card(6, 0), card(12, 3)]);
    let mut t = VingtUnTable::new(deck.clone(), 100, 1000, 1, 100);
    t.stake_up();
    t.deal();
    t.draw();
    assert_eq!(t.revealed.as_ref().map(|r| r.1), Some(-100));
    assert_eq!(t.next(deck), Some(VingtUnResult { won: false, final_stake: 0, rounds_played: 1 }));
}

#[test]
fn hot_cold_hunt_spends_probes_until_found() {
    let mut h = HotColdHunt::new(5, 5, Feedback::DistanceRing, 8, 12);
    assert_eq!(h.par, 6);
    assert_eq!(h.probe(0), None);
    assert_eq!(h.probe(0), None); // re-probe is free
    assert_eq!(h.probes.len(), 1);
    assert_eq!(h.probe(12), Some(HotColdResult { found: true, probes_used: 2, par: 6 }));
    assert_eq!(h.probe(3), None); // over
    let mut h = HotColdHunt::new(1, 1, Feedback::WarmerColder, 0, 3);
    assert_eq!((h.cols, h.rows, h.max_probes), (2, 2, 1));
    assert_eq!(h.probe(0), Some(HotColdResult { found: false, probes_used: 1, par: 4 }));
}

#[test]
fn sequence_round_ends_on_a_slip_or_a_clean_run() {
    let mut r = SequenceRound::new(vec![0, 2, 1]);
    assert_eq!(r.tap(0), None); // still flashing
    r.end_flash();
    assert_eq!(r.tap(0), None);
    assert_eq!(r.tap(2), None);
    assert_eq!(r.tap(1), Some(SequenceResult { correct_prefix: 3, length: 3, perfect: true }));
    let mut r = SequenceRound::new(vec![0, 2, 1]);
    r.end_flash();
    r.tap(0);
    assert_eq!(r.tap(3), Some(SequenceResult { correct_prefix: 1, length: 3, perfect: false }));
    assert_eq!(r.tap(2), None);
}

#[test]
fn crowd_walk_clears_collides_or_times_out() {
    let path = vec![Dir::Up, Dir::Left, Dir::Up];
    let mut w = CrowdWalk::new(path.clone(), 2600, 10_000);
    assert_eq!(w.tap(Dir::Up), None); // map still up
    w.close_map();
    assert_eq!(w.tap(Dir::Up), None);
    assert_eq!(w.tap(Dir::Left), None);
    assert_eq!(w.tap(Dir::Up), Some(WalkOutcome { cleared: true, steps_taken: 3, path_len: 3 }));
    let mut w = CrowdWalk::new(path.clone(), 2600, 10_000);
    w.close_map();
    w.tap(Dir::Up);
    assert_eq!(w.tap(Dir::Right), Some(WalkOutcome { cleared: false, steps_taken: 1, path_len: 3 }));
    // The reveal closes after 2600 ms of ticks; then 100 ms of walking time.
    let mut w = CrowdWalk::new(path, 2600, 100);
    for _ in 0..130 {
        assert_eq!(w.tick(), None);
    }
    assert!(!w.revealed);
    for _ in 0..4 {
        assert_eq!(w.tick(), None);
    }
    assert_eq!(w.tick(), Some(WalkOutcome { cleared: false, steps_taken: 0, path_len: 3 }));
}

#[test]
fn brigade_run_tracks_the_peak_and_ends_when_clear() {
    let mut b = Board::new(3, 3);
    b.ignite(4); // the centre
    let mut run = BrigadeRun::new(b, 40, 8000);
    assert_eq!(run.spread_every, 2);
    assert_eq!(run.tick(&[]), None); // tick 1: no spread
    let safe = run.board.capacity() - run.board.active_count();
    assert_eq!(run.tick(&vec![true; safe]), None); // tick 2: spreads to 4 neighbours
    assert_eq!(run.peak, 5);
    for i in 0..9 {
        run.tap(i);
    }
    assert_eq!(
        run.tick(&[]),
        Some(BucketBrigadeResult { contained: true, peak_active: 5, leaked: 0 })
    );
}

#[test]
fn steady_tally_tracks_the_longest_streak() {
    let mut acc = Accumulator::new();
    // on x3, off, on x5, off, on x2  → longest is 5 of 12.
    for on in [true, true, true, false, true, true, true, true, true, false, true, true] {
        acc.tick(on);
    }
    assert_eq!((acc.total, acc.on, acc.streak, acc.longest), (12, 10, 2, 5));
}

#[test]
fn hot_cold_clues_read_ring_or_verdict() {
    let cols = 7;
    let target = 3 * cols + 3;
    let mut h = HotColdHunt::new(cols, 7, Feedback::WarmerColder, 8, target);
    h.probe(0); // (0,0), ring 3
    h.probe(2 * cols + 2); // (2,2), ring 1
    h.probe(4 * cols + 4); // (4,4), ring 1
    h.probe(6); // (6,0), ring 3
    assert_eq!(h.clue(0), Clue::Baseline);
    assert_eq!(h.clue(1), Clue::Verdict(Temperature::Warmer));
    assert_eq!(h.clue(2), Clue::Verdict(Temperature::Same));
    assert_eq!(h.clue(3), Clue::Verdict(Temperature::Colder));
    let mut r = HotColdHunt::new(cols, 7, Feedback::DistanceRing, 8, target);
    r.probe(0);
    assert_eq!(r.clue(0), Clue::Ring(3));
}

/// A deterministic, feedback-only searcher: it keeps the cells still consistent
/// with every clue and each turn probes the unprobed candidate whose feedback
/// splits that set most evenly. It never reads the target except through
/// feedback. Returns `(found_cell, probes_used)`.
fn solve(target: usize, cols: usize, rows: usize, feedback: Feedback) -> (usize, usize) {
    let cap = cols * rows;
    let mut candidates: Vec<usize> = (0..cap).collect();
    let mut probed = vec![false; cap];
    let mut prev: Option<usize> = None;
    let mut count = 0usize;
    loop {
        let pick = candidates
            .iter()
            .copied()
            .filter(|&p| !probed[p])
            .min_by_key(|&p| {
                let mut groups: HashMap<u8, usize> = HashMap::new();
                for &cand in &candidates {
                    let key = match feedback {
                        Feedback::DistanceRing => ring(p, cand, cols) as u8,
                        Feedback::WarmerColder => match prev {
                            Some(pp) => match temperature(p, pp, cand, cols) {
                                Temperature::Warmer => 0,
                                Temperature::Colder => 1,
                                Temperature::Same => 2,
                            },
                            None => 0,
                        },
                    };
                    *groups.entry(key).or_insert(0) += 1;
                }
                groups.values().copied().max().unwrap_or(0)
            })
            .expect("a candidate is always available (the target stays in the set)");
        probed[pick] = true;
        count += 1;
        if pick == target {
            return (pick, count);
        }
        match feedback {
            Feedback::DistanceRing => {
                let obs = ring(pick, target, cols);
                candidates.retain(|&cand| ring(pick, cand, cols) == obs);
            }
            Feedback::WarmerColder => {
                if let Some(pp) = prev {
                    let obs = temperature(pick, pp, target, cols);
                    candidates.retain(|&cand| temperature(pick, pp, cand, cols) == obs);
                }
            }
        }
        assert!(candidates.contains(&target));
        prev = Some(pick);
        assert!(count <= cap, "solver failed to converge on {cols}x{rows}");
    }
}

#[test]
fn the_searcher_always_finds_the_target() {
    for &(cols, rows) in &[(5usize, 5usize), (6, 4), (7, 7)] {
        for target in 0..cols * rows {
            for fb in [Feedback::DistanceRing, Feedback::WarmerColder] {
                let (found, probes) = solve(target, cols, rows, fb);
                assert_eq!(found, target);
                assert!(probes <= cols * rows, "took {probes} probes on {cols}x{rows}");
            }
        }
    }
}

#[test]
fn a_sharp_searcher_beats_a_blind_one_within_budget() {
    let (cols, rows, budget) = (5usize, 5usize, 12usize);
    for fb in [Feedback::DistanceRing, Feedback::WarmerColder] {
        for target in 0..cols * rows {
            let (_, probes) = solve(target, cols, rows, fb);
            assert!(probes <= budget, "smart searcher took {probes} (> {budget}) for target {target}, {fb:?}");
        }
    }
    // A blind scan of cells 0..budget misses every target placed beyond it.
    let blind_misses = (0..cols * rows).filter(|&t| t >= budget).count();
    assert!(blind_misses > 0, "a blind scan should miss within budget for some target");
}

fn all_catch(b: &Board) -> Vec<bool> {
    vec![true; b.capacity() - b.active_count()]
}

#[test]
fn do_nothing_loses_under_a_brisk_spread() {
    // Ignore it and it gets away: two threats, every roll a hit, no taps.
    let mut b = Board::new(5, 5);
    b.ignite(6);
    b.ignite(18);
    let steps = 8000 / 700;
    for _ in 0..steps {
        let rolls = all_catch(&b);
        b.spread(&rolls);
    }
    assert!(b.active_count() > 0, "do-nothing run should not self-contain");
    assert!(b.active_count() > 2, "spread should have grown past the start");
}

#[test]
fn perfect_tap_contains() {
    // Dousing every live cell after each step beats it back to — and holds it
    // at — zero.
    let mut b = Board::new(5, 5);
    b.ignite(6);
    b.ignite(18);
    let steps = 8000 / 700;
    for _ in 0..steps {
        let rolls = all_catch(&b);
        b.spread(&rolls);
        for i in 0..25 {
            b.extinguish(i);
        }
    }
    assert_eq!(b.active_count(), 0, "perfect play should contain it");
}

#[test]
fn display_tables_line_up_with_the_indices() {
    assert_eq!(RANK_LABELS.len(), RANKS);
    assert_eq!(RANK_LABELS[rank_of(card(0, 2)) as usize], "A");
    assert_eq!(RANK_LABELS[rank_of(card(9, 1)) as usize], "10");
    assert_eq!(kaintuck::minigames::vingt_un::SUIT_SYMBOLS[suit_of(card(3, 1)) as usize], "♥");
    assert!(CARD_FACE_STYLE.ends_with("aspect-ratio:3/4;"));
    assert_eq!(DIRS, [Dir::Up, Dir::Left, Dir::Right, Dir::Down]);
}

// ----- hunter -----

use kaintuck::minigames::hunter::{HunterRange, HunterResult, TRACER_TICKS};

#[test]
fn hunter_hits_when_the_quarry_shares_the_column() {
    let mut h = HunterRange::new(7, 3, 5, 800);
    assert_eq!(h.reload_ticks, 40);
    h.fire(3);
    assert!(!h.loaded);
    assert_eq!((h.ammo_left, h.shots_fired), (4, 1));
    assert_eq!(h.pending, Some(HunterResult { hit: true, shots_fired: 1 }));
    // The outcome is reported only once the tracer has flown.
    for _ in 0..TRACER_TICKS - 1 {
        assert_eq!(h.tick(), None);
    }
    assert_eq!(h.tick(), Some(HunterResult { hit: true, shots_fired: 1 }));
    assert!(h.done);
    assert_eq!(h.tick(), None);
}

#[test]
fn hunter_must_reload_between_shots() {
    let mut h = HunterRange::new(7, 0, 2, 100); // 5-tick reload
    h.fire(4); // miss, one round left
    assert_eq!(h.pending, None);
    h.fire(0); // chamber empty: ignored
    assert_eq!(h.shots_fired, 1);
    h.reload();
    assert!(h.reloading);
    for _ in 0..4 {
        h.tick();
    }
    assert!(!h.loaded);
    h.tick();
    assert!(h.loaded && !h.reloading);
    h.fire(6); // miss with the last round: lost
    assert_eq!(h.pending, Some(HunterResult { hit: false, shots_fired: 2 }));
    h.reload(); // nothing left to chamber
    assert!(!h.reloading);
}

#[test]
fn hunter_steps_are_clamped_to_the_range() {
    let mut h = HunterRange::new(1, 0, 0, 0);
    assert_eq!((h.cols, h.ammo_left, h.reload_ticks), (2, 1, 1));
    h.step(-1);
    assert_eq!(h.hunter, 0);
    h.step(1);
    h.step(1);
    assert_eq!(h.hunter, 1);
}

// ----- route carving and crowd placement -----

/// Carve a route by taking the option at each listed pick.
fn carve(cols: usize, rows: usize, start_col: usize, picks: &[usize]) -> RouteCarver {
    let mut rc = RouteCarver::new(cols, rows, start_col);
    for &p in picks {
        assert!(!rc.reached());
        rc.take(p);
    }
    rc
}

#[test]
fn the_route_offers_up_twice_then_the_sides() {
    let rc = RouteCarver::new(2, 3, 0);
    assert_eq!(rc.options(), vec![Dir::Up, Dir::Up, Dir::Right]);
    let rc = RouteCarver::new(3, 3, 1);
    assert_eq!(rc.options(), vec![Dir::Up, Dir::Up, Dir::Left, Dir::Right]);
}

#[test]
fn the_route_never_revisits_a_cell() {
    // Right, Up, Left, Up through a 2x3 grid.
    let rc = carve(2, 3, 0, &[2, 0, 2, 0]);
    assert_eq!(rc.path, vec![Dir::Right, Dir::Up, Dir::Left, Dir::Up]);
    assert_eq!(rc.walked, vec![(0, 2), (1, 2), (1, 1), (0, 1), (0, 0)]);
    assert!(rc.reached());
    // After stepping right, the cell it came from is no longer offered.
    let rc = carve(2, 3, 0, &[2]);
    assert_eq!(rc.options(), vec![Dir::Up, Dir::Up]);
}

#[test]
fn backtracking_undoes_the_last_step_and_stops_at_the_start() {
    let mut rc = carve(3, 3, 1, &[2]);
    assert_eq!(rc.walked, vec![(1, 2), (0, 2)]);
    assert!(rc.backtrack());
    assert_eq!(rc.walked, vec![(1, 2)]);
    assert!(rc.path.is_empty());
    assert!(!rc.backtrack());
    assert_eq!(rc.walked, vec![(1, 2)]);
}

#[test]
fn carving_follows_the_picks_to_the_top_row() {
    let rc = carve_route(3, 3, 0, &vec![2, 0, 3, 0, 9, 9]).unwrap();
    assert_eq!(rc.path, vec![Dir::Right, Dir::Up, Dir::Right, Dir::Up]);
    assert_eq!(rc.walked, vec![(0, 2), (1, 2), (1, 1), (2, 1), (2, 0)]);
    assert!(rc.reached());
    // Picks that run out before the top row, or name no move on offer.
    assert!(carve_route(3, 3, 0, &vec![0]).is_none());
    assert!(carve_route(3, 3, 0, &vec![3, 0]).is_none());
}

#[test]
fn the_crowd_fills_shuffled_free_cells_in_column_order() {
    // A crowd of three gets a 5x5 grid; straight up column 2 leaves 20 free cells.
    let picks = vec![0, 0, 0, 0];
    let lv = build_level(3, 2, &picks, &vec![0; 19]).unwrap();
    assert_eq!((lv.cols, lv.rows), grid_dims(3));
    assert_eq!((lv.start, lv.exit), ((2, 4), (2, 0)));
    assert_eq!(lv.path, vec![Dir::Up; 4]);
    assert_eq!(lv.obstacles, vec![(1, 0), (3, 0), (4, 0)]);
    // Draws that swap each position with itself keep the row-by-row order.
    let keep: Vec<usize> = (1..20).rev().collect();
    let lv = build_level(3, 2, &picks, &keep).unwrap();
    assert_eq!(lv.obstacles, vec![(0, 0), (1, 0), (3, 0)]);
    assert!(lv.obstacles.iter().all(|c| !lv.walked.contains(c)));
    // The same draws give the same level.
    let again = build_level(3, 2, &picks, &keep).unwrap();
    assert_eq!((again.path, again.walked, again.obstacles), (lv.path, lv.walked, lv.obstacles));
}

#[test]
fn draws_that_do_not_fit_the_shuffle_are_refused() {
    let picks = vec![0, 0, 0, 0];
    assert!(build_level(3, 2, &picks, &vec![20; 19]).is_none());
    assert!(build_level(3, 2, &picks, &vec![0; 18]).is_none());
    // A start column off the grid, and picks that stop short of the top.
    assert!(build_level(3, 5, &picks, &vec![0; 19]).is_none());
    assert!(build_level(3, 2, &vec![0, 0], &vec![0; 19]).is_none());
}
