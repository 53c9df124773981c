//! Vingt-et-Un — twenty-one, the ancestor of blackjack: the scoring core.
//! Each round the player lays a stake, draws toward twenty-one or stands; the
//! dealer plays a fixed hand, drawing until seventeen; the closer hand to
//! twenty-one takes the stake, and a two-card twenty-one (a natural) pays a
//! half again.

use vstd::prelude::*;

use crate::minigames::cards::{session_over, session_over_spec, RANKS};

verus! {

/// The value the dealer draws up to: it stands on all totals of seventeen or
/// more.
pub const DEALER_STANDS: u8 = 17;

/// Default rounds dealt before the session ends on the allowance.
pub const MAX_ROUNDS: usize = 12;

/// On-screen suit symbols, indexed by [`suit_of`] (0..4).
pub const SUIT_SYMBOLS: [&'static str; 4] = ["♠", "♥", "♦", "♣"];

/// The rank (0..13) of a card index (0..52): ace=0, two=1, …, king=12.
pub fn rank_of(card: u8) -> (r: u8)
    ensures
        r == card % 13,
        r < 13,
{
    card % (RANKS as u8)
}

/// The suit (0..4) of a card index (0..52), used only for display variety.
pub fn suit_of(card: u8) -> (s: u8)
    ensures
        s == card / 13,
{
    card / (RANKS as u8)
}

/// A card index is its suit's block of thirteen plus its rank: the two
/// decompose it exactly.
pub proof fn law_rank_and_suit_decompose_the_index(card: u8)
    ensures
        (card / 13) * 13 + card % 13 == card,
{
}

/// What a card counts before any ace is demoted: an ace eleven, two through
/// nine their pips, ten and the faces ten.
pub open spec fn card_points(c: u8) -> nat {
    let r = c % 13;
    if r == 0 {
        11
    } else if r <= 8 {
        (r + 1) as nat
    } else {
        10
    }
}

/// The points of a hand with every ace counted eleven.
pub open spec fn raw_points(s: Seq<u8>) -> nat
    decreases s.len(),
{
    if s.len() == 0 {
        0
    } else {
        raw_points(s.drop_last()) + card_points(s.last())
    }
}

/// How many aces a hand holds.
pub open spec fn ace_count(s: Seq<u8>) -> nat
    decreases s.len(),
{
    if s.len() == 0 {
        0
    } else {
        ace_count(s.drop_last()) + if s.last() % 13 == 0 {
            1nat
        } else {
            0nat
        }
    }
}

/// Demote aces from eleven to one, one at a time, while the total is over
/// twenty-one and an ace is left to demote. Gives the total and the aces still
/// counting eleven.
pub open spec fn demote(total: nat, aces: nat) -> (nat, nat)
    decreases aces,
{
    if total > 21 && aces > 0 {
        demote((total - 10) as nat, (aces - 1) as nat)
    } else {
        (total, aces)
    }
}

/// The blackjack value of a hand — its total (as the `u8` it is reported in)
/// and whether it is soft (an ace still counts eleven and the hand is alive).
pub open spec fn hand_spec(s: Seq<u8>) -> (u8, bool) {
    let (t, a) = demote(raw_points(s), ace_count(s));
    (t as u8, a > 0 && t <= 21)
}

proof fn lemma_raw_points_prefix(s: Seq<u8>, i: int)
    requires
        0 <= i <= s.len(),
    ensures
        raw_points(s.take(i)) <= raw_points(s),
    decreases s.len() - i,
{
    if i < s.len() {
        lemma_raw_points_prefix(s, i + 1);
        assert(s.take(i + 1).drop_last() =~= s.take(i));
    } else {
        assert(s.take(i) =~= s);
    }
}

proof fn lemma_raw_covers_aces(s: Seq<u8>)
    ensures
        raw_points(s) >= 11 * ace_count(s),
    decreases s.len(),
{
    if s.len() > 0 {
        lemma_raw_covers_aces(s.drop_last());
    }
}

/// The blackjack value of a hand and whether it is **soft** (an ace still
/// counts as eleven). Aces start at eleven and drop to one as needed to avoid
/// busting; ten, jack, queen and king all count ten.
pub fn hand_value(cards: &[u8]) -> (r: (u8, bool))
    requires
        raw_points(cards@) <= u32::MAX,
    ensures
        r == hand_spec(cards@),
{
    let mut total: u32 = 0;
    let mut aces: u32 = 0;
    let mut i: usize = 0;
    while i < cards.len()
        invariant
            i <= cards@.len(),
            raw_points(cards@) <= u32::MAX,
            total == raw_points(cards@.take(i as int)),
            aces == ace_count(cards@.take(i as int)),
        decreases cards@.len() - i,
    {
        proof {
            assert(cards@.take(i + 1).drop_last() =~= cards@.take(i as int));
            lemma_raw_points_prefix(cards@, i + 1);
            lemma_raw_covers_aces(cards@.take(i as int));
        }
        let r = rank_of(cards[i]);
        if r == 0 {
            aces += 1;
            total += 11;
        } else if r <= 8 {
            total += (r + 1) as u32;
        } else {
            total += 10;
        }
        i += 1;
    }
    proof {
        assert(cards@.take(cards@.len() as int) =~= cards@);
        lemma_raw_covers_aces(cards@);
    }
    while total > 21 && aces > 0
        invariant
            demote(total as nat, aces as nat) == demote(raw_points(cards@), ace_count(cards@)),
            total >= 11 * aces,
        decreases aces,
    {
        total -= 10;
        aces -= 1;
    }
    let soft = aces > 0 && total <= 21;
    (total as u8, soft)
}

/// Whether a hand is over twenty-one.
pub fn is_bust(cards: &[u8]) -> (b: bool)
    requires
        raw_points(cards@) <= u32::MAX,
    ensures
        b == (hand_spec(cards@).0 > 21),
{
    hand_value(cards).0 > 21
}

/// Whether a hand is a natural (exactly two cards totalling twenty-one).
pub open spec fn natural_spec(s: Seq<u8>) -> bool {
    s.len() == 2 && hand_spec(s).0 == 21
}

/// Whether a hand is a **vingt-et-un**: exactly two cards totalling twenty-one.
pub fn is_natural(cards: &[u8]) -> (b: bool)
    requires
        raw_points(cards@) <= u32::MAX,
    ensures
        b == natural_spec(cards@),
{
    cards.len() == 2 && hand_value(cards).0 == 21
}

/// The dealer's fixed rule: draw on any total below [`DEALER_STANDS`], stand on
/// seventeen or more (including soft seventeen).
pub fn dealer_should_hit(total: u8) -> (b: bool)
    ensures
        b == (total < 17),
{
    total < DEALER_STANDS
}

/// The dealer's final hand: from `hand`, draw the next card of `pile` while
/// the total is under seventeen and the pile lasts.
pub open spec fn dealer_final(hand: Seq<u8>, pile: Seq<u8>) -> Seq<u8>
    decreases pile.len(),
{
    if hand_spec(hand).0 < 17 && pile.len() > 0 {
        dealer_final(hand.push(pile[0]), pile.drop_first())
    } else {
        hand
    }
}

proof fn lemma_raw_points_append(a: Seq<u8>, b: Seq<u8>)
    ensures
        raw_points(a + b) == raw_points(a) + raw_points(b),
    decreases b.len(),
{
    if b.len() > 0 {
        lemma_raw_points_append(a, b.drop_last());
        assert((a + b).drop_last() =~= a + b.drop_last());
    } else {
        assert(a + b =~= a);
    }
}

/// Play the dealer's hand out from its two `initial` cards, drawing from
/// `draw_pile` (in deal order) until it stands or the pile runs dry.
pub fn play_dealer(initial: &[u8], draw_pile: &[u8]) -> (hand: Vec<u8>)
    requires
        raw_points(initial@ + draw_pile@) <= u32::MAX,
    ensures
        hand@ == dealer_final(initial@, draw_pile@),
{
    let mut hand = vstd::slice::slice_to_vec(initial);
    let mut i: usize = 0;
    proof {
        assert(draw_pile@.skip(0) =~= draw_pile@);
        assert(draw_pile@.take(0) =~= Seq::<u8>::empty());
        assert(initial@ + draw_pile@.take(0) =~= initial@);
    }
    loop
        invariant
            i <= draw_pile@.len(),
            hand@ == initial@ + draw_pile@.take(i as int),
            raw_points(initial@ + draw_pile@) <= u32::MAX,
            dealer_final(initial@, draw_pile@) == dealer_final(hand@, draw_pile@.skip(i as int)),
        ensures
            hand@ == dealer_final(initial@, draw_pile@),
        decreases draw_pile@.len() - i,
    {
        proof {
            lemma_raw_points_append(initial@ + draw_pile@.take(i as int), draw_pile@.skip(i as int));
            assert(initial@ + draw_pile@.take(i as int) + draw_pile@.skip(i as int) =~= initial@
                + draw_pile@);
        }
        let (total, _) = hand_value(hand.as_slice());
        if !(dealer_should_hit(total) && i < draw_pile.len()) {
            proof {
                assert(draw_pile@.skip(i as int).len() == draw_pile@.len() - i);
            }
            break;
        }
        proof {
            assert(draw_pile@.skip(i as int)[0] == draw_pile@[i as int]);
            assert(draw_pile@.skip(i as int).drop_first() =~= draw_pile@.skip(i + 1));
            assert(draw_pile@.take(i + 1) =~= draw_pile@.take(i as int).push(draw_pile@[i as int]));
        }
        hand.push(draw_pile[i]);
        i += 1;
    }
    hand
}

/// The dealer's hand always finishes standing (seventeen or more) or with the
/// whole pile drawn, and it is the two starting cards followed by the top of
/// the pile, in deal order.
pub proof fn law_dealer_stands_or_draws_the_pile_dry(hand: Seq<u8>, pile: Seq<u8>)
    ensures
        hand_spec(dealer_final(hand, pile)).0 >= 17 || dealer_final(hand, pile).len() == hand.len()
            + pile.len(),
        hand.len() <= dealer_final(hand, pile).len() <= hand.len() + pile.len(),
        dealer_final(hand, pile) == hand + pile.take(dealer_final(hand, pile).len() - hand.len()),
    decreases pile.len(),
{
    if hand_spec(hand).0 < 17 && pile.len() > 0 {
        law_dealer_stands_or_draws_the_pile_dry(hand.push(pile[0]), pile.drop_first());
        let f = dealer_final(hand, pile);
        let k = f.len() - hand.len() - 1;
        assert(hand.push(pile[0]) + pile.drop_first().take(k) =~= hand + pile.take(k + 1));
    } else {
        assert(hand + pile.take(0) =~= hand);
    }
}

/// Rust's integer halving of `x`: the quotient rounded toward zero.
pub open spec fn half_toward_zero(x: int) -> int {
    if x >= 0 {
        x / 2
    } else {
        -((-x) / 2)
    }
}

/// How a round settles between the player's and the dealer's final hands.
pub enum Settlement {
    /// The player loses the stake.
    Lose,
    /// The stake goes back.
    Push,
    /// A natural pays a half again.
    Natural,
    /// The player wins the stake.
    Win,
}

/// The settlement of a round. A player bust always loses (even if the dealer
/// also busts — the player acted first). Naturals beat any drawn twenty-one;
/// two naturals push. Otherwise a dealer bust pays, and live hands compare by
/// total: higher wins, equal pushes.
pub open spec fn settlement(player: Seq<u8>, dealer: Seq<u8>) -> Settlement {
    let p = hand_spec(player).0;
    let d = hand_spec(dealer).0;
    if p > 21 {
        Settlement::Lose
    } else if natural_spec(player) && natural_spec(dealer) {
        Settlement::Push
    } else if natural_spec(player) {
        Settlement::Natural
    } else if natural_spec(dealer) {
        Settlement::Lose
    } else if d > 21 {
        Settlement::Win
    } else if p > d {
        Settlement::Win
    } else if p < d {
        Settlement::Lose
    } else {
        Settlement::Push
    }
}

/// The net stake change a settlement makes on a `bet`.
pub open spec fn payout(s: Settlement, bet: int) -> int {
    match s {
        Settlement::Lose => -bet,
        Settlement::Push => 0,
        Settlement::Natural => half_toward_zero(bet * 3),
        Settlement::Win => bet,
    }
}

/// Net stake change from settling a `bet` of the player's final hand against
/// the dealer's. Positive means the player gains. A natural pays three-to-two,
/// rounded toward zero.
pub fn settle(bet: i64, player: &[u8], dealer: &[u8]) -> (r: i64)
    requires
        raw_points(player@) <= u32::MAX,
        raw_points(dealer@) <= u32::MAX,
        settlement(player@, dealer@) is Lose ==> bet > i64::MIN,
        settlement(player@, dealer@) is Natural ==> i64::MIN <= bet * 3 <= i64::MAX,
    ensures
        r == payout(settlement(player@, dealer@), bet as int),
{
    let p = hand_value(player).0;
    let d = hand_value(dealer).0;
    let p_nat = is_natural(player);
    let d_nat = is_natural(dealer);
    if p > 21 {
        -bet
    } else if p_nat && d_nat {
        0
    } else if p_nat {
        let t = bet * 3;
        t / 2
    } else if d_nat {
        -bet
    } else if d > 21 {
        bet
    } else if p > d {
        bet
    } else if p < d {
        -bet
    } else {
        0
    }
}

/// A hand busts only when counting every ace as one still goes over
/// twenty-one: aces are demoted exactly as far as needed to save the hand.
pub proof fn law_aces_save_what_they_can(s: Seq<u8>)
    ensures
        (demote(raw_points(s), ace_count(s)).0 <= 21) == (raw_points(s) <= 21 + 10 * ace_count(s)),
{
    lemma_raw_covers_aces(s);
    lemma_demote(raw_points(s), ace_count(s));
}

proof fn lemma_demote(t: nat, a: nat)
    requires
        t >= 11 * a,
    ensures
        (demote(t, a).0 <= 21) == (t <= 21 + 10 * a),
    decreases a,
{
    if t > 21 && a > 0 {
        lemma_demote((t - 10) as nat, (a - 1) as nat);
    }
}

proof fn lemma_raw_points_bound(s: Seq<u8>)
    ensures
        raw_points(s) <= 11 * s.len(),
    decreases s.len(),
{
    if s.len() > 0 {
        lemma_raw_points_bound(s.drop_last());
    }
}

/// The outcome of a vingt-un session, handed to the host.
#[derive(Debug, Clone, Copy, PartialEq, Eq, Structural)]
pub struct VingtUnResult {
    /// Whether the player reached the target stake.
    pub won: bool,
    /// The stake left when the session ended (busted purse = 0).
    pub final_stake: i64,
    /// How many rounds were dealt before the session ended.
    pub rounds_played: usize,
}

/// A vingt-un table mid-session: the purse, this round's wager, the hands,
/// and the round's shuffled deck (supplied by the host, one per round). Each
/// method is one thing the player can do at the table.
pub struct VingtUnTable {
    /// This round's shuffled deck of card indices.
    pub deck: Vec<u8>,
    /// Stake to reach to win the session.
    pub target: i64,
    /// Rounds the session allows (at least one).
    pub rounds_total: usize,
    /// Chips added per tap when laying a stake (at least one).
    pub min_bet: i64,
    /// The player's purse.
    pub stake: i64,
    /// The round being played (0-based).
    pub round_idx: usize,
    /// This round's wager, laid before the deal.
    pub bet: i64,
    /// The player's cards this round.
    pub player: Vec<u8>,
    /// The dealer's two cards this round.
    pub dealer: Vec<u8>,
    /// The next card of the deck to deal.
    pub cursor: usize,
    /// Once settled, the dealer's final hand and the stake change.
    pub revealed: Option<(Vec<u8>, i64)>,
}

/// Whether the stakes on the table are small enough for any settlement to
/// fit an `i64`: a natural's three-to-two and the purse after it.
pub open spec fn stakes_fit(stake: i64, bet: i64) -> bool {
    &&& bet * 3 <= i64::MAX
    &&& stake + bet * 3 / 2 <= i64::MAX
}

impl VingtUnTable {
    /// The table's invariant: a full deck, a round within the allowance, a
    /// wager the purse covers until the hand settles, and hands dealt from
    /// the top of the deck in order.
    pub open spec fn wf(self) -> bool {
        &&& self.deck@.len() == 52
        &&& 1 <= self.rounds_total
        &&& self.round_idx < self.rounds_total
        &&& self.min_bet >= 1
        &&& self.bet >= 0
        &&& self.revealed is None ==> (self.bet == 0 || self.bet <= self.stake)
        &&& self.cursor <= 52
        &&& self.player@.len() == 0 ==> self.dealer@.len() == 0 && self.cursor == 0 && self.revealed is None
        &&& self.player@.len() > 0 ==> self.dealer@.len() == 2 && self.cursor >= 4 && self.player@.len() + 2
            == self.cursor
        &&& self.revealed matches Some((d, _)) ==> d@.len() <= 54
    }

    /// Whether a hand is in play (dealt this round).
    pub open spec fn in_play(self) -> bool {
        self.player@.len() > 0
    }

    /// The dealer's final hand if the hand settled now: the two dealt cards
    /// when the player has bust or holds a natural, else played out from the
    /// rest of the deck.
    pub open spec fn final_dealer(self) -> Seq<u8> {
        if hand_spec(self.player@).0 > 21 || natural_spec(self.player@) {
            self.dealer@
        } else {
            dealer_final(self.dealer@, self.deck@.skip(self.cursor as int))
        }
    }

    /// Sit down with a purse and the first round's deck. The allowance is at
    /// least one round; the chip per tap is clamped to 1..=max(purse, 1).
    pub fn new(deck: Vec<u8>, starting_stake: i64, target: i64, max_rounds: usize, min_bet: i64) -> (t: VingtUnTable)
        requires
            deck@.len() == 52,
        ensures
            t.wf(),
            t.deck@ == deck@,
            t.stake == starting_stake,
            t.target == target,
            t.rounds_total == if max_rounds < 1 { 1 } else { max_rounds },
            t.min_bet == (if min_bet < 1 { 1 } else if min_bet > (if starting_stake > 1 { starting_stake } else { 1 }) {
                if starting_stake > 1 { starting_stake } else { 1 }
            } else {
                min_bet
            }),
            t.round_idx == 0,
            t.bet == 0,
            !t.in_play(),
            t.revealed is None,
    {
        let cap = if starting_stake > 1 {
            starting_stake
        } else {
            1
        };
        let min_bet = if min_bet < 1 {
            1
        } else if min_bet > cap {
            cap
        } else {
            min_bet
        };
        VingtUnTable {
            deck,
            target,
            rounds_total: if max_rounds < 1 {
                1
            } else {
                max_rounds
            },
            min_bet,
            stake: starting_stake,
            round_idx: 0,
            bet: 0,
            player: Vec::new(),
            dealer: Vec::new(),
            cursor: 0,
            revealed: None,
        }
    }

    /// Lay `min_bet` more on this round's wager, if the purse covers it
    /// (betting only, before the deal).
    pub fn stake_up(&mut self)
        requires
            old(self).wf(),
        ensures
            final(self).wf(),
            !old(self).in_play() && old(self).bet + old(self).min_bet <= old(self).stake ==> *final(self) == (
            VingtUnTable { bet: (old(self).bet + old(self).min_bet) as i64, ..*old(self) }),
            !(!old(self).in_play() && old(self).bet + old(self).min_bet <= old(self).stake) ==> *final(self)
                == *old(self),
    {
        if self.player.len() > 0 {
            return;
        }
        if (self.bet as i128) + (self.min_bet as i128) <= (self.stake as i128) {
            self.bet = self.bet + self.min_bet;
        }
    }

    /// Take the wager back (betting only, before the deal).
    pub fn clear_bet(&mut self)
        requires
            old(self).wf(),
        ensures
            final(self).wf(),
            !old(self).in_play() ==> *final(self) == (VingtUnTable { bet: 0, ..*old(self) }),
            old(self).in_play() ==> *final(self) == *old(self),
    {
        if self.player.len() > 0 {
            return;
        }
        self.bet = 0;
    }

    fn resolve(&mut self)
        requires
            old(self).wf(),
            old(self).in_play(),
            old(self).revealed is None,
            stakes_fit(old(self).stake, old(self).bet),
        ensures
            final(self).wf(),
            *final(self) == (VingtUnTable {
                stake: (old(self).stake + payout(settlement(old(self).player@, old(self).final_dealer()), old(self).bet as int)) as i64,
                revealed: final(self).revealed,
                ..*old(self)
            }),
            final(self).revealed matches Some((d, delta)) && d@ == old(self).final_dealer() && delta == payout(
                settlement(old(self).player@, old(self).final_dealer()),
                old(self).bet as int,
            ),
    {
        proof {
            lemma_raw_points_bound(self.player@);
            lemma_raw_points_bound(self.dealer@);
            lemma_raw_points_bound(self.dealer@ + self.deck@.skip(self.cursor as int));
        }
        let dl = if is_bust(self.player.as_slice()) || is_natural(self.player.as_slice()) {
            vstd::slice::slice_to_vec(self.dealer.as_slice())
        } else {
            let pile = slice_from(self.deck.as_slice(), self.cursor);
            play_dealer(self.dealer.as_slice(), pile.as_slice())
        };
        proof {
            lemma_raw_points_bound(dl@);
            law_dealer_stands_or_draws_the_pile_dry(self.dealer@, self.deck@.skip(self.cursor as int));
        }
        let delta = settle(self.bet, self.player.as_slice(), dl.as_slice());
        self.stake = self.stake + delta;
        self.revealed = Some((dl, delta));
    }

    /// Deal the round: player, dealer, player, dealer off the top. A natural on
    /// either side settles the hand on the spot. Only with a wager laid that
    /// the purse covers, and nothing yet in play.
    pub fn deal(&mut self)
        requires
            old(self).wf(),
            stakes_fit(old(self).stake, old(self).bet),
        ensures
            final(self).wf(),
            final(self).target == old(self).target,
            final(self).rounds_total == old(self).rounds_total,
            final(self).min_bet == old(self).min_bet,
            final(self).deck@ == old(self).deck@,
            final(self).bet == old(self).bet,
            final(self).round_idx == old(self).round_idx,
            old(self).in_play() || old(self).bet == 0 || old(self).bet > old(self).stake ==> *final(self) == *old(self),
            !(old(self).in_play() || old(self).bet == 0 || old(self).bet > old(self).stake) ==> {
                &&& final(self).player@ == seq![old(self).deck@[0], old(self).deck@[2]]
                &&& final(self).dealer@ == seq![old(self).deck@[1], old(self).deck@[3]]
                &&& final(self).cursor == 4
                &&& final(self).bet == old(self).bet
                &&& final(self).round_idx == old(self).round_idx
                &&& if natural_spec(final(self).player@) || natural_spec(final(self).dealer@) {
                    let delta = payout(settlement(final(self).player@, final(self).dealer@), old(self).bet as int);
                    &&& final(self).stake == old(self).stake + delta
                    &&& final(self).revealed matches Some((d, x)) && d@ == final(self).dealer@ && x == delta
                } else {
                    &&& final(self).stake == old(self).stake
                    &&& final(self).revealed is None
                }
            },
    {
        if self.player.len() > 0 || self.bet == 0 || self.bet > self.stake {
            return;
        }
        let mut p: Vec<u8> = Vec::new();
        p.push(self.deck[0]);
        p.push(self.deck[2]);
        let mut d: Vec<u8> = Vec::new();
        d.push(self.deck[1]);
        d.push(self.deck[3]);
        self.player = p;
        self.dealer = d;
        self.cursor = 4;
        proof {
            lemma_raw_points_bound(self.player@);
            lemma_raw_points_bound(self.dealer@);
        }
        if is_natural(self.player.as_slice()) || is_natural(self.dealer.as_slice()) {
            proof {
                assert(self.final_dealer() == self.dealer@);
            }
            self.resolve();
        }
    }

    /// Draw the next card. Going over twenty-one settles the hand on the spot.
    /// A no-op unless a hand is in play and unsettled, or once the deck runs
    /// dry.
    pub fn draw(&mut self)
        requires
            old(self).wf(),
            stakes_fit(old(self).stake, old(self).bet),
        ensures
            final(self).wf(),
            final(self).target == old(self).target,
            final(self).rounds_total == old(self).rounds_total,
            final(self).min_bet == old(self).min_bet,
            final(self).deck@ == old(self).deck@,
            final(self).bet == old(self).bet,
            final(self).round_idx == old(self).round_idx,
            final(self).dealer@ == old(self).dealer@,
            !old(self).in_play() || old(self).revealed is Some || old(self).cursor >= 52 ==> *final(self) == *old(self),
            !(!old(self).in_play() || old(self).revealed is Some || old(self).cursor >= 52) ==> {
                &&& final(self).player@ == old(self).player@.push(old(self).deck@[old(self).cursor as int])
                &&& final(self).cursor == old(self).cursor + 1
                &&& if hand_spec(final(self).player@).0 > 21 {
                    &&& final(self).stake == old(self).stake - old(self).bet
                    &&& final(self).revealed matches Some((d, x)) && d@ == old(self).dealer@ && x == -old(self).bet
                } else {
                    &&& final(self).stake == old(self).stake
                    &&& final(self).revealed is None
                }
            },
    {
        if self.player.len() == 0 || self.revealed.is_some() || self.cursor >= self.deck.len() {
            return;
        }
        let c = self.deck[self.cursor];
        self.player.push(c);
        self.cursor = self.cursor + 1;
        proof {
            lemma_raw_points_bound(self.player@);
        }
        if is_bust(self.player.as_slice()) {
            self.resolve();
        }
    }

    /// Stand: the dealer plays out and the hand settles. A no-op unless a hand
    /// is in play and unsettled.
    pub fn stand(&mut self)
        requires
            old(self).wf(),
            stakes_fit(old(self).stake, old(self).bet),
        ensures
            final(self).wf(),
            final(self).target == old(self).target,
            final(self).rounds_total == old(self).rounds_total,
            final(self).min_bet == old(self).min_bet,
            final(self).deck@ == old(self).deck@,
            final(self).bet == old(self).bet,
            final(self).round_idx == old(self).round_idx,
            final(self).dealer@ == old(self).dealer@,
            final(self).cursor == old(self).cursor,
            !old(self).in_play() || old(self).revealed is Some ==> *final(self) == *old(self),
            old(self).in_play() && old(self).revealed is None ==> {
                &&& final(self).stake == old(self).stake + payout(settlement(old(self).player@, old(self).final_dealer()), old(self).bet as int)
                &&& final(self).revealed matches Some((d, x)) && d@ == old(self).final_dealer() && x == payout(
                    settlement(old(self).player@, old(self).final_dealer()),
                    old(self).bet as int,
                )
                &&& final(self).player@ == old(self).player@
            },
    {
        if self.player.len() == 0 || self.revealed.is_some() {
            return;
        }
        self.resolve();
    }

    /// After a settled hand: end the session if the purse is busted, the
    /// target reached, or the rounds spent (handing back the result), else
    /// start the next round on `next_deck`. A no-op before the hand settles.
    pub fn next(&mut self, next_deck: Vec<u8>) -> (r: Option<VingtUnResult>)
        requires
            old(self).wf(),
            next_deck@.len() == 52,
        ensures
            final(self).wf(),
            final(self).target == old(self).target,
            final(self).rounds_total == old(self).rounds_total,
            final(self).min_bet == old(self).min_bet,
            old(self).revealed is None ==> r is None && *final(self) == *old(self),
            old(self).revealed is Some && session_over_spec(old(self).stake, old(self).target, old(self).round_idx + 1, old(self).rounds_total as int) ==> {
                &&& r == Some(VingtUnResult {
                    won: old(self).stake > 0 && old(self).stake >= old(self).target,
                    final_stake: if old(self).stake > 0 { old(self).stake } else { 0 },
                    rounds_played: (old(self).round_idx + 1) as usize,
                })
                &&& *final(self) == *old(self)
            },
            old(self).revealed is Some && !session_over_spec(old(self).stake, old(self).target, old(self).round_idx + 1, old(self).rounds_total as int) ==> {
                &&& r is None
                &&& final(self).round_idx == old(self).round_idx + 1
                &&& final(self).bet == 0
                &&& !final(self).in_play()
                &&& final(self).revealed is None
                &&& final(self).deck@ == next_deck@
                &&& final(self).stake == old(self).stake
            },
    {
        if self.revealed.is_none() {
            return None;
        }
        let played = self.round_idx + 1;
        if session_over(self.stake, self.target, played, self.rounds_total) {
            let final_stake = if self.stake > 0 {
                self.stake
            } else {
                0
            };
            return Some(VingtUnResult { won: self.stake > 0 && self.stake >= self.target, final_stake, rounds_played: played });
        }
        self.round_idx = played;
        self.bet = 0;
        self.player = Vec::new();
        self.dealer = Vec::new();
        self.cursor = 0;
        self.revealed = None;
        self.deck = next_deck;
        None
    }
}

/// The cards of `s` from `start` on (none past the end).
fn slice_from(s: &[u8], start: usize) -> (r: Vec<u8>)
    ensures
        r@ == s@.skip(if start <= s@.len() { start as int } else { s@.len() as int }),
{
    let n = s.len();
    let mut i: usize = if start <= n {
        start
    } else {
        n
    };
    let ghost from = i;
    let mut r: Vec<u8> = Vec::new();
    while i < n
        invariant
            from <= i <= n,
            n == s@.len(),
            r@ == s@.subrange(from as int, i as int),
        decreases n - i,
    {
        r.push(s[i]);
        proof {
            assert(s@.subrange(from as int, i + 1) =~= s@.subrange(from as int, i as int).push(s@[i as int]));
        }
        i += 1;
    }
    proof {
        assert(s@.subrange(from as int, n as int) =~= s@.skip(from as int));
    }
    r
}

/// You cannot lose more than you staked: settling a hand changes the purse
/// by at least minus the wager, so a purse that covers its wager never goes
/// below zero.
pub proof fn law_purse_never_goes_negative(t: VingtUnTable)
    requires
        t.wf(),
        t.in_play(),
        t.revealed is None,
        t.stake >= 0,
    ensures
        t.stake + payout(settlement(t.player@, t.final_dealer()), t.bet as int) >= 0,
{
}

/// Each card alone is worth its face: an ace eleven (soft), a two to a nine
/// its number (rank plus one), and a ten, jack, queen or king exactly ten.
pub proof fn law_cards_count_their_face(c: u8)
    ensures
        c % 13 == 0 ==> hand_spec(seq![c]) == (11u8, true),
        1 <= c % 13 <= 8 ==> hand_spec(seq![c]) == (((c % 13) + 1) as u8, false),
        9 <= c % 13 ==> hand_spec(seq![c]) == (10u8, false),
{
    let s = seq![c];
    assert(s.drop_last() =~= Seq::<u8>::empty());
    assert(raw_points(Seq::<u8>::empty()) == 0);
    assert(ace_count(Seq::<u8>::empty()) == 0);
    assert(s.last() == c);
    assert(raw_points(s) == card_points(c));
    assert(ace_count(s) == if c % 13 == 0 { 1nat } else { 0nat });
}

/// An ace with a ten, jack, queen or king, in either order, is twenty-one,
/// soft, and a natural.
pub proof fn law_an_ace_and_a_ten_card_are_a_natural(ace: u8, ten: u8)
    requires
        ace % 13 == 0,
        9 <= ten % 13,
    ensures
        hand_spec(seq![ace, ten]) == (21u8, true),
        hand_spec(seq![ten, ace]) == (21u8, true),
        natural_spec(seq![ace, ten]),
        natural_spec(seq![ten, ace]),
{
    let a = seq![ace, ten];
    let b = seq![ten, ace];
    assert(a.drop_last() =~= seq![ace]);
    assert(b.drop_last() =~= seq![ten]);
    assert(seq![ace].drop_last() =~= Seq::<u8>::empty());
    assert(seq![ten].drop_last() =~= Seq::<u8>::empty());
    assert(raw_points(Seq::<u8>::empty()) == 0);
    assert(ace_count(Seq::<u8>::empty()) == 0);
    assert(seq![ace].last() == ace && seq![ten].last() == ten);
    assert(a.last() == ten && b.last() == ace);
    assert(raw_points(seq![ace]) == 11);
    assert(raw_points(seq![ten]) == 10);
    assert(ace_count(seq![ace]) == 1);
    assert(ace_count(seq![ten]) == 0);
    assert(raw_points(a) == 21);
    assert(raw_points(b) == 21);
    assert(ace_count(a) == 1);
    assert(ace_count(b) == 1);
}

} // verus!
