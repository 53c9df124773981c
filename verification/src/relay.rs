//! The shared-economy server's decisions, apart from its sockets and clock:
//! which trade orders it accepts, which gossip it fans out when a tick produces
//! more than it ships, and how it names and equips its bot traders.

use vstd::prelude::*;

use crate::gossip::{GossipEvent, GossipKind};
use crate::policy::PolicyKind;
use crate::text::{decimal, decimal_chars, push_char, push_chars};

verus! {

/// Cap on gossip events fanned out per tick, so a busy world cannot flood
/// clients.
pub const MAX_GOSSIP_PER_TICK: usize = 6;

/// Upper bound on a single human trade order: generous for honest play, while
/// stopping one client from slamming a price with an absurd quantity.
pub const MAX_ORDER_QTY: i64 = 1000;

/// Whether a human trade order names a real town and good and a quantity in
/// `1..=MAX_ORDER_QTY`.
pub open spec fn order_ok(town: usize, good: usize, qty: i64, towns: usize, goods: usize) -> bool {
    town < towns && good < goods && 0 < qty <= MAX_ORDER_QTY
}

/// Whether the server takes a human trade order; anything else is answered
/// with an error and leaves the market untouched.
pub fn order_is_valid(town: usize, good: usize, qty: i64, towns: usize, goods: usize) -> (ok: bool)
    ensures
        ok == order_ok(town, good, qty, towns, goods),
{
    !(town >= towns || good >= goods || qty <= 0 || qty > MAX_ORDER_QTY)
}

/// Whether a piece of gossip is a routine trade (as opposed to a milestone).
pub open spec fn is_trade(e: GossipEvent) -> bool {
    e.kind is Trade
}

/// The test for a milestone.
pub open spec fn milestone_pred() -> spec_fn(GossipEvent) -> bool {
    |e: GossipEvent| !is_trade(e)
}

/// The milestones of a batch, in order.
pub open spec fn milestones(s: Seq<GossipEvent>) -> Seq<GossipEvent> {
    s.filter(milestone_pred())
}

/// The test for a routine trade.
pub open spec fn trade_pred() -> spec_fn(GossipEvent) -> bool {
    |e: GossipEvent| is_trade(e)
}

/// The routine trades of a batch, in order.
pub open spec fn trades(s: Seq<GossipEvent>) -> Seq<GossipEvent> {
    s.filter(trade_pred())
}

proof fn lemma_filter_step(s: Seq<GossipEvent>, i: int, p: spec_fn(GossipEvent) -> bool)
    requires
        0 <= i < s.len(),
    ensures
        s.take(i + 1).filter(p) == if p(s[i]) {
            s.take(i).filter(p).push(s[i])
        } else {
            s.take(i).filter(p)
        },
{
    reveal(Seq::filter);
    assert(s.take(i + 1).drop_last() =~= s.take(i));
    assert(s.take(i + 1).last() == s[i]);
}

/// What a tick ships of its gossip: the milestones first and the trades after,
/// each in the order they happened, cut to `max`.
pub open spec fn capped(s: Seq<GossipEvent>, max: nat) -> Seq<GossipEvent> {
    let all = milestones(s) + trades(s);
    if all.len() <= max {
        all
    } else {
        all.take(max as int)
    }
}

/// Cap a tick's gossip at `max` events, keeping high-signal milestones (won,
/// lost, reached Natchez, robbed, …) ahead of routine trades so a busy tick
/// cannot truncate one away.
pub fn cap_gossip(events: Vec<GossipEvent>, max: usize) -> (r: Vec<GossipEvent>)
    ensures
        r@ == capped(events@, max as nat),
{
    let ghost s = events@;
    let mut firsts: Vec<GossipEvent> = Vec::new();
    let mut lasts: Vec<GossipEvent> = Vec::new();
    let mut rest = events;
    let n = rest.len();
    // Reverse the batch so that popping visits it front to back.
    let mut rev: Vec<GossipEvent> = Vec::new();
    while rest.len() > 0
        invariant
            s.len() == n,
            rest@ == s.take(rest@.len() as int),
            rest@.len() + rev@.len() == n,
            forall|j: int| 0 <= j < rev@.len() ==> #[trigger] rev@[j] == s[n - 1 - j],
        decreases rest@.len(),
    {
        let e = rest.pop().unwrap();
        proof {
            assert(rest@ =~= s.take(rest@.len() as int));
            assert(e == s[rest@.len() as int]);
        }
        rev.push(e);
    }
    proof {
        assert(s.take(0) =~= Seq::<GossipEvent>::empty());
    }
    // Sort each event into its class, front to back.
    let mut i: usize = 0;
    while rev.len() > 0
        invariant
            i + rev@.len() == n,
            s.len() == n,
            forall|j: int| 0 <= j < rev@.len() ==> #[trigger] rev@[j] == s[n - 1 - j],
            firsts@ == milestones(s.take(i as int)),
            lasts@ == trades(s.take(i as int)),
        decreases rev@.len(),
    {
        let ghost before = rev@;
        let e = rev.pop().unwrap();
        proof {
            assert(before[before.len() - 1] == e);
            assert(e == s[i as int]);
            assert(s.take(i + 1).drop_last() =~= s.take(i as int));
            assert(s.take(i + 1).last() == e);
            assert forall|j: int| 0 <= j < rev@.len() implies #[trigger] rev@[j] == s[n - 1 - j] by {
                assert(rev@[j] == before[j]);
            }
            lemma_filter_step(s, i as int, milestone_pred());
            lemma_filter_step(s, i as int, trade_pred());
        }
        match &e.kind {
            GossipKind::Trade { .. } => lasts.push(e),
            _ => firsts.push(e),
        }
        i += 1;
    }
    proof {
        assert(s.take(n as int) =~= s);
    }
    firsts.append(&mut lasts);
    if firsts.len() > max {
        firsts.truncate(max);
    }
    firsts
}

/// Capping never drops a milestone to keep a routine trade: if any trade is
/// shipped, every milestone of the batch is shipped before it; and the batch
/// ships `max` events, or all of them if fewer.
pub proof fn law_milestones_outrank_trades(s: Seq<GossipEvent>, max: nat)
    ensures
        capped(s, max).len() == if milestones(s).len() + trades(s).len() <= max {
            milestones(s).len() + trades(s).len()
        } else {
            max
        },
        (exists|k: int| 0 <= k < capped(s, max).len() && is_trade(#[trigger] capped(s, max)[k])) ==> capped(
            s,
            max,
        ).take(milestones(s).len() as int) == milestones(s),
{
    let m = milestones(s);
    let t = trades(s);
    let c = capped(s, max);
    if exists|k: int| 0 <= k < c.len() && is_trade(#[trigger] c[k]) {
        let k = choose|k: int| 0 <= k < c.len() && is_trade(#[trigger] c[k]);
        if k < m.len() {
            assert(c[k] == m[k]);
            s.lemma_filter_pred(milestone_pred(), k);
        }
        assert(c.take(m.len() as int) =~= m);
    }
}

/// The strategy the server gives its `i`-th bot: greedy, cautious and random
/// in turn.
pub open spec fn bot_policy_spec(i: nat) -> PolicyKind {
    if i % 3 == 0 {
        PolicyKind::Greedy
    } else if i % 3 == 1 {
        PolicyKind::Cautious
    } else {
        PolicyKind::Random
    }
}

/// The strategy for the `i`-th bot, so the market sees both buy and sell
/// pressure plus a fuzzed tail.
pub fn bot_policy(i: usize) -> (k: PolicyKind)
    ensures
        k == bot_policy_spec(i as nat),
{
    if i % 3 == 0 {
        PolicyKind::Greedy
    } else if i % 3 == 1 {
        PolicyKind::Cautious
    } else {
        PolicyKind::Random
    }
}

/// The `i`-th bot's display name: `bot{i}` with no name pool; otherwise the
/// pool round-robin, with a numeral suffix (` 2`, ` 3`, …) once it wraps.
pub open spec fn bot_name_spec(names: Seq<Seq<char>>, i: nat) -> Seq<char> {
    if names.len() == 0 {
        "bot"@ + decimal(i)
    } else {
        let base = names[(i % names.len()) as int];
        let wrap = i / names.len();
        if wrap == 0 {
            base
        } else {
            base + seq![' '] + decimal(wrap + 1)
        }
    }
}

/// The display name for the `i`-th bot, from the scenario's name pool.
pub fn bot_name(names: &Vec<String>, i: usize) -> (r: String)
    requires
        !(names@.len() == 1 && i == usize::MAX),
    ensures
        r@ == bot_name_spec(names@.map_values(|n: String| n@), i as nat),
{
    let ghost pool = names@.map_values(|n: String| n@);
    if names.len() == 0 {
        let mut s = String::new();
        push_char(&mut s, 'b');
        push_char(&mut s, 'o');
        push_char(&mut s, 't');
        push_chars(&mut s, &decimal_chars(i as u64));
        proof {
            reveal_strlit("bot");
            assert(s@ =~= "bot"@ + decimal(i as nat));
        }
        return s;
    }
    let base = names[i % names.len()].clone();
    let wrap = i / names.len();
    proof {
        assert(pool[(i as nat % names@.len()) as int] == names@[(i as nat % names@.len()) as int]@);
    }
    if wrap == 0 {
        return base;
    }
    proof {
        let len = names@.len() as int;
        let ii = i as int;
        if len >= 2 {
            assert(ii / len <= ii / 2) by (nonlinear_arith)
                requires
                    len >= 2,
                    ii >= 0,
            ;
        }
    }
    let mut s = base;
    push_char(&mut s, ' ');
    push_chars(&mut s, &decimal_chars((wrap + 1) as u64));
    s
}

} // verus!
