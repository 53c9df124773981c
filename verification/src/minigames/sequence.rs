//! Sequence — a Simon-style order-memory test: how far the player's taps
//! follow the flashed order before the first slip.

use vstd::prelude::*;

verus! {

/// How many leading entries of `a` and `b` agree, stopping at the first
/// mismatch or the end of the shorter.
pub open spec fn common_prefix(a: Seq<usize>, b: Seq<usize>) -> nat
    decreases a.len(),
{
    if a.len() == 0 || b.len() == 0 || a[0] != b[0] {
        0
    } else {
        1 + common_prefix(a.drop_first(), b.drop_first())
    }
}

/// How many of `entered` match `target` from the start, stopping at the first
/// mismatch (or the end of the shorter list) — the player's correct prefix.
pub fn correct_prefix(target: &[usize], entered: &[usize]) -> (n: usize)
    ensures
        n == common_prefix(target@, entered@),
        n <= target@.len(),
        n <= entered@.len(),
        target@.take(n as int) == entered@.take(n as int),
{
    let mut i: usize = 0;
    proof {
        assert(target@.skip(0) =~= target@);
        assert(entered@.skip(0) =~= entered@);
    }
    while i < target.len() && i < entered.len() && target[i] == entered[i]
        invariant
            i <= target@.len(),
            i <= entered@.len(),
            common_prefix(target@, entered@) == i + common_prefix(target@.skip(i as int), entered@.skip(i as int)),
            target@.take(i as int) == entered@.take(i as int),
        decreases target@.len() - i,
    {
        proof {
            assert(target@.skip(i as int).drop_first() =~= target@.skip(i + 1));
            assert(entered@.skip(i as int).drop_first() =~= entered@.skip(i + 1));
            assert(target@.take(i + 1) =~= target@.take(i as int).push(target@[i as int]));
            assert(entered@.take(i + 1) =~= entered@.take(i as int).push(entered@[i as int]));
        }
        i += 1;
    }
    proof {
        if i < target@.len() && i < entered@.len() {
            assert(target@.skip(i as int)[0] != entered@.skip(i as int)[0]);
        }
    }
    i
}

/// The outcome of one round, handed to the host.
#[derive(Debug, Clone, Copy, PartialEq, Eq, Structural)]
pub struct SequenceResult {
    /// Steps entered correctly before the first slip (the whole length on a
    /// flawless run).
    pub correct_prefix: usize,
    /// Total steps in the sequence.
    pub length: usize,
    /// Whether the whole sequence was reproduced without a slip.
    pub perfect: bool,
}

/// A round in progress: the order to reproduce, the taps so far, and whether
/// the order is still flashing.
pub struct SequenceRound {
    /// The symbol order, as palette indices.
    pub seq: Vec<usize>,
    /// The player's taps so far.
    pub entered: Vec<usize>,
    /// Whether the order is still being shown (taps are ignored).
    pub flashing: bool,
    /// Whether the round has ended.
    pub done: bool,
}

impl SequenceRound {
    /// While the round runs, every tap so far was right: the taps are the
    /// start of the order (and short of its end).
    pub open spec fn wf(self) -> bool {
        !self.done ==> self.entered@ == self.seq@.take(self.entered@.len() as int) && (self.entered@.len()
            < self.seq@.len() || self.entered@.len() == 0)
    }

    /// A fresh round: the order starts flashing.
    pub fn new(seq: Vec<usize>) -> (r: SequenceRound)
        ensures
            r.wf(),
            r.seq@ == seq@,
            r.entered@.len() == 0,
            r.flashing,
            !r.done,
    {
        let r = SequenceRound { seq, entered: Vec::new(), flashing: true, done: false };
        assert(r.entered@ =~= r.seq@.take(0));
        r
    }

    /// The order has played: the palette opens for taps.
    pub fn end_flash(&mut self)
        requires
            old(self).wf(),
        ensures
            final(self).wf(),
            *final(self) == (SequenceRound { flashing: false, ..*old(self) }),
    {
        self.flashing = false;
    }

    /// Tap a symbol. Ignored while flashing or once over. A slip ends the round
    /// with the correct prefix so far; the last right tap ends it flawless.
    pub fn tap(&mut self, idx: usize) -> (r: Option<SequenceResult>)
        requires
            old(self).wf(),
        ensures
            final(self).wf(),
            final(self).seq@ == old(self).seq@,
            final(self).flashing == old(self).flashing,
            old(self).done || old(self).flashing ==> r is None && *final(self) == *old(self),
            !(old(self).done || old(self).flashing) ==> {
                let entered = old(self).entered@.push(idx);
                let cp = common_prefix(old(self).seq@, entered);
                let n = old(self).seq@.len();
                &&& final(self).entered@ == entered
                &&& r == if cp < entered.len() {
                    Some(SequenceResult { correct_prefix: cp as usize, length: n as usize, perfect: false })
                } else if cp >= n {
                    Some(SequenceResult { correct_prefix: n as usize, length: n as usize, perfect: true })
                } else {
                    None
                }
                &&& final(self).done == r is Some
            },
    {
        if self.done || self.flashing {
            return None;
        }
        self.entered.push(idx);
        let cp = correct_prefix(self.seq.as_slice(), self.entered.as_slice());
        let n = self.seq.len();
        if cp < self.entered.len() {
            self.done = true;
            Some(SequenceResult { correct_prefix: cp, length: n, perfect: false })
        } else if cp >= n {
            self.done = true;
            Some(SequenceResult { correct_prefix: n, length: n, perfect: true })
        } else {
            proof {
                assert(self.entered@.take(cp as int) =~= self.entered@);
            }
            None
        }
    }
}

/// A flawless round is exactly one whose taps reproduced the whole order.
pub proof fn law_taps_track_the_order(r: SequenceRound)
    requires
        r.wf(),
        !r.done,
    ensures
        r.entered@ == r.seq@.take(r.entered@.len() as int),
        common_prefix(r.seq@, r.entered@) == r.entered@.len(),
{
    lemma_prefix_of_itself(r.seq@, r.entered@);
}

proof fn lemma_prefix_of_itself(s: Seq<usize>, e: Seq<usize>)
    requires
        e.len() <= s.len(),
        e == s.take(e.len() as int),
    ensures
        common_prefix(s, e) == e.len(),
    decreases e.len(),
{
    if e.len() > 0 {
        assert(s[0] == e[0]);
        assert(e.drop_first() =~= s.drop_first().take(e.len() - 1));
        lemma_prefix_of_itself(s.drop_first(), e.drop_first());
    }
}

} // verus!
