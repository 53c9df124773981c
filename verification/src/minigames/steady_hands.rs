//! SteadyHands — a precision trace: the tally of on-target ticks. Each clock
//! tick reports whether the cursor was on the target; the tally keeps the
//! count, the current unbroken run, and the longest run.

use vstd::prelude::*;

verus! {

/// Folds the per-tick on-target flags into the counts a result is graded on.
#[derive(Debug, Clone, Copy, PartialEq, Eq, Structural)]
pub struct Accumulator {
    /// Ticks seen.
    pub total: u32,
    /// Ticks on target.
    pub on: u32,
    /// The current unbroken run of on-target ticks.
    pub streak: u32,
    /// The longest unbroken run so far.
    pub longest: u32,
}

/// The length of the run of `true` at the end of `s`.
pub open spec fn trailing_run(s: Seq<bool>) -> nat
    decreases s.len(),
{
    if s.len() == 0 || !s.last() {
        0
    } else {
        1 + trailing_run(s.drop_last())
    }
}

/// The longest run of `true` anywhere in `s`.
pub open spec fn longest_run(s: Seq<bool>) -> nat
    decreases s.len(),
{
    if s.len() == 0 {
        0
    } else {
        let before = longest_run(s.drop_last());
        let now = trailing_run(s);
        if now > before {
            now
        } else {
            before
        }
    }
}

/// How many flags of `s` are `true`.
pub open spec fn count_on(s: Seq<bool>) -> nat
    decreases s.len(),
{
    if s.len() == 0 {
        0
    } else {
        count_on(s.drop_last()) + if s.last() {
            1nat
        } else {
            0nat
        }
    }
}

/// The tally of a run of ticks.
pub open spec fn tally(s: Seq<bool>) -> Accumulator {
    Accumulator {
        total: s.len() as u32,
        on: count_on(s) as u32,
        streak: trailing_run(s) as u32,
        longest: longest_run(s) as u32,
    }
}

/// One tick folded into a tally: the tick counted, and the on-target count,
/// the current run and the longest run moved on.
pub open spec fn tick_spec(a: Accumulator, on_target: bool) -> Accumulator {
    if on_target {
        Accumulator {
            total: (a.total + 1) as u32,
            on: (a.on + 1) as u32,
            streak: (a.streak + 1) as u32,
            longest: if a.streak + 1 > a.longest { (a.streak + 1) as u32 } else { a.longest },
        }
    } else {
        Accumulator { total: (a.total + 1) as u32, on: a.on, streak: 0, longest: a.longest }
    }
}

impl Accumulator {
    /// The tally's invariant: the current run is within the longest, which is
    /// within the on-target count, which is within the ticks seen.
    pub open spec fn wf(self) -> bool {
        self.streak <= self.longest <= self.on <= self.total
    }

    /// An empty tally.
    pub fn new() -> (a: Accumulator)
        ensures
            a.wf(),
            a == tally(Seq::empty()),
    {
        Accumulator { total: 0, on: 0, streak: 0, longest: 0 }
    }

    /// Fold in one tick.
    pub fn tick(&mut self, on_target: bool)
        requires
            old(self).wf(),
            old(self).total < u32::MAX,
        ensures
            final(self).wf(),
            *final(self) == tick_spec(*old(self), on_target),
    {
        self.total = self.total + 1;
        if on_target {
            self.on = self.on + 1;
            self.streak = self.streak + 1;
            if self.streak > self.longest {
                self.longest = self.streak;
            }
        } else {
            self.streak = 0;
        }
    }
}

proof fn lemma_tally_bounds(s: Seq<bool>)
    ensures
        trailing_run(s) <= longest_run(s) <= count_on(s) <= s.len(),
        trailing_run(s) <= count_on(s),
    decreases s.len(),
{
    if s.len() > 0 {
        lemma_tally_bounds(s.drop_last());
    }
}

/// Folding one more tick into the tally of a run gives the tally of the
/// longer run: the counters track the run exactly.
pub proof fn law_tick_extends_the_tally(s: Seq<bool>, b: bool)
    requires
        s.len() < u32::MAX,
    ensures
        tally(s).wf(),
        tick_spec(tally(s), b) == tally(s.push(b)),
{
    lemma_tally_bounds(s);
    assert(s.push(b).drop_last() =~= s);
}

} // verus!
