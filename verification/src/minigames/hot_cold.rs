//! HotCold — a search/deduction hunt: the clue arithmetic. A target hides on a
//! grid; each probe reports either whether it is warmer or colder than the
//! previous probe, or its distance ring from the target. The par a good
//! searcher needs follows from bisecting each axis.

use vstd::prelude::*;

verus! {

/// What a probe tells the player.
#[derive(Debug, Clone, Copy, PartialEq, Eq, Structural)]
pub enum Feedback {
    /// Each probe reports whether it is closer or farther than the previous
    /// probe. The first probe has no prior, so it reads as a neutral baseline.
    WarmerColder,
    /// Each probe reports its absolute distance ring from the target (0 =
    /// found).
    DistanceRing,
}

/// Closer/farther than the previous probe — the warmer/colder verdict.
#[derive(Debug, Clone, Copy, PartialEq, Eq, Structural)]
pub enum Temperature {
    /// This probe is nearer the target than the previous one.
    Warmer,
    /// This probe is farther from the target than the previous one.
    Colder,
    /// Same distance as the previous probe.
    Same,
}

/// The gap between two naturals.
pub open spec fn gap(a: int, b: int) -> int {
    if a >= b {
        a - b
    } else {
        b - a
    }
}

/// Chebyshev (king-move) distance between two row-major cells of a grid
/// `cols` wide: the larger of the column gap and the row gap.
pub open spec fn chebyshev(a: nat, b: nat, cols: nat) -> int {
    let dc = gap((a % cols) as int, (b % cols) as int);
    let dr = gap((a / cols) as int, (b / cols) as int);
    if dc >= dr {
        dc
    } else {
        dr
    }
}

fn abs_diff(a: usize, b: usize) -> (r: usize)
    ensures
        r == gap(a as int, b as int),
{
    if a >= b {
        a - b
    } else {
        b - a
    }
}

/// `(col, row)` of a row-major cell index.
fn coords(idx: usize, cols: usize) -> (r: (usize, usize))
    requires
        cols > 0,
    ensures
        r.0 == idx % cols,
        r.1 == idx / cols,
{
    (idx % cols, idx / cols)
}

/// Chebyshev (king-move) distance between two cells — `max(|Δcol|, |Δrow|)`.
/// This is the metric behind the distance rings: ring `k` is the square shell
/// `k` cells out.
pub fn distance(a: usize, b: usize, cols: usize) -> (d: usize)
    requires
        cols > 0,
    ensures
        d == chebyshev(a as nat, b as nat, cols as nat),
{
    let (ac, ar) = coords(a, cols);
    let (bc, br) = coords(b, cols);
    let dc = abs_diff(ac, bc);
    let dr = abs_diff(ar, br);
    if dc >= dr {
        dc
    } else {
        dr
    }
}

/// The distance ring a probe lands in relative to the target. `0` exactly
/// when the probe is the target.
pub fn ring(probe: usize, target: usize, cols: usize) -> (d: usize)
    requires
        cols > 0,
    ensures
        d == chebyshev(probe as nat, target as nat, cols as nat),
{
    distance(probe, target, cols)
}

/// The verdict of a probe against the previous one.
pub open spec fn temperature_spec(probe: nat, prev: nat, target: nat, cols: nat) -> Temperature {
    let now = chebyshev(probe, target, cols);
    let before = chebyshev(prev, target, cols);
    if now < before {
        Temperature::Warmer
    } else if now > before {
        Temperature::Colder
    } else {
        Temperature::Same
    }
}

/// Whether `probe` is warmer/colder/same versus `prev` — comparing each
/// probe's distance to the target against the previous probe's.
pub fn temperature(probe: usize, prev: usize, target: usize, cols: usize) -> (t: Temperature)
    requires
        cols > 0,
    ensures
        t == temperature_spec(probe as nat, prev as nat, target as nat, cols as nat),
{
    let now = distance(probe, target, cols);
    let before = distance(prev, target, cols);
    if now < before {
        Temperature::Warmer
    } else if now > before {
        Temperature::Colder
    } else {
        Temperature::Same
    }
}

/// The distance rings are a metric on the grid: zero exactly at the target,
/// and the same measured from either end.
pub proof fn law_distance_is_a_metric(a: nat, b: nat, cols: nat)
    requires
        cols > 0,
    ensures
        chebyshev(a, a, cols) == 0,
        chebyshev(a, b, cols) == chebyshev(b, a, cols),
        chebyshev(a, b, cols) == 0 <==> a == b,
{
    if chebyshev(a, b, cols) == 0 {
        assert(a == (a / cols) * cols + a % cols) by (nonlinear_arith)
            requires
                cols > 0,
        ;
        assert(b == (b / cols) * cols + b % cols) by (nonlinear_arith)
            requires
                cols > 0,
        ;
    }
}

/// The number of binary digits of `m` (0 for 0).
pub open spec fn bit_length(m: nat) -> nat
    decreases m,
{
    if m == 0 {
        0
    } else {
        1 + bit_length(m / 2)
    }
}

/// `ceil(log2(n))` — the bisection depth for an `n`-wide axis: the bit length
/// of `n - 1`, and `0` for `n <= 1`.
pub open spec fn ceil_log2_spec(n: nat) -> nat {
    if n <= 1 {
        0
    } else {
        bit_length((n - 1) as nat)
    }
}

/// `ceil(log2(n))` — the bisection depth for an `n`-wide axis. `0` for `n <= 1`.
pub fn ceil_log2(n: usize) -> (k: usize)
    ensures
        k == ceil_log2_spec(n as nat),
        k <= 64,
{
    if n <= 1 {
        return 0;
    }
    let mut m = n - 1;
    let mut k: usize = 0;
    proof {
        lemma_bit_length_bound((n - 1) as nat);
    }
    while m > 0
        invariant
            k + bit_length(m as nat) == bit_length((n - 1) as nat),
            k + bit_length(m as nat) <= 64,
        decreases m,
    {
        m = m / 2;
        k = k + 1;
    }
    k
}

proof fn lemma_bit_length_bound(m: nat)
    requires
        m <= u64::MAX,
    ensures
        bit_length(m) <= 64,
{
    vstd::arithmetic::power2::lemma2_to64();
    lemma_bit_length_below(m, 64);
}

proof fn lemma_bit_length_below(m: nat, k: nat)
    requires
        m < vstd::arithmetic::power2::pow2(k),
    ensures
        bit_length(m) <= k,
    decreases k,
{
    if m > 0 {
        if k == 0 {
            vstd::arithmetic::power2::lemma2_to64();
        } else {
            vstd::arithmetic::power2::lemma_pow2_unfold(k);
            lemma_bit_length_below(m / 2, (k - 1) as nat);
        }
    }
}

proof fn lemma_bit_length_monotone(a: nat, b: nat)
    requires
        a <= b,
    ensures
        bit_length(a) <= bit_length(b),
    decreases b,
{
    if a > 0 {
        lemma_bit_length_monotone(a / 2, b / 2);
    }
}

/// A benchmark "good play" probe count for the layout. A distance reading
/// lets an ideal searcher bisect each axis, so ring feedback pars at
/// `ceil(log2(cols)) + ceil(log2(rows))` (at least 2); warmer/colder yields
/// less per probe, so it pars at twice that (at least 3).
pub open spec fn par_spec(cols: nat, rows: nat, feedback: Feedback) -> nat {
    let base = ceil_log2_spec(cols) + ceil_log2_spec(rows);
    match feedback {
        Feedback::DistanceRing => if base >= 2 {
            base
        } else {
            2
        },
        Feedback::WarmerColder => if base * 2 >= 3 {
            base * 2
        } else {
            3
        },
    }
}

/// A benchmark "good play" probe count for the layout.
pub fn par(cols: usize, rows: usize, feedback: Feedback) -> (p: usize)
    ensures
        p == par_spec(cols as nat, rows as nat, feedback),
{
    let base = ceil_log2(cols) + ceil_log2(rows);
    match feedback {
        Feedback::DistanceRing => if base >= 2 {
            base
        } else {
            2
        },
        Feedback::WarmerColder => if base * 2 >= 3 {
            base * 2
        } else {
            3
        },
    }
}

/// Par is at least one probe, ring feedback never pars harder than
/// warmer/colder (so a host scoring against par always has headroom), and par
/// never drops as the grid grows.
pub proof fn law_par_is_sane_and_monotone(c1: nat, r1: nat, c2: nat, r2: nat, fb: Feedback)
    requires
        c1 <= c2,
        r1 <= r2,
    ensures
        par_spec(c1, r1, fb) >= 1,
        par_spec(c1, r1, Feedback::DistanceRing) <= par_spec(c1, r1, Feedback::WarmerColder),
        par_spec(c1, r1, fb) <= par_spec(c2, r2, fb),
{
    if c1 > 1 {
        lemma_bit_length_monotone((c1 - 1) as nat, (c2 - 1) as nat);
    }
    if r1 > 1 {
        lemma_bit_length_monotone((r1 - 1) as nat, (r2 - 1) as nat);
    }
}

/// Smallest grid a hunt runs on: a 1-wide grid has no room to triangulate.
pub const MIN_GRID: usize = 2;

/// The outcome of one hunt, handed to the host.
#[derive(Debug, Clone, Copy, PartialEq, Eq, Structural)]
pub struct HotColdResult {
    /// Whether the target was located within the probe budget.
    pub found: bool,
    /// How many probes were spent.
    pub probes_used: usize,
    /// The benchmark probe count for this layout.
    pub par: usize,
}

/// A hunt in progress: the hidden target (placed by the host), the budget,
/// and the probes made so far, in order. Turn-based: its cost is probes, so it
/// has no clock.
pub struct HotColdHunt {
    /// Grid width, floored at [`MIN_GRID`].
    pub cols: usize,
    /// Grid height, floored at [`MIN_GRID`].
    pub rows: usize,
    /// The hidden cell.
    pub target: usize,
    /// Probes allowed (at least one).
    pub max_probes: usize,
    /// What each probe reports.
    pub feedback: Feedback,
    /// The par for this layout and feedback.
    pub par: usize,
    /// The cells probed so far, in order.
    pub probes: Vec<usize>,
    /// Whether the hunt has ended.
    pub done: bool,
}

impl HotColdHunt {
    /// The hunt's invariant: every probe distinct and within budget; while it
    /// runs the target is unprobed and budget remains; once over, the last
    /// probe found the target or spent the budget.
    pub open spec fn wf(self) -> bool {
        &&& self.cols >= MIN_GRID
        &&& self.rows >= MIN_GRID
        &&& self.max_probes >= 1
        &&& self.probes@.len() <= self.max_probes
        &&& forall|i: int, j: int| 0 <= i < j < self.probes@.len() ==> self.probes@[i] != self.probes@[j]
        &&& !self.done ==> !self.probes@.contains(self.target) && self.probes@.len() < self.max_probes
        &&& self.done ==> self.probes@.len() > 0 && (self.probes@.last() == self.target || self.probes@.len()
            == self.max_probes)
    }

    /// Start a hunt: the grid floored at 2×2, the budget at one probe.
    pub fn new(cols: usize, rows: usize, feedback: Feedback, max_probes: usize, target: usize) -> (h: HotColdHunt)
        ensures
            h.wf(),
            h.cols == if cols < MIN_GRID { MIN_GRID } else { cols },
            h.rows == if rows < MIN_GRID { MIN_GRID } else { rows },
            h.max_probes == if max_probes < 1 { 1 } else { max_probes },
            h.feedback == feedback,
            h.par == par_spec(h.cols as nat, h.rows as nat, feedback),
            h.target == target,
            h.probes@.len() == 0,
            !h.done,
    {
        let cols = if cols < MIN_GRID {
            MIN_GRID
        } else {
            cols
        };
        let rows = if rows < MIN_GRID {
            MIN_GRID
        } else {
            rows
        };
        let max_probes = if max_probes < 1 {
            1
        } else {
            max_probes
        };
        HotColdHunt {
            cols,
            rows,
            target,
            max_probes,
            feedback,
            par: par(cols, rows, feedback),
            probes: Vec::new(),
            done: false,
        }
    }

    /// Probe a cell. Re-probing a cell is a free no-op, as is any probe once
    /// the hunt is over; a fresh probe either finds the target or spends one of
    /// the budget, and the hunt ends (with its result) on a find or once the
    /// budget is spent.
    pub fn probe(&mut self, idx: usize) -> (r: Option<HotColdResult>)
        requires
            old(self).wf(),
        ensures
            final(self).wf(),
            final(self).cols == old(self).cols,
            final(self).rows == old(self).rows,
            final(self).target == old(self).target,
            final(self).max_probes == old(self).max_probes,
            final(self).feedback == old(self).feedback,
            final(self).par == old(self).par,
            old(self).done || old(self).probes@.contains(idx) ==> r is None && *final(self) == *old(self),
            !(old(self).done || old(self).probes@.contains(idx)) ==> {
                &&& final(self).probes@ == old(self).probes@.push(idx)
                &&& final(self).done == (idx == old(self).target || final(self).probes@.len() >= old(self).max_probes)
                &&& r == if final(self).done {
                    Some(HotColdResult {
                        found: idx == old(self).target,
                        probes_used: final(self).probes@.len() as usize,
                        par: old(self).par,
                    })
                } else {
                    None
                }
            },
    {
        if self.done || contains(&self.probes, idx) {
            return None;
        }
        self.probes.push(idx);
        let used = self.probes.len();
        proof {
            assert(self.probes@.last() == idx);
            assert forall|i: int, j: int| 0 <= i < j < self.probes@.len() implies self.probes@[i] != self.probes@[j] by {
                if j == self.probes@.len() - 1 {
                    assert(old(self).probes@.contains(old(self).probes@[i]));
                }
            }
        }
        if idx == self.target {
            self.done = true;
            Some(HotColdResult { found: true, probes_used: used, par: self.par })
        } else if used >= self.max_probes {
            self.done = true;
            Some(HotColdResult { found: false, probes_used: used, par: self.par })
        } else {
            proof {
                assert(!self.probes@.contains(self.target)) by {
                    if self.probes@.contains(self.target) {
                        let k = choose|k: int| 0 <= k < self.probes@.len() && self.probes@[k] == self.target;
                        if k < old(self).probes@.len() {
                            assert(old(self).probes@[k] == self.target);
                        }
                    }
                }
            }
            None
        }
    }
}

/// What a probed cell shows.
#[derive(Debug, Clone, Copy, PartialEq, Eq, Structural)]
pub enum Clue {
    /// Its distance ring from the target.
    Ring(usize),
    /// The first warmer/colder probe: no prior to compare with.
    Baseline,
    /// Warmer, colder or the same as the probe before it.
    Verdict(Temperature),
}

impl HotColdHunt {
    /// The clue the `k`-th probe shows: its ring under ring feedback; under
    /// warmer/colder, a neutral baseline for the first probe and the verdict
    /// against the previous probe after that.
    pub fn clue(&self, k: usize) -> (c: Clue)
        requires
            self.wf(),
            k < self.probes@.len(),
        ensures
            c == match self.feedback {
                Feedback::DistanceRing => Clue::Ring(
                    chebyshev(self.probes@[k as int] as nat, self.target as nat, self.cols as nat) as usize,
                ),
                Feedback::WarmerColder => if k == 0 {
                    Clue::Baseline
                } else {
                    Clue::Verdict(
                        temperature_spec(
                            self.probes@[k as int] as nat,
                            self.probes@[k - 1] as nat,
                            self.target as nat,
                            self.cols as nat,
                        ),
                    )
                },
            },
    {
        match self.feedback {
            Feedback::DistanceRing => Clue::Ring(ring(self.probes[k], self.target, self.cols)),
            Feedback::WarmerColder => if k == 0 {
                Clue::Baseline
            } else {
                Clue::Verdict(temperature(self.probes[k], self.probes[k - 1], self.target, self.cols))
            },
        }
    }
}

fn contains(v: &Vec<usize>, x: usize) -> (b: bool)
    ensures
        b == v@.contains(x),
{
    let mut i: usize = 0;
    while i < v.len()
        invariant
            i <= v@.len(),
            forall|j: int| 0 <= j < i ==> v@[j] != x,
        decreases v@.len() - i,
    {
        if v[i] == x {
            return true;
        }
        i += 1;
    }
    false
}

/// A hunt never spends more probes than its budget, and never probes a cell
/// twice; when it ends, it ends on the target or on the last probe of the
/// budget.
pub proof fn law_hunt_stays_in_budget(h: HotColdHunt)
    requires
        h.wf(),
    ensures
        h.probes@.len() <= h.max_probes,
        h.probes@.no_duplicates(),
        h.done ==> h.probes@.last() == h.target || h.probes@.len() == h.max_probes,
{
}

} // verus!
