//! CrowdThreading — memorize a lit route through a crowd, then walk it from
//! memory: the grid size a crowd calls for, the carving of a self-avoiding
//! route from the bottom row to the top, the crowd laid on the cells the route
//! leaves free, and the walk itself. The random draws (the start column, each
//! move among those on offer, the shuffle of the free cells) are made by the
//! caller and handed in.

use vstd::prelude::*;

verus! {

/// A step on the grid. `Up` is toward the exit (decreasing row).
#[derive(Debug, Clone, Copy, PartialEq, Eq, Structural)]
pub enum Dir {
    Up,
    Down,
    Left,
    Right,
}

/// The four directions in button order.
pub const DIRS: [Dir; 4] = [Dir::Up, Dir::Left, Dir::Right, Dir::Down];

/// The column/row delta of a step. Rows increase downward.
pub open spec fn step_spec(d: Dir) -> (int, int) {
    match d {
        Dir::Up => (0, -1),
        Dir::Down => (0, 1),
        Dir::Left => (-1, 0),
        Dir::Right => (1, 0),
    }
}

impl Dir {
    /// The arrow glyph shown on the direction button.
    pub fn glyph(self) -> (g: &'static str)
        ensures
            g@ == (match self {
                Dir::Up => "↑"@,
                Dir::Down => "↓"@,
                Dir::Left => "←"@,
                Dir::Right => "→"@,
            }),
    {
        match self {
            Dir::Up => "↑",
            Dir::Down => "↓",
            Dir::Left => "←",
            Dir::Right => "→",
        }
    }

    /// Column/row delta. Rows increase downward, so `Up` is `(0, -1)`.
    pub fn step(self) -> (d: (i32, i32))
        ensures
            d.0 as int == step_spec(self).0,
            d.1 as int == step_spec(self).1,
    {
        match self {
            Dir::Up => (0, -1),
            Dir::Down => (0, 1),
            Dir::Left => (-1, 0),
            Dir::Right => (1, 0),
        }
    }
}

/// Every step moves exactly one cell, and opposite steps cancel.
pub proof fn law_steps_are_unit_and_opposites_cancel(d: Dir)
    ensures
        (step_spec(d).0 == 0) != (step_spec(d).1 == 0),
        -1 <= step_spec(d).0 <= 1,
        -1 <= step_spec(d).1 <= 1,
        step_spec(d).0 + step_spec(opposite(d)).0 == 0,
        step_spec(d).1 + step_spec(opposite(d)).1 == 0,
{
}

/// The step that undoes `d`.
pub open spec fn opposite(d: Dir) -> Dir {
    match d {
        Dir::Up => Dir::Down,
        Dir::Down => Dir::Up,
        Dir::Left => Dir::Right,
        Dir::Right => Dir::Left,
    }
}

/// The least `s` from `from` on whose square reaches `m`.
pub open spec fn ceil_sqrt_from(from: nat, m: nat) -> nat
    decreases m - from,
    when from <= m
{
    if from * from >= m {
        from
    } else {
        proof {
            assert(from + 1 <= m) by (nonlinear_arith)
                requires
                    from * from < m,
            ;
        }
        ceil_sqrt_from(from + 1, m)
    }
}

/// The side of the square grid a crowd calls for: roughly twice as many cells
/// as crowd members plus room for the route — one more than the ceiling of
/// the square root of `2 * crowd + 4` — clamped to 4..=8 so it fits a phone.
pub open spec fn grid_side(crowd: nat) -> nat {
    let s = ceil_sqrt_from(0, 2 * crowd + 4) + 1;
    if s < 4 {
        4
    } else if s > 8 {
        8
    } else {
        s
    }
}

proof fn lemma_ceil_sqrt_from_at_least(from: nat, m: nat)
    requires
        from <= m,
    ensures
        ceil_sqrt_from(from, m) >= from,
        ceil_sqrt_from(from, m) * ceil_sqrt_from(from, m) >= m,
    decreases m - from,
{
    if from * from < m {
        assert(from + 1 <= m) by (nonlinear_arith)
            requires
                from * from < m,
        ;
        lemma_ceil_sqrt_from_at_least(from + 1, m);
    }
}

/// Derive a square grid that comfortably holds the crowd plus a route. Grows
/// with `crowd_size`, clamped so it always fits a phone screen.
pub fn grid_dims(crowd_size: usize) -> (d: (usize, usize))
    requires
        2 * crowd_size + 4 <= usize::MAX,
    ensures
        d.0 == grid_side(crowd_size as nat),
        d.1 == d.0,
{
    let m = crowd_size * 2 + 4;
    let mut s: usize = 0;
    while s < 8 && s * s < m
        invariant
            s <= 8,
            s * s <= 64,
            s <= m,
            ceil_sqrt_from(0, m as nat) == ceil_sqrt_from(s as nat, m as nat),
        decreases 8 - s,
    {
        proof {
            assert(s + 1 <= m) by (nonlinear_arith)
                requires
                    s * s < m,
            ;
            assert((s + 1) * (s + 1) <= 64) by (nonlinear_arith)
                requires
                    s < 8,
            ;
        }
        s += 1;
    }
    proof {
        lemma_ceil_sqrt_from_at_least(s as nat, m as nat);
    }
    let side = if s + 1 < 4 {
        4
    } else if s + 1 > 8 {
        8
    } else {
        s + 1
    };
    (side, side)
}

/// A packed crowd never gets a smaller grid than a thin one, and every grid
/// stays within 4..=8 cells a side.
pub proof fn law_grid_grows_with_the_crowd(a: nat, b: nat)
    requires
        a <= b,
    ensures
        4 <= grid_side(a) <= 8,
        grid_side(a) <= grid_side(b),
{
    lemma_ceil_sqrt_monotone(0, 2 * a + 4, 2 * b + 4);
}

proof fn lemma_ceil_sqrt_monotone(from: nat, m1: nat, m2: nat)
    requires
        from <= m1 <= m2,
    ensures
        ceil_sqrt_from(from, m1) <= ceil_sqrt_from(from, m2),
    decreases m1 - from,
{
    if from * from < m1 {
        assert(from + 1 <= m1) by (nonlinear_arith)
            requires
                from * from < m1,
        ;
        lemma_ceil_sqrt_monotone(from + 1, m1, m2);
    } else {
        lemma_ceil_sqrt_from_at_least(from, m2);
    }
}

/// Granularity of the reveal and walking clocks, in milliseconds.
pub const TICK_MS: u32 = 20;

/// How a walk ended: whether the whole route was reproduced, how many turns
/// were right before finishing or colliding, and the route's length.
#[derive(Debug, Clone, Copy, PartialEq, Eq, Structural)]
pub struct WalkOutcome {
    pub cleared: bool,
    pub steps_taken: usize,
    pub path_len: usize,
}

/// A walk in progress: the route to reproduce, how far the player has got,
/// and the two clocks — the map's reveal, then the time to walk it.
pub struct CrowdWalk {
    /// The route as a turn sequence.
    pub path: Vec<Dir>,
    /// How long the map stays up, in milliseconds.
    pub reveal_ms: u32,
    /// How long the player has to walk once the map closes, in milliseconds.
    pub navigate_ms: u32,
    /// Whether the map is still showing (turns are ignored).
    pub revealed: bool,
    /// Reveal-clock ticks so far.
    pub ticks: u32,
    /// Walking-clock ticks so far.
    pub nav_ticks: u32,
    /// Correct turns so far.
    pub step: usize,
    /// Whether the walk has ended.
    pub done: bool,
}

impl CrowdWalk {
    /// The walk's invariant: progress never passes the route, and a running
    /// walk has the rest of the route still to go.
    pub open spec fn wf(self) -> bool {
        &&& self.step <= self.path@.len()
        &&& !self.done ==> self.step < self.path@.len() || self.path@.len() == 0
    }

    /// A fresh walk: the map up, nothing walked.
    pub fn new(path: Vec<Dir>, reveal_ms: u32, navigate_ms: u32) -> (w: CrowdWalk)
        ensures
            w.wf(),
            w.path@ == path@,
            w.reveal_ms == reveal_ms,
            w.navigate_ms == navigate_ms,
            w.revealed,
            w.ticks == 0,
            w.nav_ticks == 0,
            w.step == 0,
            !w.done,
    {
        CrowdWalk { path, reveal_ms, navigate_ms, revealed: true, ticks: 0, nav_ticks: 0, step: 0, done: false }
    }

    /// The player skips the rest of the reveal and starts walking.
    pub fn close_map(&mut self)
        requires
            old(self).wf(),
        ensures
            final(self).wf(),
            *final(self) == (CrowdWalk { revealed: false, ..*old(self) }),
    {
        self.revealed = false;
    }

    /// One clock tick. While the map shows, the reveal clock runs and the map
    /// closes once `reveal_ms` has elapsed; after that the walking clock runs,
    /// and the walk fails (scored like a collision at the step reached) once
    /// `navigate_ms` has elapsed. Nothing happens once the walk is over.
    pub fn tick(&mut self) -> (r: Option<WalkOutcome>)
        requires
            old(self).wf(),
            old(self).ticks < u32::MAX,
            old(self).nav_ticks < u32::MAX,
            (old(self).ticks + 1) * TICK_MS <= u32::MAX,
            (old(self).nav_ticks + 1) * TICK_MS <= u32::MAX,
        ensures
            final(self).wf(),
            old(self).done ==> r is None && *final(self) == *old(self),
            !old(self).done && old(self).revealed ==> r is None && *final(self) == (CrowdWalk {
                ticks: (old(self).ticks + 1) as u32,
                revealed: (old(self).ticks + 1) * TICK_MS < old(self).reveal_ms,
                ..*old(self)
            }),
            !old(self).done && !old(self).revealed ==> {
                let nt = (old(self).nav_ticks + 1) as u32;
                let over = nt * TICK_MS >= old(self).navigate_ms;
                &&& *final(self) == (CrowdWalk { nav_ticks: nt, done: over, ..*old(self) })
                &&& r == if over {
                    Some(WalkOutcome { cleared: false, steps_taken: old(self).step, path_len: old(self).path@.len() as usize })
                } else {
                    None
                }
            },
    {
        if self.done {
            return None;
        }
        if self.revealed {
            self.ticks = self.ticks + 1;
            if self.ticks * TICK_MS >= self.reveal_ms {
                self.revealed = false;
            }
            return None;
        }
        self.nav_ticks = self.nav_ticks + 1;
        if self.nav_ticks * TICK_MS >= self.navigate_ms {
            self.done = true;
            return Some(WalkOutcome { cleared: false, steps_taken: self.step, path_len: self.path.len() });
        }
        None
    }

    /// A turn tapped while walking. The right turn advances one cell and, on
    /// the last one, clears the route; a wrong turn runs into someone and ends
    /// the walk. Ignored while the map shows or once the walk is over.
    pub fn tap(&mut self, dir: Dir) -> (r: Option<WalkOutcome>)
        requires
            old(self).wf(),
        ensures
            final(self).wf(),
            old(self).done || old(self).revealed ==> r is None && *final(self) == *old(self),
            !(old(self).done || old(self).revealed) && old(self).step < old(self).path@.len() && old(self).path@[old(self).step as int] == dir ==> {
                let st = (old(self).step + 1) as usize;
                let cleared = st >= old(self).path@.len();
                &&& *final(self) == (CrowdWalk { step: st, done: cleared, ..*old(self) })
                &&& r == if cleared {
                    Some(WalkOutcome { cleared: true, steps_taken: old(self).path@.len() as usize, path_len: old(self).path@.len() as usize })
                } else {
                    None
                }
            },
            !(old(self).done || old(self).revealed) && !(old(self).step < old(self).path@.len() && old(self).path@[old(self).step as int] == dir) ==> {
                &&& *final(self) == (CrowdWalk { done: true, ..*old(self) })
                &&& r == Some(WalkOutcome { cleared: false, steps_taken: old(self).step, path_len: old(self).path@.len() as usize })
            },
    {
        if self.done || self.revealed {
            return None;
        }
        if self.step < self.path.len() && self.path[self.step] == dir {
            self.step = self.step + 1;
            if self.step >= self.path.len() {
                self.done = true;
                let n = self.path.len();
                return Some(WalkOutcome { cleared: true, steps_taken: n, path_len: n });
            }
            None
        } else {
            self.done = true;
            Some(WalkOutcome { cleared: false, steps_taken: self.step, path_len: self.path.len() })
        }
    }
}

// ----- carving the route -----

/// The cell one step `d` away from `cell`, in signed coordinates.
pub open spec fn moved(cell: (usize, usize), d: Dir) -> (int, int) {
    (cell.0 + step_spec(d).0, cell.1 + step_spec(d).1)
}

/// Whether `walked` holds `cell`.
fn visited(walked: &Vec<(usize, usize)>, cell: (usize, usize)) -> (b: bool)
    ensures
        b == walked@.contains(cell),
{
    let mut i: usize = 0;
    while i < walked.len()
        invariant
            i <= walked@.len(),
            forall|k: int| 0 <= k < i ==> walked@[k] != cell,
        decreases walked@.len() - i,
    {
        if walked[i].0 == cell.0 && walked[i].1 == cell.1 {
            return true;
        }
        i += 1;
    }
    false
}

/// A route being carved from a cell on the bottom row up to the top row: the
/// turns taken so far and the cells they pass through, start first.
pub struct RouteCarver {
    pub cols: usize,
    pub rows: usize,
    pub path: Vec<Dir>,
    pub walked: Vec<(usize, usize)>,
}

/// `path` and `walked` form a route on a `cols` by `rows` grid: it starts on
/// the bottom row, each cell is one turn on from the one before, every cell is
/// on the grid, no cell is visited twice, and the route never goes back down a
/// row.
pub open spec fn is_route(cols: usize, rows: usize, path: Seq<Dir>, walked: Seq<(usize, usize)>) -> bool {
    &&& walked.len() == path.len() + 1
    &&& walked[0].1 == rows - 1
    &&& forall|i: int| 0 <= i < walked.len() ==> (#[trigger] walked[i]).0 < cols && walked[i].1 < rows
    &&& forall|i: int|
        0 <= i < path.len() ==> moved(walked[i], #[trigger] path[i]) == (
            walked[i + 1].0 as int,
            walked[i + 1].1 as int,
        )
    &&& walked.no_duplicates()
    &&& forall|i: int, j: int| 0 <= i <= j < walked.len() ==> #[trigger] walked[j].1 <= #[trigger] walked[i].1
}

/// The cell a step `d` from `cell` lands on.
pub open spec fn step_to(cell: (usize, usize), d: Dir) -> (usize, usize) {
    (moved(cell, d).0 as usize, moved(cell, d).1 as usize)
}

/// Whether a step `d` from the last cell of `walked` stays on the grid and
/// lands on a cell not yet visited.
pub open spec fn open_at(cols: usize, rows: usize, walked: Seq<(usize, usize)>, d: Dir) -> bool {
    let m = moved(walked.last(), d);
    &&& 0 <= m.0 < cols
    &&& 0 <= m.1 < rows
    &&& !walked.contains((m.0 as usize, m.1 as usize))
}

/// The moves on offer: `Up` twice when it is open (weighting progress toward
/// the exit), then `Left`, then `Right`. `Down` is never offered.
pub open spec fn options_at(cols: usize, rows: usize, walked: Seq<(usize, usize)>) -> Seq<Dir> {
    (if open_at(cols, rows, walked, Dir::Up) {
        seq![Dir::Up, Dir::Up]
    } else {
        seq![]
    }) + (if open_at(cols, rows, walked, Dir::Left) {
        seq![Dir::Left]
    } else {
        seq![]
    }) + (if open_at(cols, rows, walked, Dir::Right) {
        seq![Dir::Right]
    } else {
        seq![]
    })
}

/// Carving on from `walked` by `picks`: until the route stands on the top row,
/// each pick names one of the moves on offer. `None` when the picks run out
/// first or a pick names no move on offer; what is left of `picks` once the
/// top row is reached goes unused.
pub open spec fn carve_spec(
    cols: usize,
    rows: usize,
    walked: Seq<(usize, usize)>,
    path: Seq<Dir>,
    picks: Seq<usize>,
) -> Option<(Seq<Dir>, Seq<(usize, usize)>)>
    decreases picks.len(),
{
    if walked.last().1 == 0 {
        Some((path, walked))
    } else if picks.len() == 0 || picks[0] >= options_at(cols, rows, walked).len() {
        None
    } else {
        let d = options_at(cols, rows, walked)[picks[0] as int];
        carve_spec(cols, rows, walked.push(step_to(walked.last(), d)), path.push(d), picks.drop_first())
    }
}

impl RouteCarver {
    /// The route so far is a self-avoiding walk on the grid from a bottom-row
    /// start, each cell one turn on from the one before.
    pub open spec fn wf(self) -> bool {
        &&& self.rows >= 1
        &&& is_route(self.cols, self.rows, self.path@, self.walked@)
    }

    /// The cell the route has reached.
    pub open spec fn here(self) -> (usize, usize) {
        self.walked@.last()
    }

    /// Whether a step `d` from the current cell stays on the grid and lands on a
    /// cell the route has not visited.
    pub open spec fn open(self, d: Dir) -> bool {
        open_at(self.cols, self.rows, self.walked@, d)
    }

    /// The moves on offer from the current cell.
    pub open spec fn options_spec(self) -> Seq<Dir> {
        options_at(self.cols, self.rows, self.walked@)
    }

    /// Start a route at column `start_col` of the bottom row.
    pub fn new(cols: usize, rows: usize, start_col: usize) -> (rc: RouteCarver)
        requires
            start_col < cols,
            rows >= 1,
        ensures
            rc.wf(),
            rc.cols == cols,
            rc.rows == rows,
            rc.path@ == Seq::<Dir>::empty(),
            rc.walked@ == seq![(start_col, (rows - 1) as usize)],
    {
        let mut walked: Vec<(usize, usize)> = Vec::new();
        walked.push((start_col, rows - 1));
        RouteCarver { cols, rows, path: Vec::new(), walked }
    }

    /// Whether the route has stepped onto the top row, where the exit is.
    pub fn reached(&self) -> (b: bool)
        requires
            self.wf(),
        ensures
            b == (self.here().1 == 0),
    {
        self.walked[self.walked.len() - 1].1 == 0
    }

    /// The moves on offer from the current cell; none at a dead end.
    pub fn options(&self) -> (o: Vec<Dir>)
        requires
            self.wf(),
        ensures
            o@ == self.options_spec(),
    {
        let (c, r) = self.walked[self.walked.len() - 1];
        let mut o: Vec<Dir> = Vec::new();
        if r > 0 && !visited(&self.walked, (c, r - 1)) {
            o.push(Dir::Up);
            o.push(Dir::Up);
        }
        if c > 0 && !visited(&self.walked, (c - 1, r)) {
            o.push(Dir::Left);
        }
        if c + 1 < self.cols && !visited(&self.walked, (c + 1, r)) {
            o.push(Dir::Right);
        }
        proof {
            let h = self.here();
            assert(h == self.walked@[self.walked@.len() - 1]);
            assert(self.open(Dir::Up) == (r > 0 && !self.walked@.contains((c, (r - 1) as usize))));
            assert(self.open(Dir::Left) == (c > 0 && !self.walked@.contains(((c - 1) as usize, r))));
            assert(self.open(Dir::Right) == (c + 1 < self.cols && !self.walked@.contains(
                ((c + 1) as usize, r),
            )));
            assert(o@ =~= self.options_spec());
        }
        o
    }

    /// Take the move at `pick` among the options: the route steps onto that
    /// cell.
    pub fn take(&mut self, pick: usize)
        requires
            old(self).wf(),
            pick < old(self).options_spec().len(),
        ensures
            final(self).wf(),
            final(self).cols == old(self).cols,
            final(self).rows == old(self).rows,
            final(self).path@ == old(self).path@.push(old(self).options_spec()[pick as int]),
            final(self).walked@ == old(self).walked@.push(
                (
                    moved(old(self).here(), old(self).options_spec()[pick as int]).0 as usize,
                    moved(old(self).here(), old(self).options_spec()[pick as int]).1 as usize,
                ),
            ),
    {
        let opts = self.options();
        let d = opts[pick];
        let ghost s0 = *self;
        let (c, r) = self.walked[self.walked.len() - 1];
        proof {
            assert(s0.here() == (c, r));
            let o = s0.options_spec();
            assert(o[pick as int] == d);
            assert(s0.open(d)) by {
                if d == Dir::Down {
                    assert(!o.contains(Dir::Down));
                }
            }
        }
        let cell = match d {
            Dir::Up => (c, r - 1),
            Dir::Left => (c - 1, r),
            Dir::Right => (c + 1, r),
            Dir::Down => (c, r + 1),
        };
        self.walked.push(cell);
        self.path.push(d);
        proof {
            let n = s0.walked@.len();
            assert(self.walked@[n as int] == cell);
            assert forall|i: int| 0 <= i < self.walked@.len() implies (#[trigger] self.walked@[i]).0
                < self.cols && self.walked@[i].1 < self.rows by {
                if i < n {
                    assert(self.walked@[i] == s0.walked@[i]);
                }
            }
            assert forall|i: int| 0 <= i < self.path@.len() implies moved(
                self.walked@[i],
                #[trigger] self.path@[i],
            ) == (self.walked@[i + 1].0 as int, self.walked@[i + 1].1 as int) by {
                if i < s0.path@.len() {
                    assert(self.path@[i] == s0.path@[i]);
                    assert(self.walked@[i] == s0.walked@[i]);
                    assert(self.walked@[i + 1] == s0.walked@[i + 1]);
                } else {
                    assert(self.walked@[i] == s0.walked@[n - 1]);
                }
            }
            assert forall|i: int, j: int|
                0 <= i < self.walked@.len() && 0 <= j < self.walked@.len() && i != j implies self.walked@[i]
                != self.walked@[j] by {
                if i < n && j < n {
                    assert(self.walked@[i] == s0.walked@[i]);
                    assert(self.walked@[j] == s0.walked@[j]);
                } else if i < n {
                    assert(self.walked@[i] == s0.walked@[i]);
                    assert(s0.walked@.contains(s0.walked@[i]));
                } else {
                    assert(self.walked@[j] == s0.walked@[j]);
                    assert(s0.walked@.contains(s0.walked@[j]));
                }
            }
        }
    }

    /// At a dead end, step back one cell; `false` when there is nothing to undo.
    pub fn backtrack(&mut self) -> (b: bool)
        requires
            old(self).wf(),
        ensures
            final(self).wf(),
            b == (old(self).path@.len() > 0),
            final(self).cols == old(self).cols,
            final(self).rows == old(self).rows,
            b ==> final(self).path@ == old(self).path@.drop_last() && final(self).walked@ == old(
                self,
            ).walked@.drop_last(),
            !b ==> final(self).path@ == old(self).path@ && final(self).walked@ == old(self).walked@,
    {
        if self.path.len() == 0 {
            return false;
        }
        let ghost s0 = *self;
        self.path.pop();
        self.walked.pop();
        proof {
            assert forall|i: int| 0 <= i < self.path@.len() implies moved(
                self.walked@[i],
                #[trigger] self.path@[i],
            ) == (self.walked@[i + 1].0 as int, self.walked@[i + 1].1 as int) by {
                assert(self.path@[i] == s0.path@[i]);
                assert(self.walked@[i] == s0.walked@[i]);
                assert(self.walked@[i + 1] == s0.walked@[i + 1]);
            }
            assert forall|i: int| 0 <= i < self.walked@.len() implies (#[trigger] self.walked@[i]).0
                < self.cols && self.walked@[i].1 < self.rows by {
                assert(self.walked@[i] == s0.walked@[i]);
            }
            assert forall|i: int, j: int|
                0 <= i < self.walked@.len() && 0 <= j < self.walked@.len() && i != j implies self.walked@[i]
                != self.walked@[j] by {
                assert(self.walked@[i] == s0.walked@[i]);
                assert(self.walked@[j] == s0.walked@[j]);
            }
        }
        true
    }
}

/// A route short of the top row always has `Up` on offer: it never goes back
/// down a row, so the cell above it is still unvisited. It never reaches a
/// dead end, and never has to back out of one.
pub proof fn law_up_is_open_below_the_top(rc: RouteCarver)
    requires
        rc.wf(),
        rc.here().1 != 0,
    ensures
        rc.open(Dir::Up),
        rc.options_spec().len() >= 2,
{
    let n = rc.walked@.len();
    let h = rc.here();
    assert(h == rc.walked@[n - 1]);
    let above = (h.0, (h.1 - 1) as usize);
    if rc.walked@.contains(above) {
        let k = choose|k: int| 0 <= k < n && rc.walked@[k] == above;
        assert(rc.walked@[n - 1].1 <= rc.walked@[k].1);
    }
}

/// Carve a route from column `start_col` of the bottom row to the top row,
/// taking at each cell the move its pick names among those on offer (a pick
/// drawn below the number of moves on offer). `None` when the picks run out
/// before the top row, or a pick names no move on offer.
pub fn carve_route(cols: usize, rows: usize, start_col: usize, picks: &Vec<usize>) -> (r: Option<
    RouteCarver,
>)
    requires
        start_col < cols,
        rows >= 1,
    ensures
        r is Some <==> carve_spec(
            cols,
            rows,
            seq![(start_col, (rows - 1) as usize)],
            seq![],
            picks@,
        ) is Some,
        r matches Some(rc) ==> {
            &&& rc.wf()
            &&& rc.cols == cols
            &&& rc.rows == rows
            &&& rc.here().1 == 0
            &&& carve_spec(cols, rows, seq![(start_col, (rows - 1) as usize)], seq![], picks@) == Some(
                (rc.path@, rc.walked@),
            )
        },
{
    let ghost start = seq![(start_col, (rows - 1) as usize)];
    let mut rc = RouteCarver::new(cols, rows, start_col);
    let mut k: usize = 0;
    proof {
        assert(picks@.skip(0) =~= picks@);
    }
    while !rc.reached()
        invariant
            start == seq![(start_col, (rows - 1) as usize)],
            rc.wf(),
            rc.cols == cols,
            rc.rows == rows,
            k <= picks@.len(),
            carve_spec(cols, rows, start, seq![], picks@) == carve_spec(
                cols,
                rows,
                rc.walked@,
                rc.path@,
                picks@.skip(k as int),
            ),
        decreases picks@.len() - k,
    {
        proof {
            assert(rc.walked@.last() == rc.here());
        }
        if k >= picks.len() {
            proof {
                assert(picks@.skip(k as int).len() == 0);
            }
            return None;
        }
        let opts = rc.options();
        if picks[k] >= opts.len() {
            proof {
                assert(picks@.skip(k as int)[0] == picks@[k as int]);
            }
            return None;
        }
        let ghost before = rc;
        rc.take(picks[k]);
        proof {
            assert(picks@.skip(k as int)[0] == picks@[k as int]);
            assert(picks@.skip(k as int).drop_first() =~= picks@.skip(k + 1));
            assert(before.walked@.last() == before.here());
        }
        k += 1;
    }
    Some(rc)
}

// ----- laying the crowd around the route -----

/// The free cells of row `r` from column `c` on: those the route does not
/// pass through, left to right.
pub open spec fn row_free(r: nat, c: nat, cols: nat, walked: Seq<(usize, usize)>) -> Seq<(usize, usize)>
    decreases cols - c,
{
    if c >= cols {
        seq![]
    } else {
        (if walked.contains((c as usize, r as usize)) {
            seq![]
        } else {
            seq![(c as usize, r as usize)]
        }) + row_free(r, c + 1, cols, walked)
    }
}

/// The free cells of the grid from row `r` down, row by row.
pub open spec fn grid_free(r: nat, rows: nat, cols: nat, walked: Seq<(usize, usize)>) -> Seq<
    (usize, usize),
>
    decreases rows - r,
{
    if r >= rows {
        seq![]
    } else {
        row_free(r, 0, cols, walked) + grid_free(r + 1, rows, cols, walked)
    }
}

/// `s` with the entries at `i` and `j` exchanged.
pub open spec fn swap_at(s: Seq<(usize, usize)>, i: int, j: int) -> Seq<(usize, usize)> {
    s.update(i, s[j]).update(j, s[i])
}

/// A Fisher–Yates shuffle from position `i` down to 1: position `i` trades
/// places with the one its draw names (`draws[len - 1 - i]`, at most `i`).
pub open spec fn shuffle_from(s: Seq<(usize, usize)>, draws: Seq<usize>, i: int) -> Seq<(usize, usize)>
    decreases i,
{
    if i < 1 || i >= s.len() {
        s
    } else {
        shuffle_from(swap_at(s, i, draws[s.len() - 1 - i] as int), draws, i - 1)
    }
}

/// A shuffle keeps the number of cells.
proof fn lemma_shuffle_len(s: Seq<(usize, usize)>, draws: Seq<usize>, i: int)
    requires
        draws_fit(s.len() as int, draws),
    ensures
        shuffle_from(s, draws, i).len() == s.len(),
    decreases i,
{
    if i >= 1 && i < s.len() {
        let j = draws[s.len() - 1 - i] as int;
        assert(swap_at(s, i, j).len() == s.len());
        lemma_shuffle_len(swap_at(s, i, j), draws, i - 1);
    }
}

/// The whole Fisher–Yates shuffle of `s` by `draws`.
pub open spec fn shuffled(s: Seq<(usize, usize)>, draws: Seq<usize>) -> Seq<(usize, usize)> {
    shuffle_from(s, draws, s.len() - 1)
}

/// The draws a shuffle of `n` cells takes: one per position from the last down
/// to the second, each at most its position.
pub open spec fn draws_fit(n: int, draws: Seq<usize>) -> bool {
    &&& draws.len() == (if n == 0 {
        0
    } else {
        n - 1
    })
    &&& forall|k: int| 0 <= k < draws.len() ==> draws[k] <= n - 1 - k
}

/// The cells of `pool` in column `c`, from row `r` down.
pub open spec fn col_scan(c: nat, r: nat, rows: nat, pool: Seq<(usize, usize)>) -> Seq<(usize, usize)>
    decreases rows - r,
{
    if r >= rows {
        seq![]
    } else {
        (if pool.contains((c as usize, r as usize)) {
            seq![(c as usize, r as usize)]
        } else {
            seq![]
        }) + col_scan(c, r + 1, rows, pool)
    }
}

/// The cells of `pool` on the grid, column by column: in (column, row) order.
pub open spec fn grid_scan(c: nat, cols: nat, rows: nat, pool: Seq<(usize, usize)>) -> Seq<
    (usize, usize),
>
    decreases cols - c,
{
    if c >= cols {
        seq![]
    } else {
        col_scan(c, 0, rows, pool) + grid_scan(c + 1, cols, rows, pool)
    }
}

proof fn lemma_row_free_off_route(r: nat, c: nat, cols: nat, walked: Seq<(usize, usize)>)
    ensures
        forall|x: (usize, usize)| #[trigger] row_free(r, c, cols, walked).contains(x) ==> !walked.contains(x),
    decreases cols - c,
{
    if c < cols {
        lemma_row_free_off_route(r, c + 1, cols, walked);
        let head: Seq<(usize, usize)> = if walked.contains((c as usize, r as usize)) {
            seq![]
        } else {
            seq![(c as usize, r as usize)]
        };
        let tail = row_free(r, c + 1, cols, walked);
        assert forall|x: (usize, usize)| #[trigger] (head + tail).contains(x) implies !walked.contains(x) by {
            let i = choose|i: int| 0 <= i < (head + tail).len() && (head + tail)[i] == x;
            if i >= head.len() {
                assert(tail[i - head.len()] == x);
                assert(tail.contains(x));
            }
        }
    }
}

proof fn lemma_grid_free_off_route(r: nat, rows: nat, cols: nat, walked: Seq<(usize, usize)>)
    ensures
        forall|x: (usize, usize)| #[trigger] grid_free(r, rows, cols, walked).contains(x) ==> !walked.contains(x),
    decreases rows - r,
{
    if r < rows {
        lemma_grid_free_off_route(r + 1, rows, cols, walked);
        lemma_row_free_off_route(r, 0, cols, walked);
        let a = row_free(r, 0, cols, walked);
        let b = grid_free(r + 1, rows, cols, walked);
        assert forall|x: (usize, usize)| #[trigger] (a + b).contains(x) implies !walked.contains(x) by {
            let i = choose|i: int| 0 <= i < (a + b).len() && (a + b)[i] == x;
            if i < a.len() {
                assert(a[i] == x);
                assert(a.contains(x));
            } else {
                assert(b[i - a.len()] == x);
                assert(b.contains(x));
            }
        }
    }
}

/// A shuffle only moves cells about: every cell of the result was in `s`.
proof fn lemma_shuffle_keeps_cells(s: Seq<(usize, usize)>, draws: Seq<usize>, i: int)
    requires
        draws_fit(s.len() as int, draws),
    ensures
        forall|x: (usize, usize)| #[trigger] shuffle_from(s, draws, i).contains(x) ==> s.contains(x),
    decreases i,
{
    if i >= 1 && i < s.len() {
        let j = draws[s.len() - 1 - i] as int;
        let t = swap_at(s, i, j);
        assert(t.len() == s.len());
        lemma_shuffle_keeps_cells(t, draws, i - 1);
        assert(shuffle_from(s, draws, i) == shuffle_from(t, draws, i - 1));
        assert forall|x: (usize, usize)| #[trigger] t.contains(x) implies s.contains(x) by {
            let k = choose|k: int| 0 <= k < t.len() && t[k] == x;
            if k == j {
                assert(s[i] == x);
            } else if k == i {
                assert(s[j] == x);
            } else {
                assert(s[k] == x);
            }
        }
    }
}

proof fn lemma_col_scan_in_pool(c: nat, r: nat, rows: nat, pool: Seq<(usize, usize)>)
    ensures
        forall|x: (usize, usize)| #[trigger] col_scan(c, r, rows, pool).contains(x) ==> pool.contains(x),
    decreases rows - r,
{
    if r < rows {
        lemma_col_scan_in_pool(c, r + 1, rows, pool);
        let head: Seq<(usize, usize)> = if pool.contains((c as usize, r as usize)) {
            seq![(c as usize, r as usize)]
        } else {
            seq![]
        };
        let tail = col_scan(c, r + 1, rows, pool);
        assert forall|x: (usize, usize)| #[trigger] (head + tail).contains(x) implies pool.contains(x) by {
            let i = choose|i: int| 0 <= i < (head + tail).len() && (head + tail)[i] == x;
            if i >= head.len() {
                assert(tail[i - head.len()] == x);
                assert(tail.contains(x));
            }
        }
    }
}

proof fn lemma_grid_scan_in_pool(c: nat, cols: nat, rows: nat, pool: Seq<(usize, usize)>)
    ensures
        forall|x: (usize, usize)| #[trigger] grid_scan(c, cols, rows, pool).contains(x) ==> pool.contains(x),
    decreases cols - c,
{
    if c < cols {
        lemma_grid_scan_in_pool(c + 1, cols, rows, pool);
        lemma_col_scan_in_pool(c, 0, rows, pool);
        let a = col_scan(c, 0, rows, pool);
        let b = grid_scan(c + 1, cols, rows, pool);
        assert forall|x: (usize, usize)| #[trigger] (a + b).contains(x) implies pool.contains(x) by {
            let i = choose|i: int| 0 <= i < (a + b).len() && (a + b)[i] == x;
            if i < a.len() {
                assert(a[i] == x);
                assert(a.contains(x));
            } else {
                assert(b[i - a.len()] == x);
                assert(b.contains(x));
            }
        }
    }
}

/// `a` comes before `b` column first, then row: the order of `(usize, usize)`.
pub open spec fn cell_before(a: (usize, usize), b: (usize, usize)) -> bool {
    a.0 < b.0 || (a.0 == b.0 && a.1 < b.1)
}

/// `a` comes before `b` row first, then column: reading order on the grid.
pub open spec fn reads_before(a: (usize, usize), b: (usize, usize)) -> bool {
    a.1 < b.1 || (a.1 == b.1 && a.0 < b.0)
}

proof fn lemma_col_scan_facts(c: nat, r: nat, rows: nat, pool: Seq<(usize, usize)>)
    requires
        c <= usize::MAX,
        rows <= usize::MAX,
    ensures
        forall|i: int|
            0 <= i < col_scan(c, r, rows, pool).len() ==> (#[trigger] col_scan(c, r, rows, pool)[i]).0
                == c && r <= col_scan(c, r, rows, pool)[i].1 < rows,
        forall|i: int, j: int|
            0 <= i < j < col_scan(c, r, rows, pool).len() ==> (#[trigger] col_scan(c, r, rows, pool)[i]).1
                < (#[trigger] col_scan(c, r, rows, pool)[j]).1,
        forall|x: (usize, usize)|
            #[trigger] col_scan(c, r, rows, pool).contains(x) <==> (x.0 == c && r <= x.1 < rows
                && pool.contains(x)),
    decreases rows - r,
{
    if r < rows {
        lemma_col_scan_facts(c, r + 1, rows, pool);
        let cell = (c as usize, r as usize);
        let head: Seq<(usize, usize)> = if pool.contains(cell) {
            seq![cell]
        } else {
            seq![]
        };
        let tail = col_scan(c, r + 1, rows, pool);
        let s = head + tail;
        assert(col_scan(c, r, rows, pool) == s);
        assert forall|i: int| 0 <= i < s.len() implies (#[trigger] s[i]).0 == c && r <= s[i].1 < rows by {
            if i >= head.len() {
                assert(s[i] == tail[i - head.len()]);
            }
        }
        assert forall|i: int, j: int| 0 <= i < j < s.len() implies (#[trigger] s[i]).1 < (
        #[trigger] s[j]).1 by {
            assert(s[j] == tail[j - head.len()]);
            if i >= head.len() {
                assert(s[i] == tail[i - head.len()]);
            }
        }
        assert forall|x: (usize, usize)| #[trigger] s.contains(x) <==> (x.0 == c && r <= x.1 < rows
            && pool.contains(x)) by {
            if s.contains(x) {
                let i = choose|i: int| 0 <= i < s.len() && s[i] == x;
                if i >= head.len() {
                    assert(tail[i - head.len()] == x);
                    assert(tail.contains(x));
                }
            }
            if x.0 == c && r <= x.1 < rows && pool.contains(x) {
                if x.1 == r {
                    assert(x == cell);
                    assert(s[0] == x);
                } else {
                    assert(tail.contains(x));
                    let i = choose|i: int| 0 <= i < tail.len() && tail[i] == x;
                    assert(s[i + head.len()] == x);
                }
            }
        }
    }
}

proof fn lemma_grid_scan_facts(c: nat, cols: nat, rows: nat, pool: Seq<(usize, usize)>)
    requires
        cols <= usize::MAX,
        rows <= usize::MAX,
    ensures
        forall|i: int|
            0 <= i < grid_scan(c, cols, rows, pool).len() ==> c <= (#[trigger] grid_scan(c, cols, rows, pool)[i]).0
                < cols && grid_scan(c, cols, rows, pool)[i].1 < rows,
        forall|i: int, j: int|
            0 <= i < j < grid_scan(c, cols, rows, pool).len() ==> cell_before(
                #[trigger] grid_scan(c, cols, rows, pool)[i],
                #[trigger] grid_scan(c, cols, rows, pool)[j],
            ),
        forall|x: (usize, usize)|
            #[trigger] grid_scan(c, cols, rows, pool).contains(x) <==> (c <= x.0 < cols && x.1 < rows
                && pool.contains(x)),
    decreases cols - c,
{
    if c < cols {
        lemma_grid_scan_facts(c + 1, cols, rows, pool);
        lemma_col_scan_facts(c, 0, rows, pool);
        let a = col_scan(c, 0, rows, pool);
        let b = grid_scan(c + 1, cols, rows, pool);
        let s = a + b;
        assert(grid_scan(c, cols, rows, pool) == s);
        assert forall|i: int| 0 <= i < s.len() implies c <= (#[trigger] s[i]).0 < cols && s[i].1
            < rows by {
            if i < a.len() {
                assert(s[i] == a[i]);
            } else {
                assert(s[i] == b[i - a.len()]);
            }
        }
        assert forall|i: int, j: int| 0 <= i < j < s.len() implies cell_before(
            #[trigger] s[i],
            #[trigger] s[j],
        ) by {
            if j < a.len() {
                assert(s[i] == a[i] && s[j] == a[j]);
            } else if i < a.len() {
                assert(s[i] == a[i] && s[j] == b[j - a.len()]);
            } else {
                assert(s[i] == b[i - a.len()] && s[j] == b[j - a.len()]);
            }
        }
        assert forall|x: (usize, usize)| #[trigger] s.contains(x) <==> (c <= x.0 < cols && x.1
            < rows && pool.contains(x)) by {
            if s.contains(x) {
                let i = choose|i: int| 0 <= i < s.len() && s[i] == x;
                if i < a.len() {
                    assert(a[i] == x);
                    assert(a.contains(x));
                } else {
                    assert(b[i - a.len()] == x);
                    assert(b.contains(x));
                }
            }
            if c <= x.0 < cols && x.1 < rows && pool.contains(x) {
                if x.0 == c {
                    assert(a.contains(x));
                    let i = choose|i: int| 0 <= i < a.len() && a[i] == x;
                    assert(s[i] == x);
                } else {
                    assert(b.contains(x));
                    let i = choose|i: int| 0 <= i < b.len() && b[i] == x;
                    assert(s[i + a.len()] == x);
                }
            }
        }
    }
}

proof fn lemma_row_free_facts(r: nat, c: nat, cols: nat, walked: Seq<(usize, usize)>)
    requires
        r <= usize::MAX,
        cols <= usize::MAX,
    ensures
        forall|i: int|
            0 <= i < row_free(r, c, cols, walked).len() ==> (#[trigger] row_free(r, c, cols, walked)[i]).1
                == r && c <= row_free(r, c, cols, walked)[i].0 < cols,
        forall|i: int, j: int|
            0 <= i < j < row_free(r, c, cols, walked).len() ==> (#[trigger] row_free(r, c, cols, walked)[i]).0
                < (#[trigger] row_free(r, c, cols, walked)[j]).0,
        forall|x: (usize, usize)|
            #[trigger] row_free(r, c, cols, walked).contains(x) <==> (x.1 == r && c <= x.0 < cols
                && !walked.contains(x)),
    decreases cols - c,
{
    if c < cols {
        lemma_row_free_facts(r, c + 1, cols, walked);
        let cell = (c as usize, r as usize);
        let head: Seq<(usize, usize)> = if walked.contains(cell) {
            seq![]
        } else {
            seq![cell]
        };
        let tail = row_free(r, c + 1, cols, walked);
        let s = head + tail;
        assert(row_free(r, c, cols, walked) == s);
        assert forall|i: int| 0 <= i < s.len() implies (#[trigger] s[i]).1 == r && c <= s[i].0 < cols by {
            if i >= head.len() {
                assert(s[i] == tail[i - head.len()]);
            }
        }
        assert forall|i: int, j: int| 0 <= i < j < s.len() implies (#[trigger] s[i]).0 < (
        #[trigger] s[j]).0 by {
            assert(s[j] == tail[j - head.len()]);
            if i >= head.len() {
                assert(s[i] == tail[i - head.len()]);
            }
        }
        assert forall|x: (usize, usize)| #[trigger] s.contains(x) <==> (x.1 == r && c <= x.0 < cols
            && !walked.contains(x)) by {
            if s.contains(x) {
                let i = choose|i: int| 0 <= i < s.len() && s[i] == x;
                if i >= head.len() {
                    assert(tail[i - head.len()] == x);
                    assert(tail.contains(x));
                }
            }
            if x.1 == r && c <= x.0 < cols && !walked.contains(x) {
                if x.0 == c {
                    assert(x == cell);
                    assert(s[0] == x);
                } else {
                    assert(tail.contains(x));
                    let i = choose|i: int| 0 <= i < tail.len() && tail[i] == x;
                    assert(s[i + head.len()] == x);
                }
            }
        }
    }
}

proof fn lemma_grid_free_facts(r: nat, rows: nat, cols: nat, walked: Seq<(usize, usize)>)
    requires
        rows <= usize::MAX,
        cols <= usize::MAX,
    ensures
        forall|i: int|
            0 <= i < grid_free(r, rows, cols, walked).len() ==> r <= (#[trigger] grid_free(r, rows, cols, walked)[i]).1
                < rows && grid_free(r, rows, cols, walked)[i].0 < cols,
        forall|i: int, j: int|
            0 <= i < j < grid_free(r, rows, cols, walked).len() ==> reads_before(
                #[trigger] grid_free(r, rows, cols, walked)[i],
                #[trigger] grid_free(r, rows, cols, walked)[j],
            ),
        forall|x: (usize, usize)|
            #[trigger] grid_free(r, rows, cols, walked).contains(x) <==> (r <= x.1 < rows && x.0 < cols
                && !walked.contains(x)),
    decreases rows - r,
{
    if r < rows {
        lemma_grid_free_facts(r + 1, rows, cols, walked);
        lemma_row_free_facts(r, 0, cols, walked);
        let a = row_free(r, 0, cols, walked);
        let b = grid_free(r + 1, rows, cols, walked);
        let s = a + b;
        assert(grid_free(r, rows, cols, walked) == s);
        assert forall|i: int| 0 <= i < s.len() implies r <= (#[trigger] s[i]).1 < rows && s[i].0
            < cols by {
            if i < a.len() {
                assert(s[i] == a[i]);
            } else {
                assert(s[i] == b[i - a.len()]);
            }
        }
        assert forall|i: int, j: int| 0 <= i < j < s.len() implies reads_before(
            #[trigger] s[i],
            #[trigger] s[j],
        ) by {
            if j < a.len() {
                assert(s[i] == a[i] && s[j] == a[j]);
            } else if i < a.len() {
                assert(s[i] == a[i] && s[j] == b[j - a.len()]);
            } else {
                assert(s[i] == b[i - a.len()] && s[j] == b[j - a.len()]);
            }
        }
        assert forall|x: (usize, usize)| #[trigger] s.contains(x) <==> (r <= x.1 < rows && x.0
            < cols && !walked.contains(x)) by {
            if s.contains(x) {
                let i = choose|i: int| 0 <= i < s.len() && s[i] == x;
                if i < a.len() {
                    assert(a[i] == x);
                    assert(a.contains(x));
                } else {
                    assert(b[i - a.len()] == x);
                    assert(b.contains(x));
                }
            }
            if r <= x.1 < rows && x.0 < cols && !walked.contains(x) {
                if x.1 == r {
                    assert(a.contains(x));
                    let i = choose|i: int| 0 <= i < a.len() && a[i] == x;
                    assert(s[i] == x);
                } else {
                    assert(b.contains(x));
                    let i = choose|i: int| 0 <= i < b.len() && b[i] == x;
                    assert(s[i + a.len()] == x);
                }
            }
        }
    }
}

proof fn lemma_row_free_len_empty(r: nat, c: nat, cols: nat)
    ensures
        row_free(r, c, cols, Seq::<(usize, usize)>::empty()).len() == if c <= cols {
            cols - c
        } else {
            0
        },
    decreases cols - c,
{
    if c < cols {
        lemma_row_free_len_empty(r, c + 1, cols);
    }
}

proof fn lemma_grid_free_len_empty(r: nat, rows: nat, cols: nat)
    requires
        r <= rows,
    ensures
        grid_free(r, rows, cols, Seq::<(usize, usize)>::empty()).len() == (rows - r) * cols,
    decreases rows - r,
{
    if r < rows {
        lemma_grid_free_len_empty(r + 1, rows, cols);
        lemma_row_free_len_empty(r, 0, cols);
        let e = Seq::<(usize, usize)>::empty();
        assert(grid_free(r, rows, cols, e) == row_free(r, 0, cols, e) + grid_free(r + 1, rows, cols, e));
        assert((rows - r) * cols == cols + (rows - (r + 1)) * cols) by (nonlinear_arith)
            requires
                r < rows,
        ;
    } else {
        assert((rows - r) * cols == 0) by (nonlinear_arith)
            requires
                r == rows,
        ;
    }
}

/// Marking one more cell `x` as walked takes one cell out of row `r` when it
/// lies there (from column `c` on), and none otherwise.
proof fn lemma_row_free_len_push(
    r: nat,
    c: nat,
    cols: nat,
    w: Seq<(usize, usize)>,
    x: (usize, usize),
)
    requires
        r <= usize::MAX,
        cols <= usize::MAX,
        !w.contains(x),
        x.0 < cols,
    ensures
        row_free(r, c, cols, w.push(x)).len() + (if x.1 == r && c <= x.0 {
            1int
        } else {
            0
        }) == row_free(r, c, cols, w).len(),
    decreases cols - c,
{
    if c < cols {
        lemma_row_free_len_push(r, c + 1, cols, w, x);
        let cell = (c as usize, r as usize);
        assert(w.push(x).contains(cell) <==> (w.contains(cell) || cell == x)) by {
            if w.push(x).contains(cell) {
                let i = choose|i: int| 0 <= i < w.push(x).len() && w.push(x)[i] == cell;
                if i < w.len() {
                    assert(w[i] == cell);
                }
            }
            if w.contains(cell) {
                let i = choose|i: int| 0 <= i < w.len() && w[i] == cell;
                assert(w.push(x)[i] == cell);
            }
            if cell == x {
                assert(w.push(x)[w.len() as int] == cell);
            }
        }
    }
}

proof fn lemma_grid_free_len_push(
    r: nat,
    rows: nat,
    cols: nat,
    w: Seq<(usize, usize)>,
    x: (usize, usize),
)
    requires
        rows <= usize::MAX,
        cols <= usize::MAX,
        !w.contains(x),
        x.0 < cols,
        x.1 < rows,
    ensures
        grid_free(r, rows, cols, w.push(x)).len() + (if r <= x.1 {
            1int
        } else {
            0
        }) == grid_free(r, rows, cols, w).len(),
    decreases rows - r,
{
    if r < rows {
        lemma_grid_free_len_push(r + 1, rows, cols, w, x);
        lemma_row_free_len_push(r, 0, cols, w, x);
    }
}

/// The free cells and the route's cells together cover the grid exactly.
proof fn lemma_free_count(rows: nat, cols: nat, w: Seq<(usize, usize)>)
    requires
        rows <= usize::MAX,
        cols <= usize::MAX,
        w.no_duplicates(),
        forall|i: int| 0 <= i < w.len() ==> (#[trigger] w[i]).0 < cols && w[i].1 < rows,
    ensures
        grid_free(0, rows, cols, w).len() + w.len() == rows * cols,
    decreases w.len(),
{
    if w.len() == 0 {
        assert(w =~= Seq::<(usize, usize)>::empty());
        lemma_grid_free_len_empty(0, rows, cols);
    } else {
        let v = w.drop_last();
        let x = w.last();
        assert(v.push(x) =~= w);
        assert forall|i: int, j: int| 0 <= i < v.len() && 0 <= j < v.len() && i != j implies v[i]
            != v[j] by {
            assert(v[i] == w[i] && v[j] == w[j]);
        }
        assert forall|i: int| 0 <= i < v.len() implies (#[trigger] v[i]).0 < cols && v[i].1 < rows by {
            assert(v[i] == w[i]);
        }
        assert(!v.contains(x)) by {
            if v.contains(x) {
                let i = choose|i: int| 0 <= i < v.len() && v[i] == x;
                assert(w[i] == w[w.len() - 1]);
            }
        }
        lemma_free_count(rows, cols, v);
        lemma_grid_free_len_push(0, rows, cols, v, x);
    }
}

/// Swapping cells keeps a list of distinct cells distinct.
proof fn lemma_shuffle_no_dup(s: Seq<(usize, usize)>, draws: Seq<usize>, i: int)
    requires
        draws_fit(s.len() as int, draws),
        s.no_duplicates(),
    ensures
        shuffle_from(s, draws, i).no_duplicates(),
    decreases i,
{
    if i >= 1 && i < s.len() {
        let j = draws[s.len() - 1 - i] as int;
        let t = swap_at(s, i, j);
        assert(t.len() == s.len());
        assert forall|a: int, b: int| 0 <= a < t.len() && 0 <= b < t.len() && a != b implies t[a]
            != t[b] by {
            let pa = if a == j { i } else if a == i { j } else { a };
            let pb = if b == j { i } else if b == i { j } else { b };
            assert(t[a] == s[pa]);
            assert(t[b] == s[pb]);
        }
        lemma_shuffle_no_dup(t, draws, i - 1);
        assert(shuffle_from(s, draws, i) == shuffle_from(t, draws, i - 1));
    }
}

/// The free cells of the grid, row by row, left to right.
fn free_cells(cols: usize, rows: usize, walked: &Vec<(usize, usize)>) -> (f: Vec<(usize, usize)>)
    ensures
        f@ == grid_free(0, rows as nat, cols as nat, walked@),
{
    let ghost g = grid_free(0, rows as nat, cols as nat, walked@);
    let mut out: Vec<(usize, usize)> = Vec::new();
    let mut r: usize = 0;
    while r < rows
        invariant
            r <= rows,
            g == grid_free(0, rows as nat, cols as nat, walked@),
            out@ + grid_free(r as nat, rows as nat, cols as nat, walked@) == g,
        decreases rows - r,
    {
        proof {
            let rest = grid_free((r + 1) as nat, rows as nat, cols as nat, walked@);
            assert(out@ + (row_free(r as nat, 0, cols as nat, walked@) + rest) =~= out@ + row_free(
                r as nat,
                0,
                cols as nat,
                walked@,
            ) + rest);
        }
        let mut c: usize = 0;
        while c < cols
            invariant
                c <= cols,
                r < rows,
                g == grid_free(0, rows as nat, cols as nat, walked@),
                out@ + row_free(r as nat, c as nat, cols as nat, walked@) + grid_free(
                    (r + 1) as nat,
                    rows as nat,
                    cols as nat,
                    walked@,
                ) == g,
            decreases cols - c,
        {
            let ghost o0 = out@;
            let ghost rest = grid_free((r + 1) as nat, rows as nat, cols as nat, walked@);
            let ghost tail = row_free(r as nat, (c + 1) as nat, cols as nat, walked@);
            if !visited(walked, (c, r)) {
                out.push((c, r));
                proof {
                    assert(o0 + (seq![(c, r)] + tail) + rest =~= out@ + tail + rest);
                }
            } else {
                proof {
                    assert(o0 + (Seq::<(usize, usize)>::empty() + tail) + rest =~= out@ + tail
                        + rest);
                }
            }
            c += 1;
        }
        proof {
            assert(out@ + Seq::<(usize, usize)>::empty() =~= out@);
        }
        r += 1;
    }
    proof {
        assert(out@ + Seq::<(usize, usize)>::empty() =~= out@);
    }
    out
}

/// Whether `draws` fit a shuffle of `n` cells.
fn check_draws(n: usize, draws: &Vec<usize>) -> (b: bool)
    ensures
        b == draws_fit(n as int, draws@),
{
    let want: usize = if n == 0 {
        0
    } else {
        n - 1
    };
    if draws.len() != want {
        return false;
    }
    let mut k: usize = 0;
    while k < draws.len()
        invariant
            k <= draws@.len(),
            draws@.len() == want,
            want == (if n == 0 {
                0
            } else {
                n - 1
            }),
            forall|x: int| 0 <= x < k ==> draws@[x] <= n - 1 - x,
        decreases draws@.len() - k,
    {
        if draws[k] > n - 1 - k {
            return false;
        }
        k += 1;
    }
    true
}

/// Shuffle `cells` in place, Fisher–Yates, by `draws`.
fn shuffle_cells(cells: &mut Vec<(usize, usize)>, draws: &Vec<usize>)
    requires
        draws_fit(old(cells)@.len() as int, draws@),
    ensures
        final(cells)@ == shuffled(old(cells)@, draws@),
{
    let n = cells.len();
    if n == 0 {
        return;
    }
    let mut i: usize = n - 1;
    while i >= 1
        invariant
            i < n,
            n == cells@.len(),
            draws_fit(n as int, draws@),
            shuffle_from(cells@, draws@, i as int) == shuffled(old(cells)@, draws@),
        decreases i,
    {
        let j = draws[n - 1 - i];
        let ghost s0 = cells@;
        let a = cells[i];
        let b = cells[j];
        cells.set(i, b);
        cells.set(j, a);
        proof {
            assert(cells@ =~= swap_at(s0, i as int, j as int));
        }
        i -= 1;
    }
}

/// The cells of `pool`, column by column, top to bottom.
fn scan_cells(cols: usize, rows: usize, pool: &Vec<(usize, usize)>) -> (o: Vec<(usize, usize)>)
    ensures
        o@ == grid_scan(0, cols as nat, rows as nat, pool@),
{
    let ghost g = grid_scan(0, cols as nat, rows as nat, pool@);
    let mut out: Vec<(usize, usize)> = Vec::new();
    let mut c: usize = 0;
    while c < cols
        invariant
            c <= cols,
            g == grid_scan(0, cols as nat, rows as nat, pool@),
            out@ + grid_scan(c as nat, cols as nat, rows as nat, pool@) == g,
        decreases cols - c,
    {
        proof {
            let rest = grid_scan((c + 1) as nat, cols as nat, rows as nat, pool@);
            assert(out@ + (col_scan(c as nat, 0, rows as nat, pool@) + rest) =~= out@ + col_scan(
                c as nat,
                0,
                rows as nat,
                pool@,
            ) + rest);
        }
        let mut r: usize = 0;
        while r < rows
            invariant
                r <= rows,
                c < cols,
                g == grid_scan(0, cols as nat, rows as nat, pool@),
                out@ + col_scan(c as nat, r as nat, rows as nat, pool@) + grid_scan(
                    (c + 1) as nat,
                    cols as nat,
                    rows as nat,
                    pool@,
                ) == g,
            decreases rows - r,
        {
            let ghost o0 = out@;
            let ghost rest = grid_scan((c + 1) as nat, cols as nat, rows as nat, pool@);
            let ghost tail = col_scan(c as nat, (r + 1) as nat, rows as nat, pool@);
            if visited(pool, (c, r)) {
                out.push((c, r));
                proof {
                    assert(o0 + (seq![(c, r)] + tail) + rest =~= out@ + tail + rest);
                }
            } else {
                proof {
                    assert(o0 + (Seq::<(usize, usize)>::empty() + tail) + rest =~= out@ + tail
                        + rest);
                }
            }
            r += 1;
        }
        proof {
            assert(out@ + Seq::<(usize, usize)>::empty() =~= out@);
        }
        c += 1;
    }
    proof {
        assert(out@ + Seq::<(usize, usize)>::empty() =~= out@);
    }
    out
}

/// A generated level: the grid, the route through it, and the crowd around it.
pub struct Level {
    pub cols: usize,
    pub rows: usize,
    /// Player start, on the bottom row.
    pub start: (usize, usize),
    /// Exit, where the route ends.
    pub exit: (usize, usize),
    /// The route as a turn sequence — what the player must reproduce.
    pub path: Vec<Dir>,
    /// Cells the route passes through, start to exit.
    pub walked: Vec<(usize, usize)>,
    /// Crowd-member cells (never on the route), in (column, row) order.
    pub obstacles: Vec<(usize, usize)>,
}

/// Lay a crowd of `crowd_size` around a carved route. The crowd takes the
/// first `crowd_size` (or as many as there are) of the free cells after a
/// Fisher–Yates shuffle by `shuffle_draws`; `None` when the draws do not fit
/// a shuffle of the free cells.
fn lay_crowd(crowd_size: usize, route: RouteCarver, shuffle_draws: &Vec<usize>) -> (l: Option<Level>)
    requires
        route.wf(),
    ensures
        l is None <==> !draws_fit(
            grid_free(0, route.rows as nat, route.cols as nat, route.walked@).len() as int,
            shuffle_draws@,
        ),
        l matches Some(lv) ==> {
            let free = grid_free(0, route.rows as nat, route.cols as nat, route.walked@);
            let k = if crowd_size < free.len() {
                crowd_size as int
            } else {
                free.len() as int
            };
            &&& lv.cols == route.cols
            &&& lv.rows == route.rows
            &&& lv.start == route.walked@[0]
            &&& lv.exit == route.walked@.last()
            &&& lv.path@ == route.path@
            &&& lv.walked@ == route.walked@
            &&& lv.obstacles@ == grid_scan(
                0,
                route.cols as nat,
                route.rows as nat,
                shuffled(free, shuffle_draws@).take(k),
            )
            &&& crowd_facts(lv.cols, lv.rows, lv.walked@, lv.obstacles@, k)
            &&& free.len() + route.walked@.len() == route.cols * route.rows
        },
{
    let mut free = free_cells(route.cols, route.rows, &route.walked);
    let ghost f0 = free@;
    if !check_draws(free.len(), shuffle_draws) {
        return None;
    }
    shuffle_cells(&mut free, shuffle_draws);
    proof {
        lemma_shuffle_len(f0, shuffle_draws@, f0.len() - 1);
    }
    let take = if crowd_size < free.len() {
        crowd_size
    } else {
        free.len()
    };
    let mut taken: Vec<(usize, usize)> = Vec::new();
    let mut i: usize = 0;
    while i < take
        invariant
            i <= take,
            take <= free@.len(),
            taken@ == free@.take(i as int),
        decreases take - i,
    {
        taken.push(free[i]);
        proof {
            assert(free@.take(i + 1) =~= free@.take(i as int).push(free@[i as int]));
        }
        i += 1;
    }
    let obstacles = scan_cells(route.cols, route.rows, &taken);
    proof {
        lemma_grid_free_off_route(0, route.rows as nat, route.cols as nat, route.walked@);
        lemma_shuffle_keeps_cells(f0, shuffle_draws@, f0.len() - 1);
        lemma_grid_scan_in_pool(0, route.cols as nat, route.rows as nat, taken@);
        assert forall|i: int| 0 <= i < obstacles@.len() implies !route.walked@.contains(
            #[trigger] obstacles@[i],
        ) by {
            let x = obstacles@[i];
            assert(obstacles@.contains(x));
            assert(taken@.contains(x));
            let k = choose|k: int| 0 <= k < taken@.len() && taken@[k] == x;
            assert(free@[k] == x);
            assert(free@.contains(x));
            assert(f0.contains(x));
        }
    }
    proof {
        let rows = route.rows as nat;
        let cols = route.cols as nat;
        lemma_free_count(rows, cols, route.walked@);
        lemma_grid_free_facts(0, rows, cols, route.walked@);
        assert(f0.no_duplicates()) by {
            assert forall|a: int, b: int| 0 <= a < f0.len() && 0 <= b < f0.len() && a != b implies f0[a]
                != f0[b] by {
                if a < b {
                    assert(reads_before(f0[a], f0[b]));
                } else {
                    assert(reads_before(f0[b], f0[a]));
                }
            }
        }
        lemma_shuffle_no_dup(f0, shuffle_draws@, f0.len() - 1);
        let t = taken@;
        assert forall|a: int, b: int| 0 <= a < t.len() && 0 <= b < t.len() && a != b implies t[a]
            != t[b] by {
            assert(t[a] == free@[a] && t[b] == free@[b]);
        }
        assert forall|a: int| 0 <= a < t.len() implies (#[trigger] t[a]).0 < cols && t[a].1 < rows by {
            assert(t[a] == free@[a]);
            assert(free@.contains(free@[a]));
            assert(f0.contains(t[a]));
        }
        lemma_grid_scan_facts(0, cols, rows, t);
        let g = obstacles@;
        assert forall|a: int, b: int| 0 <= a < g.len() && 0 <= b < g.len() && a != b implies g[a]
            != g[b] by {
            if a < b {
                assert(cell_before(g[a], g[b]));
            } else {
                assert(cell_before(g[b], g[a]));
            }
        }
        assert(g.to_set() =~= t.to_set()) by {
            assert forall|x: (usize, usize)| g.contains(x) <==> t.contains(x) by {
                if t.contains(x) {
                    let a = choose|a: int| 0 <= a < t.len() && t[a] == x;
                    assert(x.0 < cols && x.1 < rows);
                }
            }
        }
        g.unique_seq_to_set();
        t.unique_seq_to_set();
    }
    let start = route.walked[0];
    let exit = route.walked[route.walked.len() - 1];
    Some(
        Level {
            cols: route.cols,
            rows: route.rows,
            start,
            exit,
            path: route.path,
            walked: route.walked,
            obstacles,
        },
    )
}

/// The crowd of a level: every cell on the grid and off the route, listed in
/// (column, row) order without repeats, `k` of them.
pub open spec fn crowd_facts(
    cols: usize,
    rows: usize,
    walked: Seq<(usize, usize)>,
    obstacles: Seq<(usize, usize)>,
    k: int,
) -> bool {
    &&& obstacles.len() == k
    &&& forall|i: int| 0 <= i < obstacles.len() ==> (#[trigger] obstacles[i]).0 < cols && obstacles[i].1 < rows
    &&& forall|i: int| 0 <= i < obstacles.len() ==> !walked.contains(#[trigger] obstacles[i])
    &&& forall|i: int, j: int|
        0 <= i < j < obstacles.len() ==> cell_before(#[trigger] obstacles[i], #[trigger] obstacles[j])
}

/// The route a level of `crowd` gets from a start column and move picks: on a
/// square grid of the side [`grid_dims`] gives, from the bottom row to the top.
pub open spec fn level_route(crowd: nat, start_col: usize, picks: Seq<usize>) -> Option<
    (Seq<Dir>, Seq<(usize, usize)>),
> {
    let side = grid_side(crowd) as usize;
    if start_col < side {
        carve_spec(side, side, seq![(start_col, (side - 1) as usize)], seq![], picks)
    } else {
        None
    }
}

/// Carving only ever adds cells after the ones already walked.
proof fn lemma_carve_keeps_start(
    cols: usize,
    rows: usize,
    walked: Seq<(usize, usize)>,
    path: Seq<Dir>,
    picks: Seq<usize>,
)
    requires
        walked.len() > 0,
        carve_spec(cols, rows, walked, path, picks) is Some,
    ensures
        (carve_spec(cols, rows, walked, path, picks)->0).1.len() > 0,
        (carve_spec(cols, rows, walked, path, picks)->0).1[0] == walked[0],
    decreases picks.len(),
{
    if walked.last().1 != 0 {
        let d = options_at(cols, rows, walked)[picks[0] as int];
        let w2 = walked.push(step_to(walked.last(), d));
        assert(w2[0] == walked[0]);
        lemma_carve_keeps_start(cols, rows, w2, path.push(d), picks.drop_first());
    }
}

/// Build a level for a crowd of `crowd_size` from the caller's draws: the
/// start column on the bottom row, a pick among the moves on offer at each
/// cell of the route, and the Fisher–Yates draws that shuffle the free cells
/// before the crowd takes the first of them. The same draws give the same
/// level. `None` when a draw does not fit: a start column off the grid, picks
/// that run out or name no move on offer, or shuffle draws that do not fit the
/// free cells.
pub fn build_level(
    crowd_size: usize,
    start_col: usize,
    picks: &Vec<usize>,
    shuffle_draws: &Vec<usize>,
) -> (l: Option<Level>)
    requires
        2 * crowd_size + 4 <= usize::MAX,
    ensures
        l is None <==> (level_route(crowd_size as nat, start_col, picks@) is None || !draws_fit(
            grid_free(
                0,
                grid_side(crowd_size as nat),
                grid_side(crowd_size as nat),
                (level_route(crowd_size as nat, start_col, picks@)->0).1,
            ).len() as int,
            shuffle_draws@,
        )),
        l matches Some(lv) ==> {
            let side = grid_side(crowd_size as nat);
            let (path, walked) = level_route(crowd_size as nat, start_col, picks@)->0;
            let free = grid_free(0, side, side, walked);
            let k = if crowd_size < free.len() {
                crowd_size as int
            } else {
                free.len() as int
            };
            &&& lv.cols == side && lv.rows == side
            &&& lv.path@ == path && lv.walked@ == walked
            &&& is_route(lv.cols, lv.rows, path, walked)
            &&& lv.start == (start_col, (side - 1) as usize) && lv.start == walked[0]
            &&& lv.exit == walked.last() && lv.exit.1 == 0
            &&& lv.obstacles@ == grid_scan(0, side, side, shuffled(free, shuffle_draws@).take(k))
            &&& crowd_facts(lv.cols, lv.rows, walked, lv.obstacles@, k)
            &&& free.len() + walked.len() == side * side
        },
{
    let (cols, rows) = grid_dims(crowd_size);
    proof {
        law_grid_grows_with_the_crowd(crowd_size as nat, crowd_size as nat);
    }
    if start_col >= cols {
        return None;
    }
    let route = match carve_route(cols, rows, start_col, picks) {
        Some(rc) => rc,
        None => {
            return None;
        },
    };
    proof {
        lemma_carve_keeps_start(cols, rows, seq![(start_col, (rows - 1) as usize)], seq![], picks@);
    }
    lay_crowd(crowd_size, route, shuffle_draws)
}

} // verus!
