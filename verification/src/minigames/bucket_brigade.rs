//! BucketBrigade — triage against a spreading threat: the board. A row-major
//! grid of safe/active cells ("active" is a live threat — a flame, a leak).
//! Each spread step reads a frozen snapshot, so a cell that catches this step
//! does not go on to ignite its neighbours within it. The dice are rolled by
//! the caller: a step takes, for each currently-safe cell in row-major order,
//! whether its roll came under the spread chance.

use vstd::prelude::*;

verus! {

/// How many cells of `s` are lit.
pub open spec fn count_lit(s: Seq<bool>) -> nat
    decreases s.len(),
{
    if s.len() == 0 {
        0
    } else {
        count_lit(s.drop_last()) + if s.last() {
            1nat
        } else {
            0nat
        }
    }
}

/// How many cells before `i` are safe: the rank of cell `i` among the safe
/// cells, in row-major order.
pub open spec fn safe_before(s: Seq<bool>, i: int) -> nat
    decreases i,
{
    if i <= 0 {
        0
    } else {
        safe_before(s, i - 1) + if s[i - 1] {
            0nat
        } else {
            1nat
        }
    }
}

/// Whether cell `i` of a `cols`-wide, `rows`-high board has a lit orthogonal
/// neighbour.
pub open spec fn lit_neighbour(s: Seq<bool>, cols: nat, rows: nat, i: int) -> bool {
    let c = i % (cols as int);
    let r = i / (cols as int);
    ||| (c > 0 && s[i - 1])
    ||| (c + 1 < cols && s[i + 1])
    ||| (r > 0 && s[i - cols])
    ||| (r + 1 < rows && s[i + cols])
}

/// A cell after one spread step: still lit if it was, and newly lit if it had
/// a lit neighbour in the snapshot and its roll (the one it drew, by its rank
/// among the safe cells) came under the chance.
pub open spec fn spread_cell(s: Seq<bool>, cols: nat, rows: nat, catches: Seq<bool>, i: int) -> bool {
    s[i] || (lit_neighbour(s, cols, rows, i) && catches[safe_before(s, i) as int])
}

/// The whole board after one spread step.
pub open spec fn spread_spec(s: Seq<bool>, cols: nat, rows: nat, catches: Seq<bool>) -> Seq<bool> {
    Seq::new(s.len(), |i: int| spread_cell(s, cols, rows, catches, i))
}

/// A row-major grid of safe/active cells — the pure core of the game.
#[derive(Debug)]
pub struct Board {
    cols: usize,
    rows: usize,
    /// `cols * rows` flags, row-major; `true` = a live threat.
    active: Vec<bool>,
    /// Reusable double buffer for [`Board::spread`]: holds the frozen pre-step
    /// snapshot so a step does no allocation. Not part of the observable state.
    prev: Vec<bool>,
}

impl Board {
    /// Well-formed: at least 2×2, with one flag per cell in both buffers.
    pub closed spec fn wf(self) -> bool {
        &&& self.cols >= 2
        &&& self.rows >= 2
        &&& self.active@.len() == self.cols * self.rows
        &&& self.prev@.len() == self.cols * self.rows
    }

    /// Grid width.
    pub closed spec fn width(self) -> nat {
        self.cols as nat
    }

    /// Grid height.
    pub closed spec fn height(self) -> nat {
        self.rows as nat
    }

    /// The cells, row-major; `true` = a live threat.
    pub closed spec fn cells(self) -> Seq<bool> {
        self.active@
    }

    /// A fresh all-safe board. `cols`/`rows` are floored at 2 so the grid is
    /// never degenerate (a single row or column has no interior for threats to
    /// spread through).
    pub fn new(cols: usize, rows: usize) -> (b: Board)
        requires
            (if cols < 2 { 2 } else { cols as int }) * (if rows < 2 { 2 } else { rows as int }) <= usize::MAX,
        ensures
            b.wf(),
            b.width() == if cols < 2 { 2 } else { cols as int },
            b.height() == if rows < 2 { 2 } else { rows as int },
            b.cells() == Seq::new(b.width() * b.height(), |i: int| false),
    {
        let cols = if cols < 2 {
            2
        } else {
            cols
        };
        let rows = if rows < 2 {
            2
        } else {
            rows
        };
        let n = cols * rows;
        let mut active: Vec<bool> = Vec::new();
        let mut prev: Vec<bool> = Vec::new();
        let mut i: usize = 0;
        while i < n
            invariant
                i <= n,
                active@ == Seq::new(i as nat, |j: int| false),
                prev@.len() == i,
            decreases n - i,
        {
            active.push(false);
            prev.push(false);
            i += 1;
        }
        Board { cols, rows, active, prev }
    }

    /// The row-major index of column `c`, row `r`.
    pub fn idx(&self, c: usize, r: usize) -> (i: usize)
        requires
            r * self.width() + c <= usize::MAX,
        ensures
            i == r * self.width() + c,
    {
        r * self.cols + c
    }

    /// Grid width, after the min-grid floor in [`Board::new`].
    pub fn cols(&self) -> (c: usize)
        ensures
            c == self.width(),
    {
        self.cols
    }

    /// Grid height, after the min-grid floor in [`Board::new`].
    pub fn rows(&self) -> (r: usize)
        ensures
            r == self.height(),
    {
        self.rows
    }

    /// Total cell count (`cols * rows`).
    pub fn capacity(&self) -> (n: usize)
        requires
            self.wf(),
        ensures
            n == self.cells().len(),
            n == self.width() * self.height(),
    {
        self.active.len()
    }

    /// How many threats are live right now.
    pub fn active_count(&self) -> (n: usize)
        ensures
            n == count_lit(self.cells()),
    {
        let mut n: usize = 0;
        let mut i: usize = 0;
        while i < self.active.len()
            invariant
                i <= self.active@.len(),
                n == count_lit(self.active@.take(i as int)),
                n <= i,
            decreases self.active@.len() - i,
        {
            proof {
                assert(self.active@.take(i + 1).drop_last() =~= self.active@.take(i as int));
            }
            if self.active[i] {
                n += 1;
            }
            i += 1;
        }
        proof {
            assert(self.active@.take(self.active@.len() as int) =~= self.active@);
        }
        n
    }

    /// Whether the cell at `idx` carries a live threat (`false` out of range).
    pub fn is_active(&self, idx: usize) -> (b: bool)
        ensures
            b == (idx < self.cells().len() && self.cells()[idx as int]),
    {
        if idx < self.active.len() {
            self.active[idx]
        } else {
            false
        }
    }

    /// Knock out the threat at `idx` (a player tap). A no-op on an already-safe
    /// cell or an out-of-range index, so taps are always harmless.
    pub fn extinguish(&mut self, idx: usize)
        requires
            old(self).wf(),
        ensures
            final(self).wf(),
            final(self).width() == old(self).width(),
            final(self).height() == old(self).height(),
            final(self).cells() == if idx < old(self).cells().len() {
                old(self).cells().update(idx as int, false)
            } else {
                old(self).cells()
            },
    {
        self.set_cell(idx, false);
    }

    /// Light a threat at `idx` — one placement of the starting threats. A
    /// no-op on an already-lit cell or an out-of-range index.
    pub fn ignite(&mut self, idx: usize)
        requires
            old(self).wf(),
        ensures
            final(self).wf(),
            final(self).width() == old(self).width(),
            final(self).height() == old(self).height(),
            final(self).cells() == if idx < old(self).cells().len() {
                old(self).cells().update(idx as int, true)
            } else {
                old(self).cells()
            },
    {
        self.set_cell(idx, true);
    }

    fn set_cell(&mut self, idx: usize, lit: bool)
        requires
            old(self).wf(),
        ensures
            final(self).wf(),
            final(self).width() == old(self).width(),
            final(self).height() == old(self).height(),
            final(self).cells() == if idx < old(self).cells().len() {
                old(self).cells().update(idx as int, lit)
            } else {
                old(self).cells()
            },
    {
        if idx < self.active.len() {
            self.active.set(idx, lit);
        }
    }

    /// Advance the spread by one step. Reads a frozen snapshot, so a cell that
    /// catches this step does not ignite its own neighbours within it. Cells are
    /// visited in row-major order and each currently-safe cell consumes the next
    /// entry of `catches`: whether its roll came under the spread chance. A safe
    /// cell catches when it has a lit orthogonal neighbour and its roll hit.
    pub fn spread(&mut self, catches: &[bool])
        requires
            old(self).wf(),
            catches@.len() == safe_before(old(self).cells(), old(self).cells().len() as int),
        ensures
            final(self).wf(),
            final(self).width() == old(self).width(),
            final(self).height() == old(self).height(),
            final(self).cells() == spread_spec(old(self).cells(), old(self).width(), old(self).height(), catches@),
    {
        let cols = self.cols;
        let rows = self.rows;
        let mut cells: Vec<bool> = Vec::new();
        std::mem::swap(&mut cells, &mut self.active);
        let mut snap: Vec<bool> = Vec::new();
        std::mem::swap(&mut snap, &mut self.prev);
        let n = cells.len();
        let ghost s = cells@;
        // Freeze the current state into the snapshot buffer.
        let mut j: usize = 0;
        while j < n
            invariant
                j <= n,
                n == s.len(),
                cells@ == s,
                snap@.len() == n,
                forall|x: int| 0 <= x < j ==> snap@[x] == s[x],
            decreases n - j,
        {
            snap.set(j, cells[j]);
            j += 1;
        }
        assert(snap@ =~= s);
        let mut k: usize = 0;
        let mut i: usize = 0;
        while i < n
            invariant
                i <= n,
                n == s.len(),
                n == cols * rows,
                cols >= 2,
                rows >= 2,
                snap@ == s,
                cells@.len() == n,
                catches@.len() == safe_before(s, n as int),
                k == safe_before(s, i as int),
                forall|x: int| 0 <= x < i ==> cells@[x] == spread_cell(s, cols as nat, rows as nat, catches@, x),
                forall|x: int| i <= x < n ==> cells@[x] == s[x],
            decreases n - i,
        {
            proof {
                lemma_safe_before_bound(s, i as int, n as int);
            }
            if !snap[i] {
                let hit = catches[k];
                k += 1;
                let c = i % cols;
                let r = i / cols;
                proof {
                    lemma_row_col(i as int, cols as int, rows as int);
                }
                let near = (c > 0 && snap[i - 1]) || (c + 1 < cols && snap[i + 1]) || (r > 0
                    && snap[i - cols]) || (r + 1 < rows && snap[i + cols]);
                if near && hit {
                    cells.set(i, true);
                }
            }
            i += 1;
        }
        assert(cells@ =~= spread_spec(s, cols as nat, rows as nat, catches@));
        self.active = cells;
        self.prev = snap;
    }
}

proof fn lemma_safe_before_bound(s: Seq<bool>, i: int, n: int)
    requires
        0 <= i < n,
        n == s.len(),
    ensures
        safe_before(s, i) + (if s[i] { 0int } else { 1int }) <= safe_before(s, n),
        safe_before(s, i + 1) == safe_before(s, i) + (if s[i] { 0int } else { 1int }),
    decreases n - i,
{
    if i + 1 < n {
        lemma_safe_before_bound(s, i + 1, n);
    }
}

proof fn lemma_row_col(i: int, cols: int, rows: int)
    requires
        0 <= i < cols * rows,
        cols >= 2,
        rows >= 2,
    ensures
        i == (i / cols) * cols + i % cols,
        0 <= i % cols < cols,
        0 <= i / cols < rows,
        i % cols > 0 ==> i - 1 >= 0,
        i % cols + 1 < cols ==> i + 1 < cols * rows,
        i / cols > 0 ==> i - cols >= 0,
        i / cols + 1 < rows ==> i + cols < cols * rows,
{
    assert(i == (i / cols) * cols + i % cols) by (nonlinear_arith)
        requires
            cols > 0,
    ;
    assert(0 <= i / cols < rows) by (nonlinear_arith)
        requires
            0 <= i < cols * rows,
            cols > 0,
    ;
    assert(i % cols + 1 < cols ==> i + 1 < cols * rows) by (nonlinear_arith)
        requires
            i == (i / cols) * cols + i % cols,
            0 <= i / cols < rows,
            0 <= i % cols < cols,
            cols > 0,
    ;
    assert(i / cols > 0 ==> i - cols >= 0) by (nonlinear_arith)
        requires
            i == (i / cols) * cols + i % cols,
            0 <= i % cols < cols,
            cols > 0,
    ;
    assert(i / cols + 1 < rows ==> i + cols < cols * rows) by (nonlinear_arith)
        requires
            i == (i / cols) * cols + i % cols,
            0 <= i % cols < cols,
            cols > 0,
    ;
}

/// A spread step never puts out a threat: every lit cell stays lit, so the
/// live count never drops.
pub proof fn law_spread_only_adds(s: Seq<bool>, cols: nat, rows: nat, catches: Seq<bool>)
    ensures
        forall|i: int| 0 <= i < s.len() && s[i] ==> #[trigger] spread_spec(s, cols, rows, catches)[i],
{
}

/// Only an orthogonal neighbour of a threat that was already lit before the
/// step can catch, so a cell that catches this step spreads no further within
/// it.
pub proof fn law_spread_needs_a_lit_neighbour(s: Seq<bool>, cols: nat, rows: nat, catches: Seq<bool>)
    ensures
        forall|i: int|
            0 <= i < s.len() && !s[i] && #[trigger] spread_spec(s, cols, rows, catches)[i] ==> lit_neighbour(
                s,
                cols,
                rows,
                i,
            ),
{
}

/// When no roll comes under the chance, nothing spreads.
pub proof fn law_no_catch_no_growth(s: Seq<bool>, cols: nat, rows: nat, catches: Seq<bool>)
    requires
        forall|k: int| 0 <= k < catches.len() ==> !(#[trigger] catches[k]),
        catches.len() == safe_before(s, s.len() as int),
    ensures
        spread_spec(s, cols, rows, catches) == s,
{
    assert forall|i: int| 0 <= i < s.len() implies #[trigger] spread_spec(s, cols, rows, catches)[i] == s[i] by {
        if !s[i] {
            lemma_safe_before_bound(s, i, s.len() as int);
        }
    }
    assert(spread_spec(s, cols, rows, catches) =~= s);
}

proof fn lemma_count_update(s: Seq<bool>, i: int, v: bool)
    requires
        0 <= i < s.len(),
    ensures
        count_lit(s.update(i, v)) + (if s[i] { 1int } else { 0int }) == count_lit(s) + (if v { 1int } else { 0int }),
    decreases s.len(),
{
    if i < s.len() - 1 {
        lemma_count_update(s.drop_last(), i, v);
        assert(s.update(i, v).drop_last() =~= s.drop_last().update(i, v));
    } else {
        assert(s.update(i, v).drop_last() =~= s.drop_last());
    }
}

/// Putting out a live threat lowers the live count by exactly one; tapping a
/// safe cell (or tapping twice) changes nothing.
pub proof fn law_extinguish_drops_one(s: Seq<bool>, i: int)
    requires
        0 <= i < s.len(),
    ensures
        count_lit(s.update(i, false)) == if s[i] { count_lit(s) - 1 } else { count_lit(s) as int },
        s.update(i, false).update(i, false) == s.update(i, false),
        !s[i] ==> s.update(i, false) == s,
{
    lemma_count_update(s, i, false);
    assert(s.update(i, false).update(i, false) =~= s.update(i, false));
    if !s[i] {
        assert(s.update(i, false) =~= s);
    }
}

/// Granularity of the run's clock, in milliseconds.
pub const TICK_MS: u32 = 20;

/// The outcome of one run, handed to the host.
#[derive(Debug, Clone, Copy, PartialEq, Eq, Structural)]
pub struct BucketBrigadeResult {
    /// Whether the threats were beaten back to zero before time ran out.
    pub contained: bool,
    /// Worst simultaneous threat count seen over the run.
    pub peak_active: usize,
    /// Threats still burning when the clock ran out (`0` if contained).
    pub leaked: usize,
}

/// A run in progress: the board, the clock, and the worst moment so far.
pub struct BrigadeRun {
    pub board: Board,
    /// Clock ticks between spread steps (at least one).
    pub spread_every: u32,
    /// How long the run lasts, in milliseconds.
    pub duration_ms: u32,
    /// Clock ticks so far.
    pub ticks: u32,
    /// Worst simultaneous threat count so far.
    pub peak: usize,
    /// Whether the run has ended.
    pub done: bool,
}

impl BrigadeRun {
    /// The run's invariant: a well-formed board, and a peak that is at least
    /// the threats burning now.
    pub open spec fn wf(self) -> bool {
        &&& self.board.wf()
        &&& self.spread_every >= 1
        &&& self.peak >= count_lit(self.board.cells())
        &&& self.peak <= self.board.cells().len()
    }

    /// Start a run on a board already lit with its starting threats; a spread
    /// every `spread_ms` (at least one tick), for `duration_ms`.
    pub fn new(board: Board, spread_ms: u32, duration_ms: u32) -> (r: BrigadeRun)
        requires
            board.wf(),
        ensures
            r.wf(),
            r.board == board,
            r.spread_every == if spread_ms / TICK_MS < 1 { 1 } else { spread_ms / TICK_MS },
            r.duration_ms == duration_ms,
            r.ticks == 0,
            r.peak == count_lit(board.cells()),
            !r.done,
    {
        let every = spread_ms / TICK_MS;
        let peak = board.active_count();
        proof {
            lemma_count_lit_bound(board.cells());
        }
        BrigadeRun {
            board,
            spread_every: if every < 1 {
                1
            } else {
                every
            },
            duration_ms,
            ticks: 0,
            peak,
            done: false,
        }
    }

    /// Whether the coming tick is a spread step.
    pub open spec fn spreads_next(self) -> bool {
        (self.ticks + 1) % (self.spread_every as int) == 0
    }

    /// One clock tick: on the spread cadence the board spreads (with the
    /// rolls `catches`, one per safe cell), then the peak is updated, and the
    /// run ends when the grid is clear or the time is up.
    pub fn tick(&mut self, catches: &[bool]) -> (r: Option<BucketBrigadeResult>)
        requires
            old(self).wf(),
            old(self).ticks < u32::MAX,
            (old(self).ticks + 1) * TICK_MS <= u32::MAX,
            !old(self).done && old(self).spreads_next() ==> catches@.len() == safe_before(
                old(self).board.cells(),
                old(self).board.cells().len() as int,
            ),
        ensures
            final(self).wf(),
            final(self).spread_every == old(self).spread_every,
            final(self).duration_ms == old(self).duration_ms,
            final(self).board.width() == old(self).board.width(),
            final(self).board.height() == old(self).board.height(),
            old(self).done ==> r is None && *final(self) == *old(self),
            !old(self).done ==> {
                let cells = if old(self).spreads_next() {
                    spread_spec(old(self).board.cells(), old(self).board.width(), old(self).board.height(), catches@)
                } else {
                    old(self).board.cells()
                };
                let active = count_lit(cells);
                let t = old(self).ticks + 1;
                &&& final(self).ticks == t
                &&& final(self).board.cells() == cells
                &&& final(self).peak == if active > old(self).peak { active } else { old(self).peak as nat }
                &&& final(self).done == (active == 0 || t * TICK_MS >= old(self).duration_ms)
                &&& r == if final(self).done {
                    Some(BucketBrigadeResult { contained: active == 0, peak_active: final(self).peak, leaked: active as usize })
                } else {
                    None
                }
            },
    {
        if self.done {
            return None;
        }
        let t = self.ticks + 1;
        self.ticks = t;
        if t % self.spread_every == 0 {
            self.board.spread(catches);
        }
        let active = self.board.active_count();
        proof {
            lemma_count_lit_bound(self.board.cells());
        }
        if active > self.peak {
            self.peak = active;
        }
        if active == 0 || t * TICK_MS >= self.duration_ms {
            self.done = true;
            return Some(BucketBrigadeResult { contained: active == 0, peak_active: self.peak, leaked: active });
        }
        None
    }

    /// A tap on a cell puts out its threat; ignored once the run is over.
    pub fn tap(&mut self, idx: usize)
        requires
            old(self).wf(),
        ensures
            final(self).wf(),
            final(self).spread_every == old(self).spread_every,
            final(self).duration_ms == old(self).duration_ms,
            final(self).board.width() == old(self).board.width(),
            final(self).board.height() == old(self).board.height(),
            old(self).done ==> *final(self) == *old(self),
            !old(self).done ==> final(self).board.cells() == if idx < old(self).board.cells().len() {
                old(self).board.cells().update(idx as int, false)
            } else {
                old(self).board.cells()
            } && final(self).peak == old(self).peak && final(self).ticks == old(self).ticks && !final(self).done,
    {
        if self.done {
            return;
        }
        proof {
            if idx < self.board.cells().len() {
                lemma_count_update(self.board.cells(), idx as int, false);
            }
        }
        self.board.extinguish(idx);
    }
}

proof fn lemma_count_lit_bound(s: Seq<bool>)
    ensures
        count_lit(s) <= s.len(),
    decreases s.len(),
{
    if s.len() > 0 {
        lemma_count_lit_bound(s.drop_last());
    }
}

/// Cells `i` and `j` of a row-major grid `cols` wide sit side by side or one
/// above the other: their columns and rows differ by one in total.
pub open spec fn adjacent(cols: nat, i: int, j: int) -> bool {
    let dc = i % (cols as int) - j % (cols as int);
    let dr = i / (cols as int) - j / (cols as int);
    (if dc < 0 { -dc } else { dc }) + (if dr < 0 { -dr } else { dr }) == 1
}

proof fn lemma_row_below(x: int, cols: int, rows: int)
    requires
        cols > 0,
        0 <= x < cols * rows,
    ensures
        0 <= x / cols < rows,
{
    vstd::arithmetic::div_mod::lemma_fundamental_div_mod(x, cols);
    let q = x / cols;
    let r = x % cols;
    assert(0 <= q < rows) by (nonlinear_arith)
        requires
            x == cols * q + r,
            0 <= r < cols,
            0 <= x < cols * rows,
            cols > 0,
    ;
}

/// Fire reaches a cell only from an orthogonal neighbour on the grid: a cell
/// has a lit neighbour exactly when some lit cell sits one step away in
/// column or row — never across the wrap from one row's end to the next
/// row's start.
pub proof fn law_fire_spreads_only_between_grid_neighbours(s: Seq<bool>, cols: nat, rows: nat, i: int)
    requires
        cols >= 1,
        s.len() == cols * rows,
        0 <= i < s.len(),
    ensures
        lit_neighbour(s, cols, rows, i) <==> exists|j: int|
            0 <= j < s.len() && s[j] && #[trigger] adjacent(cols, i, j),
{
    let w = cols as int;
    let h = rows as int;
    vstd::arithmetic::div_mod::lemma_fundamental_div_mod(i, w);
    let c = i % w;
    let r = i / w;
    lemma_row_below(i, w, h);
    assert(i == r * w + c) by (nonlinear_arith)
        requires
            i == w * (i / w) + i % w,
            r == i / w,
            c == i % w,
    ;
    if lit_neighbour(s, cols, rows, i) {
        if c > 0 && s[i - 1] {
            vstd::arithmetic::div_mod::lemma_fundamental_div_mod_converse(i - 1, w, r, c - 1);
            assert(adjacent(cols, i, i - 1));
        } else if c + 1 < w && s[i + 1] {
            vstd::arithmetic::div_mod::lemma_fundamental_div_mod_converse(i + 1, w, r, c + 1);
            assert(i + 1 < s.len()) by (nonlinear_arith)
                requires
                    i + 1 == r * w + c + 1,
                    c + 1 < w,
                    0 <= r < h,
                    w > 0,
                    s.len() == w * h,
            ;
            assert(adjacent(cols, i, i + 1));
        } else if r > 0 && s[i - w] {
            assert(i - w == (r - 1) * w + c) by (nonlinear_arith)
                requires
                    i == r * w + c,
            ;
            vstd::arithmetic::div_mod::lemma_fundamental_div_mod_converse(i - w, w, r - 1, c);
            assert(adjacent(cols, i, i - w));
        } else {
            assert(r + 1 < h && s[i + w]);
            assert(i + w == (r + 1) * w + c) by (nonlinear_arith)
                requires
                    i == r * w + c,
            ;
            vstd::arithmetic::div_mod::lemma_fundamental_div_mod_converse(i + w, w, r + 1, c);
            assert(i + w < s.len()) by (nonlinear_arith)
                requires
                    i + w == (r + 1) * w + c,
                    c < w,
                    0 <= r,
                    r + 1 < h,
                    w > 0,
                    s.len() == w * h,
            ;
            assert(adjacent(cols, i, i + w));
        }
    }
    if exists|j: int| 0 <= j < s.len() && s[j] && #[trigger] adjacent(cols, i, j) {
        let j = choose|j: int| 0 <= j < s.len() && s[j] && #[trigger] adjacent(cols, i, j);
        vstd::arithmetic::div_mod::lemma_fundamental_div_mod(j, w);
        let cj = j % w;
        let rj = j / w;
        lemma_row_below(j, w, h);
        assert(j == rj * w + cj) by (nonlinear_arith)
            requires
                j == w * (j / w) + j % w,
                rj == j / w,
                cj == j % w,
        ;
        if rj == r {
            if cj == c - 1 {
                assert(j == i - 1);
            } else {
                assert(cj == c + 1);
                assert(j == i + 1);
            }
        } else if rj == r - 1 {
            assert(cj == c);
            assert(j == i - w) by (nonlinear_arith)
                requires
                    j == rj * w + cj,
                    i == r * w + c,
                    rj == r - 1,
                    cj == c,
            ;
        } else {
            assert(rj == r + 1 && cj == c);
            assert(j == i + w) by (nonlinear_arith)
                requires
                    j == rj * w + cj,
                    i == r * w + c,
                    rj == r + 1,
                    cj == c,
            ;
        }
    }
}

} // verus!
