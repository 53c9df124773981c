//! Hunter — a shooting gallery: the rifle and the range. A hunter on the
//! bottom row slides left and right and fires straight up at a quarry bouncing
//! along the top row. It is a single-shot rifle: every shot must be followed by
//! a reload, which takes a while, and ammo is finite — once the last round is
//! spent on a miss, the round is lost. The quarry's column is supplied by the
//! host at each shot.

use vstd::prelude::*;

verus! {

/// Granularity of the motion and reload clock, in milliseconds.
pub const TICK_MS: u32 = 20;

/// Ticks the bullet tracer stays visible after a shot. A terminal shot defers
/// ending the round by this long so the bullet is seen.
pub const TRACER_TICKS: u32 = 6;

/// The outcome of one Hunter round, handed to the host.
#[derive(Debug, Clone, Copy, PartialEq, Eq, Structural)]
pub struct HunterResult {
    /// Whether a shot landed on the quarry (the round was won).
    pub hit: bool,
    /// Rounds fired before the round ended (hit, or ammo exhausted).
    pub shots_fired: usize,
}

/// A round on the range in progress.
#[derive(Debug, Clone, Copy, PartialEq, Eq, Structural)]
pub struct HunterRange {
    /// Range width in cells (at least two).
    pub cols: usize,
    /// The hunter's column.
    pub hunter: usize,
    /// Whether a round is chambered.
    pub loaded: bool,
    /// Whether a reload is under way.
    pub reloading: bool,
    /// The tick at which the running reload finishes.
    pub reload_done_tick: u32,
    /// Clock ticks a reload takes (at least one).
    pub reload_ticks: u32,
    /// Rounds left, the chambered one included.
    pub ammo_left: usize,
    /// Rounds fired so far.
    pub shots_fired: usize,
    /// The tick of the last shot, if any (drives the tracer).
    pub fired_tick: Option<u32>,
    /// The outcome of a terminal shot, locked when fired and reported once the
    /// tracer has flown.
    pub pending: Option<HunterResult>,
    /// Clock ticks so far.
    pub ticks: u32,
    /// Whether the round has ended.
    pub done: bool,
}

/// `x` clamped to `lo..=hi`.
pub open spec fn clamp(x: int, lo: int, hi: int) -> int {
    if x < lo {
        lo
    } else if x > hi {
        hi
    } else {
        x
    }
}

impl HunterRange {
    /// The range's invariant: the hunter is on the range, a chambered round is
    /// a round in hand and rules out a reload, the rounds fired and left fit a
    /// `usize`, and a locked outcome belongs to a shot.
    pub open spec fn wf(self) -> bool {
        &&& self.cols >= 2
        &&& self.hunter < self.cols
        &&& self.reload_ticks >= 1
        &&& self.loaded ==> self.ammo_left >= 1 && !self.reloading
        &&& self.reloading ==> self.ammo_left >= 1 && self.pending is None
        &&& self.shots_fired + self.ammo_left <= usize::MAX
        &&& self.pending is Some ==> self.fired_tick is Some && !self.loaded
        &&& self.pending matches Some(res) ==> res.shots_fired == self.shots_fired && (res.hit
            || self.ammo_left == 0)
    }

    /// Whether the rifle can fire now.
    pub open spec fn can_fire(self) -> bool {
        self.loaded && !self.reloading && !self.done
    }

    /// Whether a reload can start now: the chamber is empty, no reload is
    /// running, a round is left, and the round has not been decided.
    pub open spec fn can_reload(self) -> bool {
        !self.loaded && !self.reloading && self.ammo_left > 0 && !self.done && self.pending is None
    }

    /// Step onto the range: the grid floored at two columns, at least one
    /// round, loaded, and a reload of `reload_ms` (at least one tick).
    pub fn new(cols: usize, start_col: usize, ammo: usize, reload_ms: u32) -> (h: HunterRange)
        requires
            start_col < (if cols < 2 { 2 } else { cols }),
        ensures
            h.wf(),
            h == (HunterRange {
                cols: if cols < 2 { 2 } else { cols },
                hunter: start_col,
                loaded: true,
                reloading: false,
                reload_done_tick: 0,
                reload_ticks: if reload_ms / TICK_MS < 1 { 1 } else { reload_ms / TICK_MS },
                ammo_left: if ammo < 1 { 1 } else { ammo },
                shots_fired: 0,
                fired_tick: None,
                pending: None,
                ticks: 0,
                done: false,
            }),
    {
        let reload_ticks = reload_ms / TICK_MS;
        HunterRange {
            cols: if cols < 2 {
                2
            } else {
                cols
            },
            hunter: start_col,
            loaded: true,
            reloading: false,
            reload_done_tick: 0,
            reload_ticks: if reload_ticks < 1 {
                1
            } else {
                reload_ticks
            },
            ammo_left: if ammo < 1 {
                1
            } else {
                ammo
            },
            shots_fired: 0,
            fired_tick: None,
            pending: None,
            ticks: 0,
            done: false,
        }
    }

    /// Fire up the hunter's column at the quarry in `quarry_col`. The chamber
    /// empties and a round is spent; a hit, or spending the last round on a
    /// miss, locks the outcome, reported once the tracer has flown. Ignored
    /// unless a round is chambered and the round is undecided.
    pub fn fire(&mut self, quarry_col: usize)
        requires
            old(self).wf(),
        ensures
            final(self).wf(),
            !old(self).can_fire() ==> *final(self) == *old(self),
            old(self).can_fire() ==> *final(self) == (HunterRange {
                loaded: false,
                fired_tick: Some(old(self).ticks),
                ammo_left: (old(self).ammo_left - 1) as usize,
                shots_fired: (old(self).shots_fired + 1) as usize,
                pending: if quarry_col == old(self).hunter || old(self).ammo_left == 1 {
                    Some(
                        HunterResult {
                            hit: quarry_col == old(self).hunter,
                            shots_fired: (old(self).shots_fired + 1) as usize,
                        },
                    )
                } else {
                    old(self).pending
                },
                ..*old(self)
            }),
    {
        if !(self.loaded && !self.reloading && !self.done) {
            return;
        }
        self.loaded = false;
        self.fired_tick = Some(self.ticks);
        self.ammo_left = self.ammo_left - 1;
        self.shots_fired = self.shots_fired + 1;
        let hit = quarry_col == self.hunter;
        if hit || self.ammo_left == 0 {
            self.pending = Some(HunterResult { hit, shots_fired: self.shots_fired });
        }
    }

    /// Start chambering the next round; it is ready `reload_ticks` ticks from
    /// now. Ignored unless a reload can start.
    pub fn reload(&mut self)
        requires
            old(self).wf(),
            old(self).can_reload() ==> old(self).ticks + old(self).reload_ticks <= u32::MAX,
        ensures
            final(self).wf(),
            !old(self).can_reload() ==> *final(self) == *old(self),
            old(self).can_reload() ==> *final(self) == (HunterRange {
                reloading: true,
                reload_done_tick: (old(self).ticks + old(self).reload_ticks) as u32,
                ..*old(self)
            }),
    {
        if self.loaded || self.reloading || self.ammo_left == 0 || self.done || self.pending.is_some() {
            return;
        }
        self.reloading = true;
        self.reload_done_tick = self.ticks + self.reload_ticks;
    }

    /// Slide the hunter by `delta` columns, clamped to the range. Ignored once
    /// the round is over.
    pub fn step(&mut self, delta: i64)
        requires
            old(self).wf(),
            old(self).cols <= i64::MAX,
            i64::MIN <= old(self).hunter + delta <= i64::MAX,
        ensures
            final(self).wf(),
            old(self).done ==> *final(self) == *old(self),
            !old(self).done ==> *final(self) == (HunterRange {
                hunter: clamp(old(self).hunter + delta, 0, old(self).cols - 1) as usize,
                ..*old(self)
            }),
    {
        if self.done {
            return;
        }
        let next = (self.hunter as i64) + delta;
        let last = (self.cols - 1) as i64;
        let clamped: i64 = if next < 0 {
            0
        } else if next > last {
            last
        } else {
            next
        };
        self.hunter = clamped as usize;
    }

    /// One clock tick: a running reload finishes when its time is up, and a
    /// locked outcome is reported (ending the round) once the tracer has
    /// flown. Nothing happens once the round is over.
    pub fn tick(&mut self) -> (r: Option<HunterResult>)
        requires
            old(self).wf(),
            old(self).ticks < u32::MAX,
            old(self).fired_tick matches Some(ft) ==> ft + TRACER_TICKS <= u32::MAX,
        ensures
            final(self).wf(),
            old(self).done ==> r is None && *final(self) == *old(self),
            !old(self).done ==> {
                let t = (old(self).ticks + 1) as u32;
                let finish = old(self).reloading && t >= old(self).reload_done_tick;
                let report = old(self).pending is Some && old(self).fired_tick is Some && t
                    >= old(self).fired_tick.unwrap() + TRACER_TICKS;
                &&& *final(self) == (HunterRange {
                    ticks: t,
                    reloading: if finish { false } else { old(self).reloading },
                    loaded: if finish { true } else { old(self).loaded },
                    done: report,
                    ..*old(self)
                })
                &&& r == if report { old(self).pending } else { None }
            },
    {
        if self.done {
            return None;
        }
        self.ticks = self.ticks + 1;
        if self.reloading && self.ticks >= self.reload_done_tick {
            self.reloading = false;
            self.loaded = true;
        }
        match (self.pending, self.fired_tick) {
            (Some(res), Some(ft)) => {
                if self.ticks >= ft + TRACER_TICKS {
                    self.done = true;
                    return Some(res);
                }
                None
            },
            _ => None,
        }
    }
}

/// A miss with rounds to spare does not end the round: the rifle is left
/// empty and ready to reload.
pub proof fn law_a_miss_with_rounds_left_goes_on(h: HunterRange, quarry_col: usize)
    requires
        h.wf(),
        h.can_fire(),
        quarry_col != h.hunter,
        h.ammo_left > 1,
    ensures
        (HunterRange {
            loaded: false,
            fired_tick: Some(h.ticks),
            ammo_left: (h.ammo_left - 1) as usize,
            shots_fired: (h.shots_fired + 1) as usize,
            ..h
        }).can_reload(),
{
}

/// A round is decided only by a hit or by the last round spent on a miss, and
/// the outcome counts every shot fired.
pub proof fn law_a_round_is_lost_only_with_no_rounds_left(h: HunterRange)
    requires
        h.wf(),
        h.pending is Some,
    ensures
        h.pending.unwrap().hit || h.ammo_left == 0,
        h.pending.unwrap().shots_fired == h.shots_fired,
{
}

} // verus!
