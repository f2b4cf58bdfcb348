//! The tick scheduler / loop driver: the play/pause/overlay state machine
//! and the fixed-timestep accumulator that paces simulation ticks
//! independently of the frame rate.

use crate::grid::{evolves_in, is_next_generation, lemma_evolves_extend, Grid};
use vstd::prelude::*;

verus! {

/// Whether the simulation is evolving or frozen. Initial state is `Paused`.
#[derive(Clone, Copy, Debug, PartialEq, Eq, Structural)]
pub enum Mode {
    Playing,
    Paused,
}

/// Whether the frame-timing overlay is drawn. Orthogonal to `Mode`.
#[derive(Clone, Copy, Debug, PartialEq, Eq, Structural)]
pub enum Overlay {
    Shown,
    Hidden,
}

/// A discrete command from the input collaborator, already decoded from
/// whatever device produced it. `Escape` means the same as `Quit`;
/// `Other` is any unrecognized event, which the driver ignores.
#[derive(Clone, Copy, Debug, PartialEq, Eq, Structural)]
pub enum InputEvent {
    Quit,
    Escape,
    TogglePlay,
    Reset,
    ToggleOverlay,
    Other,
}

pub open spec fn toggled_mode(m: Mode) -> Mode {
    match m {
        Mode::Playing => Mode::Paused,
        Mode::Paused => Mode::Playing,
    }
}

pub open spec fn toggled_overlay(o: Overlay) -> Overlay {
    match o {
        Overlay::Shown => Overlay::Hidden,
        Overlay::Hidden => Overlay::Shown,
    }
}

/// Owns the mode flags and the remaining-time counter that paces
/// simulation ticks against a fixed tick interval.
pub struct Scheduler {
    mode: Mode,
    overlay: Overlay,
    tick_interval: u64,
    remaining: u64,
}

impl Scheduler {
    /// The counter stays positive and never exceeds the (positive) tick
    /// interval: some time always remains until the next due tick.
    pub closed spec fn wf(self) -> bool {
        &&& self.tick_interval >= 1
        &&& 1 <= self.remaining <= self.tick_interval
    }

    pub closed spec fn spec_mode(self) -> Mode {
        self.mode
    }

    pub closed spec fn spec_overlay(self) -> Overlay {
        self.overlay
    }

    pub closed spec fn spec_interval(self) -> int {
        self.tick_interval as int
    }

    pub closed spec fn spec_remaining(self) -> int {
        self.remaining as int
    }

    /// A fresh driver: paused, overlay hidden, a full interval to wait
    /// before the first tick.
    pub fn new(tick_interval: u64) -> (s: Scheduler)
        requires
            tick_interval >= 1,
        ensures
            s.wf(),
            s.spec_mode() == Mode::Paused,
            s.spec_overlay() == Overlay::Hidden,
            s.spec_interval() == tick_interval,
            s.spec_remaining() == tick_interval,
    {
        Scheduler { mode: Mode::Paused, overlay: Overlay::Hidden, tick_interval, remaining: tick_interval }
    }

    pub fn mode(&self) -> (m: Mode)
        ensures
            m == self.spec_mode(),
    {
        self.mode
    }

    pub fn overlay(&self) -> (o: Overlay)
        ensures
            o == self.spec_overlay(),
    {
        self.overlay
    }

    /// Applies one input event: toggle-play flips the mode, reset
    /// re-randomizes the grid and forces the mode to `Paused` whatever it
    /// was, toggle-overlay flips the overlay, quit (or escape) asks the
    /// caller to end the loop, and anything else is a no-op.
    pub fn handle_event(&mut self, grid: &mut Grid, ev: InputEvent) -> (quit: bool)
        requires
            old(self).wf(),
            old(grid).wf(),
        ensures
            final(self).wf(),
            final(grid).wf(),
            final(grid).spec_rows() == old(grid).spec_rows(),
            final(grid).spec_cols() == old(grid).spec_cols(),
            quit == (ev == InputEvent::Quit || ev == InputEvent::Escape),
            final(self).spec_interval() == old(self).spec_interval(),
            final(self).spec_remaining() == old(self).spec_remaining(),
            final(self).spec_mode() == if ev == InputEvent::Reset {
                Mode::Paused
            } else if ev == InputEvent::TogglePlay {
                toggled_mode(old(self).spec_mode())
            } else {
                old(self).spec_mode()
            },
            final(self).spec_overlay() == if ev == InputEvent::ToggleOverlay {
                toggled_overlay(old(self).spec_overlay())
            } else {
                old(self).spec_overlay()
            },
            ev != InputEvent::Reset ==> *final(grid) == *old(grid),
    {
        match ev {
            InputEvent::Quit | InputEvent::Escape => true,
            InputEvent::TogglePlay => {
                self.mode = match self.mode {
                    Mode::Playing => Mode::Paused,
                    Mode::Paused => Mode::Playing,
                };
                false
            },
            InputEvent::Reset => {
                grid.randomize();
                self.mode = Mode::Paused;
                false
            },
            InputEvent::ToggleOverlay => {
                self.overlay = match self.overlay {
                    Overlay::Shown => Overlay::Hidden,
                    Overlay::Hidden => Overlay::Shown,
                };
                false
            },
            InputEvent::Other => false,
        }
    }

    /// One loop iteration's worth of timing: while `Playing`, the elapsed
    /// `delta` is subtracted from the remaining-time counter, and when the
    /// counter is used up, exactly one generation is stepped and the
    /// counter is reset to the full tick interval — never more than one
    /// step per call, however large `delta` was. While `Paused`, nothing
    /// moves at all.
    pub fn frame(&mut self, grid: &mut Grid, delta: u64) -> (stepped: bool)
        requires
            old(self).wf(),
            old(grid).wf(),
        ensures
            final(self).wf(),
            final(grid).wf(),
            final(grid).spec_rows() == old(grid).spec_rows(),
            final(grid).spec_cols() == old(grid).spec_cols(),
            final(self).spec_mode() == old(self).spec_mode(),
            final(self).spec_overlay() == old(self).spec_overlay(),
            final(self).spec_interval() == old(self).spec_interval(),
            stepped == (old(self).spec_mode() == Mode::Playing && delta
                >= old(self).spec_remaining()),
            old(self).spec_mode() == Mode::Paused ==> *final(self) == *old(self) && *final(grid)
                == *old(grid),
            stepped ==> final(self).spec_remaining() == old(self).spec_interval() && forall|
                r: int,
                c: int,
            |
                0 <= r < old(grid).spec_rows() && 0 <= c < old(grid).spec_cols()
                    ==> final(grid).spec_cell(r, c) == old(grid).next_state(r, c),
            old(self).spec_mode() == Mode::Playing && !stepped ==> final(self).spec_remaining()
                == old(self).spec_remaining() - delta && *final(grid) == *old(grid),
    {
        match self.mode {
            Mode::Paused => false,
            Mode::Playing => {
                if delta >= self.remaining {
                    self.remaining = self.tick_interval;
                    grid.step();
                    true
                } else {
                    self.remaining = self.remaining - delta;
                    false
                }
            },
        }
    }

    /// Runs one `frame` per sample of `deltas`, in order, and counts the
    /// generations stepped: zero while `Paused`, and while `Playing`
    /// exactly the count that the fixed-timestep accumulator owes the
    /// sequence (`steps_over`), never more than one per sample.
    pub fn run_frames(&mut self, grid: &mut Grid, deltas: &Vec<u64>) -> (count: usize)
        requires
            old(self).wf(),
            old(grid).wf(),
        ensures
            final(self).wf(),
            final(grid).wf(),
            final(grid).spec_rows() == old(grid).spec_rows(),
            final(grid).spec_cols() == old(grid).spec_cols(),
            final(self).spec_mode() == old(self).spec_mode(),
            final(self).spec_overlay() == old(self).spec_overlay(),
            final(self).spec_interval() == old(self).spec_interval(),
            count <= deltas.len(),
            old(self).spec_mode() == Mode::Paused ==> count == 0 && *final(self) == *old(self)
                && *final(grid) == *old(grid),
            old(self).spec_mode() == Mode::Playing ==> count == steps_over(
                old(self).spec_remaining(),
                old(self).spec_interval(),
                deltas@.map_values(|d: u64| d as int),
            ) && evolves_in(*old(grid), *final(grid), count as int),
    {
        let ghost ds = deltas@.map_values(|d: u64| d as int);
        let mut count: usize = 0;
        let mut i: usize = 0;
        while i < deltas.len()
            invariant
                self.wf(),
                grid.wf(),
                i <= deltas.len(),
                count <= i,
                ds == deltas@.map_values(|d: u64| d as int),
                grid.spec_rows() == old(grid).spec_rows(),
                grid.spec_cols() == old(grid).spec_cols(),
                self.spec_mode() == old(self).spec_mode(),
                self.spec_overlay() == old(self).spec_overlay(),
                self.spec_interval() == old(self).spec_interval(),
                old(self).spec_mode() == Mode::Paused ==> count == 0 && *self == *old(self)
                    && *grid == *old(grid),
                old(self).spec_mode() == Mode::Playing ==> count + steps_from(
                    self.spec_remaining(),
                    self.spec_interval(),
                    ds,
                    i as int,
                ) == steps_from(old(self).spec_remaining(), old(self).spec_interval(), ds, 0)
                    && evolves_in(*old(grid), *grid, count as int),
            decreases deltas.len() - i,
        {
            let ghost grid_before = *grid;
            let stepped = self.frame(grid, deltas[i]);
            if stepped {
                proof {
                    assert(is_next_generation(*grid, grid_before));
                    lemma_evolves_extend(*old(grid), grid_before, *grid, count as int);
                }
                count = count + 1;
            }
            i = i + 1;
        }
        count
    }
}

/// What one loop iteration leaves of the remaining-time counter: a sample
/// covering the whole remainder resets it to the full interval (one tick
/// fires), a smaller one is merely subtracted.
pub open spec fn after_frame(remaining: int, interval: int, delta: int) -> int {
    if delta >= remaining {
        interval
    } else {
        remaining - delta
    }
}

/// How many ticks the samples `deltas[i..]` fire, starting with `remaining`
/// time to the next due tick: at most one per sample, with the counter
/// reset to `interval` after each.
pub open spec fn steps_from(remaining: int, interval: int, deltas: Seq<int>, i: int) -> int
    decreases deltas.len() - i,
{
    if i < 0 || i >= deltas.len() {
        0
    } else if deltas[i] >= remaining {
        1 + steps_from(interval, interval, deltas, i + 1)
    } else {
        steps_from(remaining - deltas[i], interval, deltas, i + 1)
    }
}

/// How many ticks a whole sequence of per-iteration elapsed times fires.
pub open spec fn steps_over(remaining: int, interval: int, deltas: Seq<int>) -> int {
    steps_from(remaining, interval, deltas, 0)
}

/// The elapsed time that `deltas[i..]` accumulates.
pub open spec fn total_from(deltas: Seq<int>, i: int) -> int
    decreases deltas.len() - i,
{
    if i < 0 || i >= deltas.len() {
        0
    } else {
        deltas[i] + total_from(deltas, i + 1)
    }
}

/// The elapsed time that a whole sequence of samples accumulates.
pub open spec fn total(deltas: Seq<int>) -> int {
    total_from(deltas, 0)
}

proof fn lemma_total_from_nonneg(deltas: Seq<int>, i: int)
    requires
        forall|k: int| 0 <= k < deltas.len() ==> deltas[k] >= 0,
    ensures
        total_from(deltas, i) >= 0,
    decreases deltas.len() - i,
{
    if 0 <= i < deltas.len() {
        lemma_total_from_nonneg(deltas, i + 1);
    }
}

proof fn lemma_steps_from_bounds(remaining: int, interval: int, deltas: Seq<int>, i: int)
    requires
        0 <= i <= deltas.len(),
    ensures
        0 <= steps_from(remaining, interval, deltas, i) <= deltas.len() - i,
    decreases deltas.len() - i,
{
    if i < deltas.len() {
        if deltas[i] >= remaining {
            lemma_steps_from_bounds(interval, interval, deltas, i + 1);
        } else {
            lemma_steps_from_bounds(remaining - deltas[i], interval, deltas, i + 1);
        }
    }
}

/// A sequence of frames fires at most one tick per iteration, however much
/// time each sample covers: there is no multi-step catch-up.
pub proof fn lemma_at_most_one_tick_per_frame(remaining: int, interval: int, deltas: Seq<int>)
    ensures
        0 <= steps_over(remaining, interval, deltas) <= deltas.len(),
{
    lemma_steps_from_bounds(remaining, interval, deltas, 0);
}

proof fn lemma_zero_steps_from(remaining: int, interval: int, deltas: Seq<int>, i: int)
    requires
        0 <= i <= deltas.len(),
        remaining >= 1,
        interval >= 1,
        forall|k: int| 0 <= k < deltas.len() ==> deltas[k] >= 0,
    ensures
        (steps_from(remaining, interval, deltas, i) == 0) <==> (total_from(deltas, i) < remaining),
    decreases deltas.len() - i,
{
    if i < deltas.len() {
        if deltas[i] >= remaining {
            lemma_steps_from_bounds(interval, interval, deltas, i + 1);
            lemma_total_from_nonneg(deltas, i + 1);
        } else {
            lemma_zero_steps_from(remaining - deltas[i], interval, deltas, i + 1);
        }
    }
}

/// No tick fires before a full remaining-time's worth of elapsed time has
/// accumulated, and one does fire as soon as it has: over any sequence of
/// nonnegative samples, zero ticks fire exactly when the samples sum to
/// less than the time remaining to the next due tick.
pub proof fn lemma_tick_iff_interval_elapsed(remaining: int, interval: int, deltas: Seq<int>)
    requires
        remaining >= 1,
        interval >= 1,
        forall|k: int| 0 <= k < deltas.len() ==> deltas[k] >= 0,
    ensures
        (steps_over(remaining, interval, deltas) == 0) <==> (total(deltas) < remaining),
{
    lemma_zero_steps_from(remaining, interval, deltas, 0);
}

proof fn lemma_ticks_need_time_from(remaining: int, interval: int, deltas: Seq<int>, i: int)
    requires
        0 <= i <= deltas.len(),
        remaining >= 1,
        interval >= 1,
        forall|k: int| 0 <= k < deltas.len() ==> deltas[k] >= 0,
    ensures
        steps_from(remaining, interval, deltas, i) >= 1 ==> total_from(deltas, i) >= remaining + (
        steps_from(remaining, interval, deltas, i) - 1) * interval,
    decreases deltas.len() - i,
{
    if i < deltas.len() {
        let k = steps_from(remaining, interval, deltas, i);
        if deltas[i] >= remaining {
            let k2 = steps_from(interval, interval, deltas, i + 1);
            lemma_ticks_need_time_from(interval, interval, deltas, i + 1);
            lemma_steps_from_bounds(interval, interval, deltas, i + 1);
            lemma_total_from_nonneg(deltas, i + 1);
            if k2 >= 1 {
                assert(interval + (k2 - 1) * interval == k2 * interval) by (nonlinear_arith);
                assert((k - 1) * interval == k2 * interval);
            } else {
                assert(k == 1);
                assert((k - 1) * interval == 0) by (nonlinear_arith)
                    requires
                        k == 1,
                ;
            }
        } else {
            lemma_ticks_need_time_from(remaining - deltas[i], interval, deltas, i + 1);
        }
    }
}

/// Each tick costs at least a tick-interval's worth of accumulated elapsed
/// time: if `k >= 1` ticks fire over a sequence of nonnegative samples,
/// the samples sum to at least the initial remainder plus `k - 1` full
/// intervals.
pub proof fn lemma_each_tick_takes_an_interval(remaining: int, interval: int, deltas: Seq<int>)
    requires
        remaining >= 1,
        interval >= 1,
        forall|k: int| 0 <= k < deltas.len() ==> deltas[k] >= 0,
    ensures
        steps_over(remaining, interval, deltas) >= 1 ==> total(deltas) >= remaining + (steps_over(
            remaining,
            interval,
            deltas,
        ) - 1) * interval,
{
    lemma_ticks_need_time_from(remaining, interval, deltas, 0);
}

} // verus!
