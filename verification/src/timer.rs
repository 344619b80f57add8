//! Countdown/repeat clocks advanced by elapsed frame time.
//!
//! A timer accumulates elapsed milliseconds and reports completion two ways:
//! edge-triggered (`is_just_complete`: true only on the tick that crossed the
//! threshold) and level-triggered (`is_complete`: true on every tick the
//! completed state holds). Repeating timers auto-reset by reducing the
//! accumulator modulo the duration, so for them the completed state lasts
//! exactly the completing tick; one-shot timers stay complete once reached.

use vstd::prelude::*;

verus! {

/// Largest frame delta, in milliseconds, the update passes accept.
pub const MAX_DELTA_MS: u64 = 1_000_000;

/// Largest timer duration, in milliseconds.
pub const MAX_TIMER_MS: u64 = 1_000_000_000;

/// A countdown clock: duration, accumulator, repeat mode, and the two
/// completion signals as of the last `advance` call.
#[derive(Clone, Copy, PartialEq, Eq, Structural)]
pub struct Timer {
    pub duration_ms: u64,
    pub elapsed_ms: u64,
    pub repeating: bool,
    pub finished: bool,
    pub just_finished: bool,
}

impl Timer {
    /// A usable timer: positive bounded duration, accumulator within range
    /// (strictly below the duration for a repeating timer, which resets on
    /// completion).
    pub open spec fn wf(self) -> bool {
        &&& 1 <= self.duration_ms <= MAX_TIMER_MS
        &&& if self.repeating {
                self.elapsed_ms < self.duration_ms
            } else {
                self.elapsed_ms <= self.duration_ms
            }
    }

    /// The timer state after one `advance` by `elapsed_ms` milliseconds.
    pub open spec fn after(self, elapsed_ms: u64) -> Timer {
        let total = self.elapsed_ms + elapsed_ms;
        if total >= self.duration_ms {
            if self.repeating {
                Timer {
                    elapsed_ms: (total % (self.duration_ms as int)) as u64,
                    finished: true,
                    just_finished: true,
                    ..self
                }
            } else {
                Timer {
                    elapsed_ms: self.duration_ms,
                    finished: true,
                    just_finished: self.elapsed_ms < self.duration_ms,
                    ..self
                }
            }
        } else {
            Timer { elapsed_ms: total as u64, finished: false, just_finished: false, ..self }
        }
    }

    /// A fresh timer with nothing accumulated and no completion reported.
    pub fn new(duration_ms: u64, repeating: bool) -> (t: Timer)
        requires
            1 <= duration_ms <= MAX_TIMER_MS,
        ensures
            t == (Timer {
                duration_ms,
                elapsed_ms: 0,
                repeating,
                finished: false,
                just_finished: false,
            }),
            t.wf(),
    {
        Timer { duration_ms, elapsed_ms: 0, repeating, finished: false, just_finished: false }
    }

    /// Add one frame's elapsed time to the accumulator and refresh both
    /// completion signals; a repeating timer that completes keeps only the
    /// overshoot modulo its duration.
    pub fn advance(&mut self, elapsed_ms: u64)
        requires
            old(self).wf(),
            elapsed_ms <= MAX_DELTA_MS,
        ensures
            *final(self) == old(self).after(elapsed_ms),
            final(self).wf(),
    {
        let total = self.elapsed_ms + elapsed_ms;
        if total >= self.duration_ms {
            if self.repeating {
                self.elapsed_ms = total % self.duration_ms;
                self.finished = true;
                self.just_finished = true;
            } else {
                self.just_finished = self.elapsed_ms < self.duration_ms;
                self.elapsed_ms = self.duration_ms;
                self.finished = true;
            }
        } else {
            self.elapsed_ms = total;
            self.finished = false;
            self.just_finished = false;
        }
    }

    /// Edge-triggered: the threshold was crossed on the last `advance`.
    pub fn is_just_complete(&self) -> (r: bool)
        ensures
            r == self.just_finished,
    {
        self.just_finished
    }

    /// Level-triggered: the timer is currently in its completed state.
    pub fn is_complete(&self) -> (r: bool)
        ensures
            r == self.finished,
    {
        self.finished
    }
}

} // verus!
