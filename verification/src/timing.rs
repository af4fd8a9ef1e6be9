//! Tick timing: the fixed update interval and the slower gravity cadence
//! ("fall rate") that decides on which ticks the falling piece moves down by
//! itself. Durations are integer milliseconds.

use vstd::prelude::*;

verus! {

/// Milliseconds per second.
pub const SECOND: u64 = 1000;

/// Fixed updates per second of the game loop.
pub const UPDATES_PER_SEC: u64 = 16;

/// Milliseconds of game time per update tick.
pub const MILLIS_PER_UPDATE: u64 = SECOND / UPDATES_PER_SEC;

/// Addition capped at the largest 64-bit value.
pub open spec fn sat_add_u64(a: int, b: int) -> int {
    if a + b > u64::MAX {
        u64::MAX as int
    } else {
        a + b
    }
}

/// Accumulates tick time and reports when the gravity cadence is due.
#[derive(Clone, Copy, Debug)]
pub struct Timer {
    pub fall_update: u64,
    pub fall_rate: u64,
}

impl Timer {
    /// A timer that reports a fall once more than `fall_rate` milliseconds
    /// have accumulated.
    pub fn new(fall_rate: u64) -> (r: Self)
        ensures
            r.fall_update == 0,
            r.fall_rate == fall_rate,
    {
        Timer { fall_update: 0, fall_rate }
    }

    /// Accounts one update tick of game time.
    pub fn update(&mut self)
        ensures
            final(self).fall_update == sat_add_u64(
                old(self).fall_update as int,
                MILLIS_PER_UPDATE as int,
            ),
            final(self).fall_rate == old(self).fall_rate,
    {
        if self.fall_update <= u64::MAX - MILLIS_PER_UPDATE {
            self.fall_update = self.fall_update + MILLIS_PER_UPDATE;
        } else {
            self.fall_update = u64::MAX;
        }
    }

    /// Whether gravity is due this tick: true, resetting the accumulator,
    /// exactly when more than `fall_rate` milliseconds have accumulated.
    pub fn fall(&mut self) -> (r: bool)
        ensures
            r == (old(self).fall_update > old(self).fall_rate),
            final(self).fall_rate == old(self).fall_rate,
            final(self).fall_update == if r {
                0int
            } else {
                old(self).fall_update as int
            },
    {
        if self.fall_update > self.fall_rate {
            self.fall_update = 0;
            return true;
        }
        false
    }
}

impl Default for Timer {
    /// The default gravity cadence: one fall per half second.
    fn default() -> (r: Self)
        ensures
            r.fall_update == 0,
            r.fall_rate == SECOND / 2,
    {
        Self::new(SECOND / 2)
    }
}

} // verus!
