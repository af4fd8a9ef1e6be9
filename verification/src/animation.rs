//! Frame timers: a tick-driven countdown over a sequence of frame durations,
//! reporting `Ready` when a frame boundary is crossed, `Waiting` in between,
//! and `Done` (terminally) once every frame has elapsed. Durations are
//! integer milliseconds.

use vstd::prelude::*;

verus! {

/// The classification of a timer at one tick.
#[derive(Clone, Copy, Debug, PartialEq, Eq, Structural)]
pub enum FrameState {
    Ready,
    Waiting,
    Done,
}

/// An animatable value reacts to the per-tick state of its frame timer.
pub trait Animatable {
    fn animate(&mut self, state: &FrameState);
}

/// The mathematical model of a frame timer: per-frame durations, the initial
/// delay, the time accumulated since the last frame advance, and the index of
/// the pending frame (equal to the frame count once done).
pub struct TimerV {
    pub frames: Seq<int>,
    pub delay: int,
    pub acc: int,
    pub next: int,
}

/// A timer model is well formed when the pending index is at most the frame
/// count.
pub open spec fn timer_wf(t: TimerV) -> bool {
    0 <= t.next <= t.frames.len()
}

/// Done is terminal: the pending index has reached the frame count.
pub open spec fn timer_done(t: TimerV) -> bool {
    t.next == t.frames.len()
}

/// The classification of a timer as it stands: `Done` past the last frame;
/// `Ready` when the accumulated time exceeds the delay (before frame 0) or
/// reaches the pending frame's duration (after it); `Waiting` otherwise.
pub open spec fn timer_state(t: TimerV) -> FrameState {
    if timer_done(t) {
        FrameState::Done
    } else if t.next == 0 && t.acc > t.delay {
        FrameState::Ready
    } else if t.next > 0 && t.acc >= t.frames[t.next] {
        FrameState::Ready
    } else {
        FrameState::Waiting
    }
}

/// Addition capped at the largest 64-bit value.
pub open spec fn sat_add64(a: int, b: int) -> int {
    if a + b > u64::MAX {
        u64::MAX as int
    } else {
        a + b
    }
}

/// The timer with `elapsed` more time accumulated.
pub open spec fn timer_accumulate(t: TimerV, elapsed: int) -> TimerV {
    TimerV { frames: t.frames, delay: t.delay, acc: sat_add64(t.acc, elapsed), next: t.next }
}

/// The timer after one advancing tick of `elapsed` time: unchanged once done;
/// otherwise the elapsed time is accumulated, and if that crosses the pending
/// frame's boundary the index advances and the accumulator resets.
pub open spec fn timer_advance(t: TimerV, elapsed: int) -> TimerV {
    if timer_done(t) {
        t
    } else {
        let u = timer_accumulate(t, elapsed);
        if timer_state(u) is Ready {
            TimerV { frames: t.frames, delay: t.delay, acc: 0, next: t.next + 1 }
        } else {
            u
        }
    }
}

/// What an advancing tick of `elapsed` time reports: `Done` if already done
/// (without accumulating), else the classification after accumulating.
pub open spec fn timer_advance_state(t: TimerV, elapsed: int) -> FrameState {
    if timer_done(t) {
        FrameState::Done
    } else {
        timer_state(timer_accumulate(t, elapsed))
    }
}

/// A sequence of discrete frames, each lasting a configured duration in
/// milliseconds, with an optional initial delay before frame 0 begins.
#[derive(Debug)]
pub struct FrameTimer {
    pub frames: Vec<u64>,
    pub delay: u64,
    pub last_update: u64,
    pub next: usize,
}

impl View for FrameTimer {
    type V = TimerV;

    open spec fn view(&self) -> TimerV {
        TimerV {
            frames: self.frames@.map_values(|d: u64| d as int),
            delay: self.delay as int,
            acc: self.last_update as int,
            next: self.next as int,
        }
    }
}

impl Clone for FrameTimer {
    fn clone(&self) -> (r: Self)
        ensures
            r@ == self@,
    {
        let frames = self.frames.clone();
        proof {
            assert forall|i: int| 0 <= i < frames@.len() implies frames@[i] == self.frames@[i] by {}
            assert(frames@ =~= self.frames@);
            assert(frames@.map_values(|d: u64| d as int) =~= self.frames@.map_values(
                |d: u64| d as int,
            ));
        }
        FrameTimer { frames, delay: self.delay, last_update: self.last_update, next: self.next }
    }
}

impl FrameTimer {
    /// Well-formedness of the executable timer.
    pub open spec fn wf(&self) -> bool {
        timer_wf(self@)
    }

    fn init_frameless(delay: u64) -> (r: Self)
        ensures
            r@.frames.len() == 0,
            r@.delay == delay,
            r@.acc == 0,
            r@.next == 0,
    {
        let r = FrameTimer { frames: Vec::new(), delay, last_update: 0, next: 0 };
        proof {
            assert(r@.frames =~= Seq::<int>::empty());
        }
        r
    }

    fn set_frames(self, vec: Vec<u64>) -> (r: Self)
        ensures
            r@.frames == vec@.map_values(|d: u64| d as int),
            r@.delay == self@.delay,
            r@.acc == self@.acc,
            r@.next == self@.next,
    {
        FrameTimer { frames: vec, delay: self.delay, last_update: self.last_update, next: self.next }
    }

    /// A timer with the given per-frame durations and leading delay, not yet
    /// started.
    pub fn from_vec(frames: Vec<u64>, delay: u64) -> (r: Self)
        ensures
            r@.frames == frames@.map_values(|d: u64| d as int),
            r@.delay == delay,
            r@.acc == 0,
            r@.next == 0,
            r.wf(),
    {
        Self::init_frameless(delay).set_frames(frames)
    }

    /// A timer of `n_frames` frames of equal duration, after a leading delay.
    pub fn equal_sized(n_frames: usize, duration: u64, delay: u64) -> (r: Self)
        ensures
            r@.frames =~= Seq::new(n_frames as nat, |i: int| duration as int),
            r@.delay == delay,
            r@.acc == 0,
            r@.next == 0,
            r.wf(),
    {
        let frames = vec![duration; n_frames];
        proof {
            assert forall|i: int| 0 <= i < frames@.len() implies frames@[i] == duration by {}
        }
        Self::init_frameless(delay).set_frames(frames)
    }

    /// The state of the pending frame, advancing to the next frame when it
    /// reports `Ready`. Call at most once per logical tick per consumer.
    pub fn state(&mut self, elapsed: u64) -> (s: FrameState)
        requires
            old(self).wf(),
        ensures
            final(self).wf(),
            final(self)@ == timer_advance(old(self)@, elapsed as int),
            s == timer_advance_state(old(self)@, elapsed as int),
    {
        if self.is_done() {
            return FrameState::Done;
        }
        self.set_update(elapsed);
        proof {
            assert(self.next < self.frames.len());
        }
        let curr_frame = self.frames[self.next];

        if self.next == 0 {
            if self.last_update > self.delay {
                self.next = self.next + 1;
                self.last_update = 0;
                return FrameState::Ready;
            }
        } else if self.last_update >= curr_frame {
            self.next = self.next + 1;
            self.last_update = 0;
            return FrameState::Ready;
        }
        FrameState::Waiting
    }

    /// The state of the pending frame without advancing it: the same
    /// classification `state` would report, with no mutation.
    pub fn get_state(&self) -> (s: FrameState)
        requires
            self.wf(),
        ensures
            s == timer_state(self@),
    {
        if self.is_done() {
            return FrameState::Done;
        }
        let curr_frame = self.frames[self.next];

        if self.next == 0 {
            if self.last_update > self.delay {
                return FrameState::Ready;
            }
        } else if self.last_update >= curr_frame {
            return FrameState::Ready;
        }
        FrameState::Waiting
    }

    /// Whether every frame has elapsed.
    pub fn is_done(&self) -> (r: bool)
        ensures
            r == timer_done(self@),
    {
        self.next == self.frames.len()
    }

    /// Accumulates elapsed time, capped at the largest 64-bit value.
    fn set_update(&mut self, elapsed: u64)
        ensures
            final(self)@ == timer_accumulate(old(self)@, elapsed as int),
    {
        if self.last_update <= u64::MAX - elapsed {
            self.last_update = self.last_update + elapsed;
        } else {
            self.last_update = u64::MAX;
        }
    }
}

/// Once a timer is done, an advancing tick changes nothing and reports
/// `Done`, whatever time has elapsed.
pub proof fn lemma_done_is_terminal(t: TimerV, elapsed: int)
    requires
        timer_done(t),
    ensures
        timer_advance(t, elapsed) == t,
        timer_advance_state(t, elapsed) is Done,
{
}

} // verus!
