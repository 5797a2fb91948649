use vstd::prelude::*;

verus! {

/// Whether a timer starts over after it fires.
#[derive(Clone, Copy, Debug, PartialEq, Eq, Structural)]
pub enum TimerMode {
    Once,
    Repeating,
}

/// A countdown in nanoseconds, advanced by the elapsed time of each tick.
///
/// A repeating timer may fire several times in one tick; a one-shot timer
/// fires once and then stays finished until it is reset.
#[derive(Clone, Copy, Debug)]
pub struct Timer {
    pub duration: u64,
    pub elapsed: u64,
    pub mode: TimerMode,
    pub finished: bool,
    pub times_finished_this_tick: u64,
}

/// A timer of `duration` nanoseconds that has not run yet.
pub open spec fn fresh_timer(duration: u64, mode: TimerMode) -> Timer {
    Timer { duration, elapsed: 0, mode, finished: false, times_finished_this_tick: 0 }
}

/// `t` advanced by `delta` nanoseconds: a finished one-shot timer stays as it
/// is; otherwise the elapsed time grows (saturating), and when it reaches the
/// duration the timer fires, once for a one-shot timer and as many whole
/// durations as fit for a repeating one, which keeps the remainder.
pub open spec fn ticked(t: Timer, delta: u64) -> Timer {
    let e = if t.elapsed + delta > u64::MAX { u64::MAX as int } else { t.elapsed + delta };
    if t.mode == TimerMode::Once && t.finished {
        Timer { times_finished_this_tick: 0, ..t }
    } else if e < t.duration {
        Timer { elapsed: e as u64, finished: false, times_finished_this_tick: 0, ..t }
    } else if t.mode == TimerMode::Repeating {
        Timer {
            elapsed: (e % (t.duration as int)) as u64,
            finished: true,
            times_finished_this_tick: (e / (t.duration as int)) as u64,
            ..t
        }
    } else {
        Timer { elapsed: t.duration, finished: true, times_finished_this_tick: 1, ..t }
    }
}

impl Timer {
    pub open spec fn wf(&self) -> bool {
        &&& self.duration > 0
        &&& self.elapsed <= self.duration
        &&& self.mode == TimerMode::Repeating ==> self.elapsed < self.duration
        &&& self.mode == TimerMode::Once ==> (self.finished <==> self.elapsed == self.duration)
    }

    /// A timer of `duration` nanoseconds that has not run yet.
    pub fn new(duration: u64, mode: TimerMode) -> (r: Self)
        requires
            duration > 0,
        ensures
            r.wf(),
            r == fresh_timer(duration, mode),
    {
        Timer { duration, elapsed: 0, mode, finished: false, times_finished_this_tick: 0 }
    }

    /// Back to the start, not finished.
    pub fn reset(&mut self)
        requires
            old(self).wf(),
        ensures
            final(self).wf(),
            *final(self) == fresh_timer(old(self).duration, old(self).mode),
    {
        self.elapsed = 0;
        self.finished = false;
        self.times_finished_this_tick = 0;
    }

    /// Advances the timer by `delta` nanoseconds (the sum saturates).
    pub fn tick(&mut self, delta: u64)
        requires
            old(self).wf(),
        ensures
            final(self).wf(),
            *final(self) == ticked(*old(self), delta),
    {
        if self.mode == TimerMode::Once && self.finished {
            self.times_finished_this_tick = 0;
            return;
        }
        let e = self.elapsed.saturating_add(delta);
        if e < self.duration {
            self.finished = false;
            self.elapsed = e;
            self.times_finished_this_tick = 0;
        } else {
            self.finished = true;
            match self.mode {
                TimerMode::Repeating => {
                    self.times_finished_this_tick = e / self.duration;
                    self.elapsed = e % self.duration;
                },
                TimerMode::Once => {
                    self.times_finished_this_tick = 1;
                    self.elapsed = self.duration;
                },
            }
        }
    }
}

} // verus!
