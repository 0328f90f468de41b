//! Integer timers.  All durations, periods and frame deltas are in
//! milliseconds, so every animation fraction is an exact rational
//! `elapsed / duration` instead of a rounded float.

use vstd::prelude::*;

verus! {

/// Upper bound on any duration, period or frame delta the timers accept;
/// keeps every sum and product of times far away from overflow.
pub const MAX_TIME: u64 = 1_000_000_000_000;

/// A one-shot countdown: elapsed time accumulates until it reaches the
/// duration and then stays there.
#[derive(Clone, Copy, PartialEq, Eq, Structural, Debug)]
pub struct CountdownTimer {
    pub elapsed: u64,
    pub duration: u64,
}

impl CountdownTimer {
    pub open spec fn wf(self) -> bool {
        &&& 1 <= self.duration <= MAX_TIME
        &&& self.elapsed <= self.duration
    }

    pub open spec fn spec_finished(self) -> bool {
        self.elapsed >= self.duration
    }

    /// The elapsed value after a tick of `delta`: saturates at the duration.
    pub open spec fn spec_ticked(self, delta: u64) -> CountdownTimer {
        CountdownTimer {
            elapsed: if self.elapsed + delta >= self.duration {
                self.duration
            } else {
                (self.elapsed + delta) as u64
            },
            duration: self.duration,
        }
    }

    pub fn new(duration: u64) -> (r: CountdownTimer)
        requires
            1 <= duration <= MAX_TIME,
        ensures
            r == (CountdownTimer { elapsed: 0, duration }),
            r.wf(),
    {
        CountdownTimer { elapsed: 0, duration }
    }

    /// Advances the countdown by `delta`, saturating at the duration.
    pub fn tick(&mut self, delta: u64)
        requires
            old(self).wf(),
            delta <= MAX_TIME,
        ensures
            *final(self) == old(self).spec_ticked(delta),
            final(self).wf(),
    {
        if delta >= self.duration - self.elapsed {
            self.elapsed = self.duration;
        } else {
            self.elapsed = self.elapsed + delta;
        }
    }

    pub fn finished(&self) -> (r: bool)
        ensures
            r == self.spec_finished(),
    {
        self.elapsed >= self.duration
    }

    pub fn reset(&mut self)
        ensures
            *final(self) == (CountdownTimer { elapsed: 0, duration: old(self).duration }),
    {
        self.elapsed = 0;
    }
}

/// A repeating timer: fires whenever the accumulated time crosses the
/// period, keeping the remainder.
#[derive(Clone, Copy, PartialEq, Eq, Structural, Debug)]
pub struct RepeatingTimer {
    pub acc: u64,
    pub period: u64,
}

impl RepeatingTimer {
    pub open spec fn wf(self) -> bool {
        &&& 1 <= self.period <= MAX_TIME
        &&& self.acc < self.period
    }

    pub fn new(period: u64) -> (r: RepeatingTimer)
        requires
            1 <= period <= MAX_TIME,
        ensures
            r == (RepeatingTimer { acc: 0, period }),
            r.wf(),
    {
        RepeatingTimer { acc: 0, period }
    }

    /// Advances the timer; reports whether it fired during this tick and
    /// carries the remainder over to the next period.
    pub fn tick(&mut self, delta: u64) -> (fired: bool)
        requires
            old(self).wf(),
            delta <= MAX_TIME,
        ensures
            fired == (old(self).acc + delta >= old(self).period),
            final(self).acc == (old(self).acc + delta) % (old(self).period as int),
            final(self).period == old(self).period,
            final(self).wf(),
    {
        let total = self.acc + delta;
        self.acc = total % self.period;
        total >= self.period
    }

    pub fn reset(&mut self)
        ensures
            *final(self) == (RepeatingTimer { acc: 0, period: old(self).period }),
    {
        self.acc = 0;
    }
}

} // verus!
