//! A repeating countdown timer measured in nanoseconds.
//!
//! Every periodic activity of the simulation (mood checks, quarters, order
//! generation, egg hatching) is driven by one of these: a tick adds the
//! elapsed time, reports how many whole periods went by, and keeps only the
//! remainder.
use vstd::prelude::*;

verus! {

/// Number of nanoseconds in a second.
pub const NANOS_PER_SEC: u64 = 1_000_000_000;

/// Nanoseconds in `secs` seconds.
pub open spec fn spec_secs(secs: u64) -> int {
    secs * NANOS_PER_SEC
}

/// A timer that restarts itself each time its duration has elapsed.
#[derive(Clone, Copy, Debug, PartialEq, Eq)]
pub struct RepeatingTimer {
    /// Length of one period, in nanoseconds.
    pub duration: u64,
    /// Time accumulated in the current period, in nanoseconds.
    pub elapsed: u64,
    /// Whether the last tick completed at least one period.
    pub finished: bool,
    /// How many periods the last tick completed, kept in 32 bits.
    pub times_finished_this_tick: u32,
}

/// What a tick of `delta` nanoseconds does to a timer.
pub open spec fn spec_tick(t: RepeatingTimer, delta: int) -> RepeatingTimer {
    let total = t.elapsed + delta;
    if total >= t.duration {
        RepeatingTimer {
            duration: t.duration,
            elapsed: if t.duration == 0 { 0 } else { (total % (t.duration as int)) as u64 },
            finished: true,
            times_finished_this_tick: if t.duration == 0 {
                u32::MAX
            } else {
                ((total / (t.duration as int)) % 0x1_0000_0000) as u32
            },
        }
    } else {
        RepeatingTimer {
            duration: t.duration,
            elapsed: total as u64,
            finished: false,
            times_finished_this_tick: 0,
        }
    }
}

impl RepeatingTimer {
    /// A fresh timer with the given period.
    pub open spec fn new_spec(duration: u64) -> Self {
        RepeatingTimer { duration, elapsed: 0, finished: false, times_finished_this_tick: 0 }
    }

    /// A fresh timer with the given period.
    #[verifier::when_used_as_spec(new_spec)]
    pub fn new(duration: u64) -> (t: Self)
        ensures
            t == Self::new_spec(duration),
    {
        RepeatingTimer { duration, elapsed: 0, finished: false, times_finished_this_tick: 0 }
    }

    /// Advances the timer by `delta` nanoseconds.
    pub fn tick(&mut self, delta: u64)
        requires
            old(self).elapsed + delta <= u64::MAX,
        ensures
            *final(self) == spec_tick(*old(self), delta as int),
    {
        let total = self.elapsed + delta;
        if total >= self.duration {
            self.finished = true;
            if self.duration == 0 {
                self.elapsed = 0;
                self.times_finished_this_tick = u32::MAX;
            } else {
                let times = total / self.duration;
                self.elapsed = total % self.duration;
                self.times_finished_this_tick = (times % 0x1_0000_0000) as u32;
            }
        } else {
            self.elapsed = total;
            self.finished = false;
            self.times_finished_this_tick = 0;
        }
    }

    /// Whether the last tick completed a period.
    pub fn just_finished(&self) -> (b: bool)
        ensures
            b == (self.times_finished_this_tick > 0),
    {
        self.times_finished_this_tick > 0
    }

    /// Starts the current period over.
    pub fn reset(&mut self)
        ensures
            final(self).duration == old(self).duration,
            final(self).elapsed == 0,
            !final(self).finished,
            final(self).times_finished_this_tick == 0,
    {
        self.elapsed = 0;
        self.finished = false;
        self.times_finished_this_tick = 0;
    }
}

/// A timer never holds a full period: after any tick of a timer with a
/// non-zero period, the time left in it is less than the period.
pub proof fn lemma_tick_keeps_remainder_below_period(t: RepeatingTimer, delta: int)
    requires
        t.duration > 0,
        t.elapsed < t.duration,
        delta >= 0,
        t.elapsed + delta <= u64::MAX,
    ensures
        spec_tick(t, delta).elapsed < t.duration,
        spec_tick(t, delta).finished <==> t.elapsed + delta >= t.duration,
{
}

} // verus!
