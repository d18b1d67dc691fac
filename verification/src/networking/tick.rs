//! Ticks at regular intervals.

use vstd::prelude::*;

use crate::time::{Duration, Instant};

verus! {

/// State used to attempt to generate regular interval ticks.
///
/// This will try to take into account how late or early the tick is
/// actually processed, and schedule the next one relative to the
/// intended time, unless it is more than a full tick interval late.
#[derive(Copy, Clone, Debug)]
pub struct Interval {
    interval: Duration,
    next: Instant,
    last: Instant,
}

/// The distance between two points in time.
pub open spec fn apart(a: Instant, b: Instant) -> int {
    if a.nanos >= b.nanos {
        a.nanos - b.nanos
    } else {
        b.nanos - a.nanos
    }
}

impl Interval {
    /// The time from one tick to the next, in nanoseconds.
    pub closed spec fn length(self) -> int {
        self.interval.nanos as int
    }

    /// The moment that the next tick is meant for.
    pub closed spec fn due(self) -> Instant {
        self.next
    }

    /// The moment that the last tick was processed at, or that ticking was started at.
    pub closed spec fn last(self) -> Instant {
        self.last
    }

    /// The moment that the tick after one processed at `tick` is meant for.
    pub open spec fn due_after(self, tick: Instant) -> int {
        if apart(tick, self.due()) <= self.length() {
            self.due().nanos + self.length()
        } else {
            tick.nanos + self.length()
        }
    }

    /// Starts ticking: the first tick is due one interval from `now`.
    pub fn new(interval: Duration, now: Instant) -> (ticks: Interval)
        requires
            now.nanos + interval.nanos <= u128::MAX,
        ensures
            ticks.length() == interval.nanos,
            ticks.due().nanos == now.nanos + interval.nanos,
            ticks.last() == now,
    {
        Interval { interval, next: Instant { nanos: now.nanos + interval.nanos }, last: now }
    }

    /// Gets the interval duration.
    pub fn interval(&self) -> (interval: Duration)
        ensures
            interval.nanos == self.length(),
    {
        self.interval
    }

    /// Reports a processed tick, and returns the interval since the
    /// last tick, and the delay before the next tick should occur.
    ///
    /// The first interval is the one since ticking was started. No time has passed where `tick` is
    /// earlier than the last one.
    pub fn next(&mut self, tick: Instant) -> (result: (Duration, Duration))
        requires
            old(self).due_after(tick) <= u128::MAX,
        ensures
            final(self).length() == old(self).length(),
            final(self).due().nanos == old(self).due_after(tick),
            final(self).last() == tick,
            result.0 == old(self).last().until(tick),
            tick.nanos + result.1.nanos == final(self).due().nanos,
    {
        let interval: Duration = if tick.nanos > self.next.nanos {
            let late: Duration = tick.duration_since(self.next);
            if late.nanos > self.interval.nanos {
                // Skipped a tick, so give up and schedule the next
                // one at the next interval from now.
                self.interval
            } else {
                // Less than one full tick late, so take the offset
                // into account.
                Duration { nanos: self.interval.nanos - late.nanos }
            }
        } else {
            let early: Duration = self.next.duration_since(tick);
            if early.nanos > self.interval.nanos {
                // One full tick early, so give up and schedule the
                // next one at the next interval from now.
                self.interval
            } else {
                // Less than one full tick early, so take the offset
                // into account.
                Duration { nanos: self.interval.nanos + early.nanos }
            }
        };
        let tick_length: Duration = tick.duration_since(self.last);
        self.next = Instant { nanos: tick.nanos + interval.nanos };
        self.last = tick;
        (tick_length, interval)
    }
}

/// Ticks that are processed at most one interval away from where they are
/// meant to be do not drift: the one after the next is due two intervals on.
pub proof fn law_no_drift(start: Interval, second: Interval, third: Interval, tick1: Instant, tick2: Instant)
    requires
        apart(tick1, start.due()) <= start.length(),
        second.length() == start.length(),
        second.due().nanos == start.due_after(tick1),
        apart(tick2, second.due()) <= second.length(),
        third.length() == second.length(),
        third.due().nanos == second.due_after(tick2),
    ensures
        third.due().nanos == start.due().nanos + 2 * start.length(),
{
}

/// The intervals that are reported for ticks add up to the time that has passed: lateness counts
/// once.
pub proof fn law_intervals_add_up(start: Interval, second: Interval, tick1: Instant, tick2: Instant)
    requires
        start.last().nanos <= tick1.nanos <= tick2.nanos,
        second.last() == tick1,
    ensures
        start.last().until(tick1).nanos + second.last().until(tick2).nanos
            == start.last().until(tick2).nanos,
{
}

/// The next tick is never due more than two intervals after the one just
/// processed, nor before it.
pub proof fn law_next_tick_is_near(ticks: Interval, tick: Instant)
    ensures
        tick.nanos <= ticks.due_after(tick) <= tick.nanos + 2 * ticks.length(),
{
}

} // verus!
