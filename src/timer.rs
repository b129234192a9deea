//! Frame timing: the time of the last tick and the time between ticks.

use vstd::prelude::*;

verus! {

/// Bound on the clock's readings: chrono's dates end within 262,143 years of
/// 1970, under 2^53 milliseconds.
pub const CLOCK_LIMIT: i64 = 0x20_0000_0000_0000;

/// Whether `t` is a reading that the clock can give.
pub open spec fn is_clock_reading(t: int) -> bool {
    -CLOCK_LIMIT < t < CLOCK_LIMIT
}

/// Relies on chrono's `Local::now` and `DateTime::timestamp_millis`: the
/// current time in milliseconds since the epoch, within the range of
/// chrono's dates.
#[verifier::external_body]
fn now_millis() -> (r: i64)
    ensures
        is_clock_reading(r as int),
{
    chrono::Local::now().timestamp_millis()
}

/// The time of the last tick.
#[derive(Debug)]
pub struct Timer {
    last_time: i64,
}

impl Timer {
    /// The time of the last tick, in milliseconds since the epoch.
    pub closed spec fn last_time(&self) -> int {
        self.last_time as int
    }

    pub closed spec fn wf(&self) -> bool {
        is_clock_reading(self.last_time as int)
    }

    /// A timer that has not ticked: its last tick is the epoch.
    pub fn new() -> (r: Timer)
        ensures
            r.wf(),
            r.last_time() == 0,
    {
        Timer { last_time: 0 }
    }

    pub fn time_as_millis(&self) -> (r: i64)
        ensures
            r as int == self.last_time(),
    {
        self.last_time
    }

    /// Ticks at time `now`: returns the milliseconds since the last tick,
    /// which `now` becomes.
    pub fn tick_at(&mut self, now: i64) -> (r: i64)
        requires
            old(self).wf(),
            is_clock_reading(now as int),
        ensures
            final(self).wf(),
            r as int == now - old(self).last_time(),
            final(self).last_time() == now,
    {
        let delta = now - self.last_time;
        self.last_time = now;
        delta
    }

    /// Ticks at the current time: returns the milliseconds since the last tick.
    pub fn tick(&mut self) -> (r: i64)
        requires
            old(self).wf(),
        ensures
            final(self).wf(),
            r as int == final(self).last_time() - old(self).last_time(),
    {
        let now = now_millis();
        self.tick_at(now)
    }
}

} // verus!
