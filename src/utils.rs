//! Millisecond timing helpers.

use vstd::prelude::*;

verus! {

/// Relies on chrono's `From<SystemTime> for DateTime<Utc>` and
/// `DateTime::timestamp_millis`: the current time as milliseconds since the
/// Unix epoch, negative for a clock set before it.
#[verifier::external_body]
pub(crate) fn now_millis() -> (r: i64) {
    chrono::DateTime::<chrono::Utc>::from(std::time::SystemTime::now()).timestamp_millis()
}

/// The millisecond part of the current second since the Unix epoch; 0 for
/// a clock set before the epoch.
pub(crate) fn ts() -> (r: u32)
    ensures
        r < 1000,
{
    let now = now_millis();
    if now < 0 {
        0
    } else {
        (now % 1000) as u32
    }
}

/// Milliseconds from `start` to `now`, or 0 when `now` is not later.
pub open spec fn elapsed_ms(start: u32, now: u32) -> u32 {
    if now > start {
        (now - start) as u32
    } else {
        0
    }
}

/// Measures short delays against the millisecond part of the clock.
pub struct Timer {
    start: u32,
}

impl Timer {
    /// The clock reading the timer counts from.
    pub closed spec fn started_at(&self) -> u32 {
        self.start
    }

    pub fn new() -> (r: Self)
        ensures
            r.started_at() < 1000,
    {
        Timer { start: ts() }
    }

    /// A timer that counts from the given clock reading.
    pub fn starting_at(start: u32) -> (r: Self)
        ensures
            r.started_at() == start,
    {
        Timer { start }
    }

    pub fn reset(&mut self)
        ensures
            final(self).started_at() < 1000,
    {
        self.start = ts();
    }

    /// Milliseconds elapsed at clock reading `now`.
    pub fn mark_at(&self, now: u32) -> (r: u32)
        ensures
            r == elapsed_ms(self.started_at(), now),
    {
        if now > self.start {
            now - self.start
        } else {
            0
        }
    }

    /// Milliseconds elapsed at the current clock reading.
    pub fn mark(&self) -> (r: u32)
        ensures
            r < 1000,
            exists|now: u32| now < 1000 && r == elapsed_ms(self.started_at(), now),
    {
        let now = ts();
        self.mark_at(now)
    }
}

} // verus!
