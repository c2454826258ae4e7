//! The clock source: shows hour and minute, and schedules its own refresh
//! for just after the next minute boundary.

use vstd::prelude::*;

verus! {

/// A wall-clock reading broken into plain components.
#[derive(Clone, Copy, PartialEq, Eq, Structural, Debug)]
pub struct ClockTime {
    /// Hour of the day, below 24.
    pub hour: u8,
    /// Minute of the hour, below 60.
    pub minute: u8,
    /// Second of the minute, below 60.
    pub second: u8,
    /// Nanosecond of the second, below 1 000 000 000.
    pub nanosecond: u32,
}

impl ClockTime {
    /// The component ranges of a real reading.
    pub open spec fn wf(&self) -> bool {
        self.hour < 24 && self.minute < 60 && self.second < 60 && self.nanosecond < 1_000_000_000
    }
}

/// Relies on time's `OffsetDateTime::now_local` and its component accessors
/// `hour`, `minute`, `second` and `nanosecond` to read the current local
/// time; each accessor's documented range bounds the component. The reading
/// itself depends on the moment of the call, so nothing more is promised.
#[verifier::external_body]
fn now_local_time() -> (r: Option<ClockTime>)
    ensures
        r matches Some(t) ==> t.wf(),
{
    match time::OffsetDateTime::now_local() {
        Ok(t) => Some(
            ClockTime {
                hour: t.hour(),
                minute: t.minute(),
                second: t.second(),
                nanosecond: t.nanosecond(),
            },
        ),
        Err(_) => None,
    }
}

/// Relies on time's `OffsetDateTime::now_utc` and the same component
/// accessors, under the same documented ranges.
#[verifier::external_body]
fn now_utc_time() -> (r: ClockTime)
    ensures
        r.wf(),
{
    let t = time::OffsetDateTime::now_utc();
    ClockTime { hour: t.hour(), minute: t.minute(), second: t.second(), nanosecond: t.nanosecond() }
}

/// Milliseconds from a reading until just after the next minute boundary:
/// the seconds left of the minute plus a one-second safety margin against
/// scheduler wake-up jitter, and the nanoseconds completing the current
/// second.
pub open spec fn wait_until_next_minute_spec(t: ClockTime) -> int {
    (59 - t.second % 60 + 1) * 1000 + (1_000_000_000 - t.nanosecond % 1_000_000_000) / 1_000_000
}

/// The deadline reached `wait` milliseconds after `now_ms`, pinned to the
/// clock's end when the sum does not fit.
pub open spec fn deadline_after(now_ms: u64, wait: int) -> u64 {
    if now_ms + wait > u64::MAX {
        u64::MAX
    } else {
        (now_ms + wait) as u64
    }
}

/// The clock source: the displayed hour and minute, and the instant, in
/// milliseconds of the caller's monotonic clock, by which it must be
/// refreshed again.
pub struct Clock {
    /// When the next refresh is due.
    pub deadline_ms: u64,
    /// The displayed hour.
    pub hour: u8,
    /// The displayed minute.
    pub minute: u8,
}

/// What one refresh does: the display follows the reading, dirty exactly
/// when the displayed hour or minute changed, and the next deadline lands
/// just after the next minute boundary.
pub open spec fn clock_step(c: Clock, t: ClockTime, now_ms: u64) -> (Clock, bool) {
    (
        Clock {
            deadline_ms: deadline_after(now_ms, wait_until_next_minute_spec(t)),
            hour: t.hour,
            minute: t.minute,
        },
        c.hour != t.hour || c.minute != t.minute,
    )
}

impl Clock {
    /// Reads the current local time, falling back to UTC when the local
    /// offset cannot be determined.
    pub fn read() -> (r: ClockTime)
        ensures
            r.wf(),
    {
        match now_local_time() {
            Some(t) => t,
            None => now_utc_time(),
        }
    }

    /// Computes the wait from a reading to just after the next minute
    /// boundary, in milliseconds; always between one second and 61 seconds.
    pub fn time_until_next_minute(t: &ClockTime) -> (r: u64)
        ensures
            r == wait_until_next_minute_spec(*t),
            1000 <= r <= 61_000,
    {
        let secs: u64 = (59 - (t.second % 60) + 1) as u64;
        let nanos: u64 = (1_000_000_000 - (t.nanosecond % 1_000_000_000)) as u64;
        secs * 1000 + nanos / 1_000_000
    }

    /// Starts the clock from a fresh reading taken now.
    pub fn new(now_ms: u64) -> (r: Clock)
        ensures
            exists|t: ClockTime|
                t.wf() && r == #[trigger] clock_step(
                    Clock { deadline_ms: 0, hour: 0, minute: 0 },
                    t,
                    now_ms,
                ).0,
            r.hour < 24 && r.minute < 60,
    {
        let t = Clock::read();
        let mut c = Clock { deadline_ms: 0, hour: 0, minute: 0 };
        let _ = c.observe(&t, now_ms);
        proof {
            assert(c == clock_step(Clock { deadline_ms: 0, hour: 0, minute: 0 }, t, now_ms).0);
        }
        c
    }

    /// Applies one reading: the verified half of a refresh.
    pub fn observe(&mut self, t: &ClockTime, now_ms: u64) -> (dirty: bool)
        ensures
            (*final(self), dirty) == clock_step(*old(self), *t, now_ms),
    {
        let dirty = self.hour != t.hour || self.minute != t.minute;
        self.hour = t.hour;
        self.minute = t.minute;
        let wait = Clock::time_until_next_minute(t);
        self.deadline_ms = now_ms.saturating_add(wait);
        dirty
    }

    /// Refreshes from the current time; dirty exactly when the displayed
    /// hour or minute changed.
    pub fn update(&mut self, now_ms: u64) -> (dirty: bool)
        ensures
            exists|t: ClockTime|
                t.wf() && (*final(self), dirty) == #[trigger] clock_step(*old(self), t, now_ms),
    {
        let t = Clock::read();
        let dirty = self.observe(&t, now_ms);
        proof {
            assert((*self, dirty) == clock_step(*old(self), t, now_ms));
        }
        dirty
    }

    /// When this source must next be refreshed.
    pub fn timeout_ms(&self) -> (r: Option<u64>)
        ensures
            r == Some(self.deadline_ms),
    {
        Some(self.deadline_ms)
    }
}

/// Two consecutive refreshes that observe the same displayed hour and
/// minute are never dirty the second time.
pub proof fn lemma_clock_refresh_idempotent(
    c: Clock,
    t1: ClockTime,
    t2: ClockTime,
    n1: u64,
    n2: u64,
)
    requires
        t1.hour == t2.hour,
        t1.minute == t2.minute,
    ensures
        !clock_step(clock_step(c, t1, n1).0, t2, n2).1,
{
}

} // verus!
