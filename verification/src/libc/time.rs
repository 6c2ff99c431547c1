//! Clocks over the milliseconds since the start of the system.
use vstd::prelude::*;

verus! {

/// Seconds from the epoch to the start of the system: a fixed day, as there is
/// no clock that runs across restarts.
pub const BUILD_EPOCH: i64 = 1_781_395_200;

/// A time in seconds and nanoseconds.
#[derive(Clone, Copy, PartialEq, Eq, Structural, Debug)]
pub struct Timespec {
    pub tv_sec: i64,
    pub tv_nsec: i64,
}

/// Seconds since the epoch.
pub fn time(uptime_ms: u64) -> (t: i64)
    requires
        uptime_ms <= i64::MAX,
    ensures
        t == BUILD_EPOCH + uptime_ms as int / 1000,
{
    BUILD_EPOCH + (uptime_ms / 1000) as i64
}

/// The milliseconds since the start in seconds and nanoseconds.
pub fn clock_gettime(uptime_ms: u64) -> (ts: Timespec)
    ensures
        ts.tv_sec == uptime_ms as int / 1000,
        ts.tv_nsec == uptime_ms as int % 1000 * 1_000_000,
{
    Timespec { tv_sec: (uptime_ms / 1000) as i64, tv_nsec: (uptime_ms % 1000 * 1_000_000) as i64 }
}

/// The milliseconds since the start in seconds and microseconds.
pub fn gettimeofday(uptime_ms: u64) -> (tv: (i64, i64))
    ensures
        tv.0 == uptime_ms as int / 1000,
        tv.1 == uptime_ms as int % 1000 * 1000,
{
    ((uptime_ms / 1000) as i64, (uptime_ms % 1000 * 1000) as i64)
}

/// No time is lost between the parts of a clock.
pub proof fn law_clock_is_whole(ms: int)
    requires
        0 <= ms,
    ensures
        ms / 1000 * 1_000_000_000 + ms % 1000 * 1_000_000 == ms * 1_000_000,
        0 <= ms % 1000 * 1_000_000 < 1_000_000_000,
{
}

} // verus!
