//! The real-time clock: from its registers to seconds since the epoch.
use vstd::prelude::*;

verus! {

/// The registers of the clock, as read.
#[derive(Clone, Copy, PartialEq, Eq, Debug, Structural)]
pub struct RtcRegs {
    pub sec: u8,
    pub min: u8,
    pub hour: u8,
    pub day: u8,
    pub month: u8,
    pub year: u8,
    pub status_b: u8,
}

/// Whether `y` is a leap year.
pub open spec fn leap(y: int) -> bool {
    y % 4 == 0 && (y % 100 != 0 || y % 400 == 0)
}

/// Days of month `m` of year `y`.
pub open spec fn days_in_month(y: int, m: int) -> int {
    if m == 2 {
        if leap(y) {
            29
        } else {
            28
        }
    } else if m == 4 || m == 6 || m == 9 || m == 11 {
        30
    } else {
        31
    }
}

/// A date of the calendar.
pub open spec fn is_date(y: int, m: int, d: int) -> bool {
    1 <= m <= 12 && 1 <= d <= days_in_month(y, m)
}

/// The day number of a date, day 0 being the first of January 1970. A year counts from
/// March, so that a leap day is its last.
pub open spec fn civil_days(y: int, m: int, d: int) -> int {
    let y2 = if m <= 2 {
        y - 1
    } else {
        y
    };
    let era = y2 / 400;
    let yoe = y2 - era * 400;
    let mp = if m > 2 {
        m - 3
    } else {
        m + 9
    };
    let doy = (153 * mp + 2) / 5 + (d - 1);
    let doe = yoe * 365 + yoe / 4 - yoe / 100 + doy;
    era * 146097 + doe - 719468
}

/// The date after `(y, m, d)`.
pub open spec fn next_date(y: int, m: int, d: int) -> (int, int, int) {
    if d < days_in_month(y, m) {
        (y, m, d + 1)
    } else if m < 12 {
        (y, m + 1, 1)
    } else {
        (y + 1, 1, 1)
    }
}

/// Day numbers follow the calendar: the epoch is day 0, and every day is one more than
/// the day before it.
pub proof fn law_days_follow_calendar(y: int, m: int, d: int)
    requires
        is_date(y, m, d),
    ensures
        civil_days(1970, 1, 1) == 0,
        ({
            let n = next_date(y, m, d);
            civil_days(n.0, n.1, n.2) == civil_days(y, m, d) + 1
        }),
{
    if d >= days_in_month(y, m) && m == 2 {
        let p = y - 1;
        lemma_year_turns(p);
    }
}

/// From the last day of a year that counts from March to the first of the next is one
/// day.
proof fn lemma_year_turns(p: int)
    ensures
        ({
            let y = p + 1;
            civil_days(y, 3, 1) == civil_days(y, 2, days_in_month(y, 2)) + 1
        }),
{
    let y = p + 1;
    let e = p / 400;
    let r = p % 400;
    assert(p == e * 400 + r);
    if r == 399 {
        assert(y / 400 == e + 1);
        assert(y % 4 == 0 && y % 400 == 0);
    } else {
        assert(y / 400 == e);
        let s = r + 1;
        assert(s == y - e * 400);
        assert(y % 4 == s % 4);
        assert(y % 100 == s % 100);
        assert(y % 400 == s);
        assert(s / 4 - r / 4 == (if s % 4 == 0 {
            1int
        } else {
            0
        }));
        assert(s / 100 - r / 100 == (if s % 100 == 0 {
            1int
        } else {
            0
        }));
    }
}

/// The day number of a date.
pub fn days_from_civil(y: i64, m: u32, d: u32) -> (n: i64)
    requires
        -0x1_0000_0000 <= y <= 0x1_0000_0000,
        m <= 255,
        1 <= d <= 255,
    ensures
        n == civil_days(y as int, m as int, d as int),
{
    let y2: i64 = if m <= 2 {
        y - 1
    } else {
        y
    };
    let era: i64 = if y2 >= 0 {
        y2 / 400
    } else {
        floor_400(y2)
    };
    let yoe: i64 = y2 - era * 400;
    let mp: u32 = if m > 2 {
        m - 3
    } else {
        m + 9
    };
    let doy: u32 = (153 * mp + 2) / 5 + (d - 1);
    let doe: i64 = yoe * 365 + yoe / 4 - yoe / 100 + doy as i64;
    era * 146097 + doe - 719468
}

/// A negative year divided by 400, rounded down.
fn floor_400(y: i64) -> (q: i64)
    requires
        -0x1_0000_0001 <= y < 0,
    ensures
        q == y as int / 400,
{
    let a: i64 = 399 - y;
    let q: i64 = a / 400;
    assert(q == (399 - y) / 400);
    -q
}

/// A register's number: two decimal digits, or binary.
pub open spec fn decoded(v: u8, bcd: bool) -> int {
    if bcd {
        v % 16 + (v / 16) * 10
    } else {
        v as int
    }
}

/// The hour of the day, on a clock of 24 hours or of twelve. On the latter the top bit
/// says afternoon, and twelve comes before one.
pub open spec fn hour_of(v: u8, bcd: bool, twelve: bool) -> int {
    let h = decoded((v % 128) as u8, bcd);
    if !twelve {
        h
    } else if v >= 128 {
        if h != 12 {
            h + 12
        } else {
            12
        }
    } else if h == 12 {
        0
    } else {
        h
    }
}

/// Seconds since the epoch that the registers stand for; years are of this century.
pub open spec fn epoch(r: RtcRegs) -> int {
    let bcd = r.status_b & 0x04 == 0;
    let twelve = r.status_b & 0x02 == 0;
    let days = civil_days(2000 + decoded(r.year, bcd), decoded(r.month, bcd), decoded(r.day, bcd));
    days * 86400 + hour_of(r.hour, bcd, twelve) * 3600 + decoded(r.min, bcd) * 60 + decoded(
        r.sec,
        bcd,
    )
}

fn dec(v: u8, bcd: bool) -> (n: u8)
    ensures
        n == decoded(v, bcd),
{
    if bcd {
        v % 16 + (v / 16) * 10
    } else {
        v
    }
}

/// Seconds since the epoch. The registers must come from a read that no tick of the
/// clock fell into.
pub fn epoch_secs(r: &RtcRegs) -> (s: u64)
    requires
        decoded(r.day, r.status_b & 0x04 == 0) >= 1,
    ensures
        s == epoch(*r),
{
    let bcd = r.status_b & 0x04 == 0;
    let twelve = r.status_b & 0x02 == 0;
    let sec: u64 = dec(r.sec, bcd) as u64;
    let min: u64 = dec(r.min, bcd) as u64;
    let day: u32 = dec(r.day, bcd) as u32;
    let month: u32 = dec(r.month, bcd) as u32;
    let year: i64 = dec(r.year, bcd) as i64;
    let pm = twelve && r.hour >= 128;
    let mut hour: u64 = dec(r.hour % 128, bcd) as u64;
    if twelve {
        if pm {
            if hour != 12 {
                hour += 12;
            }
        } else if hour == 12 {
            hour = 0;
        }
    }
    let days: i64 = days_from_civil(2000 + year, month, day);
    proof {
        lemma_days_bounds(2000 + year, month as int, day as int);
    }
    (days as u64) * 86400 + hour * 3600 + min * 60 + sec
}

proof fn lemma_days_bounds(y: int, m: int, d: int)
    requires
        2000 <= y <= 2255,
        0 <= m <= 255,
        1 <= d <= 255,
    ensures
        0 <= civil_days(y, m, d) <= 200_000,
{
}

} // verus!
