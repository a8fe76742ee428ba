//! Conversion of a FILETIME-convention timestamp to UTC calendar fields.
//!
//! `deletion_time` counts 100-nanosecond ticks since 1601-01-01T00:00:00 UTC.
//! The conversion is a pure proleptic-Gregorian breakdown: whole seconds,
//! then days since the 1601 epoch, then year, month and day by walking the
//! Gregorian day counts.  No host time facility is involved and no timezone
//! adjustment is applied.

use vstd::prelude::*;
use vstd::arithmetic::div_mod::lemma_fundamental_div_mod;

verus! {

/// A point in time in UTC calendar fields, as derived from a tick count.
/// `day_of_week` is 0 for Sunday through 6 for Saturday.
#[derive(Clone, Copy, Debug, PartialEq, Eq, Structural)]
pub struct CalendarTime {
    pub year: u64,
    pub month: u8,
    pub day: u8,
    pub hour: u8,
    pub minute: u8,
    pub second: u8,
    pub millisecond: u16,
    pub day_of_week: u8,
}

/// Gregorian leap-year rule.
pub open spec fn is_leap_year(y: int) -> bool {
    (y % 4 == 0 && y % 100 != 0) || y % 400 == 0
}

/// Number of days in year `y`.
pub open spec fn days_in_year(y: int) -> int {
    if is_leap_year(y) {
        366
    } else {
        365
    }
}

/// Number of days in month `m` of year `y`.
pub open spec fn days_in_month(y: int, m: int) -> int {
    if m == 2 {
        if is_leap_year(y) {
            29
        } else {
            28
        }
    } else if m == 4 || m == 6 || m == 9 || m == 11 {
        30
    } else {
        31
    }
}

/// Days from the 1601-01-01 epoch to the first day of year `y`.
pub open spec fn days_before_year(y: int) -> int
    decreases y - 1601,
{
    if y <= 1601 {
        0
    } else {
        days_before_year(y - 1) + days_in_year(y - 1)
    }
}

/// Days from the first day of year `y` to the first day of its month `m`.
pub open spec fn days_before_month(y: int, m: int) -> int
    decreases m,
{
    if m <= 1 {
        0
    } else {
        days_before_month(y, m - 1) + days_in_month(y, m - 1)
    }
}

/// The calendar date `y-m-d` as a count of days since 1601-01-01.
pub open spec fn day_number(y: int, m: int, d: int) -> int {
    days_before_year(y) + days_before_month(y, m) + (d - 1)
}

/// A well-formed Gregorian date on or after the 1601 epoch.
pub open spec fn valid_date(y: int, m: int, d: int) -> bool {
    1601 <= y && 1 <= m <= 12 && 1 <= d <= days_in_month(y, m)
}

/// What the conversion of tick count `t` must yield: the unique valid date
/// whose day number is the tick count's whole days, and the clock fields cut
/// out of the remaining seconds, all in UTC.
pub open spec fn calendar_matches(c: CalendarTime, t: u64) -> bool {
    let secs = t as int / 10_000_000;
    let days = secs / 86400;
    let rem = secs % 86400;
    &&& valid_date(c.year as int, c.month as int, c.day as int)
    &&& day_number(c.year as int, c.month as int, c.day as int) == days
    &&& c.hour == rem / 3600
    &&& c.minute == rem % 3600 / 60
    &&& c.second == rem % 3600 % 60
    &&& c.millisecond == t as int / 10_000 % 1000
    &&& c.day_of_week == (days + 1) % 7
}

/// The calendar breakdown of tick count `t`.
pub open spec fn spec_calendar_of(t: u64) -> CalendarTime {
    choose|c: CalendarTime| calendar_matches(c, t)
}

/// The year table grows by at least 365 days per year.
pub proof fn lemma_days_before_year_lower(y: int)
    requires
        1601 <= y,
    ensures
        days_before_year(y) >= 365 * (y - 1601),
    decreases y - 1601,
{
    if y > 1601 {
        lemma_days_before_year_lower(y - 1);
    }
}

/// The year table is monotone.
pub proof fn lemma_days_before_year_mono(y1: int, y2: int)
    requires
        y1 <= y2,
    ensures
        days_before_year(y1) <= days_before_year(y2),
    decreases y2 - y1,
{
    if y1 < y2 {
        lemma_days_before_year_mono(y1, y2 - 1);
    }
}

/// The month table is monotone, by at least 28 days per month.
pub proof fn lemma_days_before_month_mono(y: int, m1: int, m2: int)
    requires
        m1 <= m2,
    ensures
        days_before_month(y, m1) <= days_before_month(y, m2),
    decreases m2 - m1,
{
    if m1 < m2 {
        lemma_days_before_month_mono(y, m1, m2 - 1);
    }
}

/// The twelve month lengths of a year sum to that year's length.
pub proof fn lemma_months_sum(y: int)
    ensures
        days_before_month(y, 13) == days_in_year(y),
{
    assert(days_before_month(y, 1) == 0);
    assert(days_before_month(y, 2) == days_before_month(y, 1) + days_in_month(y, 1));
    assert(days_before_month(y, 3) == days_before_month(y, 2) + days_in_month(y, 2));
    assert(days_before_month(y, 4) == days_before_month(y, 3) + days_in_month(y, 3));
    assert(days_before_month(y, 5) == days_before_month(y, 4) + days_in_month(y, 4));
    assert(days_before_month(y, 6) == days_before_month(y, 5) + days_in_month(y, 5));
    assert(days_before_month(y, 7) == days_before_month(y, 6) + days_in_month(y, 6));
    assert(days_before_month(y, 8) == days_before_month(y, 7) + days_in_month(y, 7));
    assert(days_before_month(y, 9) == days_before_month(y, 8) + days_in_month(y, 8));
    assert(days_before_month(y, 10) == days_before_month(y, 9) + days_in_month(y, 9));
    assert(days_before_month(y, 11) == days_before_month(y, 10) + days_in_month(y, 10));
    assert(days_before_month(y, 12) == days_before_month(y, 11) + days_in_month(y, 11));
    assert(days_before_month(y, 13) == days_before_month(y, 12) + days_in_month(y, 12));
}

/// A valid date's day number falls inside its own year.
pub proof fn lemma_day_number_in_year(y: int, m: int, d: int)
    requires
        valid_date(y, m, d),
    ensures
        days_before_year(y) <= day_number(y, m, d) < days_before_year(y + 1),
{
    lemma_days_before_month_mono(y, 1, m);
    lemma_days_before_month_mono(y, m + 1, 13);
    lemma_months_sum(y);
    assert(days_before_month(y, m + 1) == days_before_month(y, m) + days_in_month(y, m));
    assert(days_before_year(y + 1) == days_before_year(y) + days_in_year(y));
}

/// Day numbers determine valid dates: no two valid dates share one.
pub proof fn lemma_day_number_injective(y1: int, m1: int, d1: int, y2: int, m2: int, d2: int)
    requires
        valid_date(y1, m1, d1),
        valid_date(y2, m2, d2),
        day_number(y1, m1, d1) == day_number(y2, m2, d2),
    ensures
        y1 == y2 && m1 == m2 && d1 == d2,
{
    lemma_day_number_in_year(y1, m1, d1);
    lemma_day_number_in_year(y2, m2, d2);
    if y1 < y2 {
        lemma_days_before_year_mono(y1 + 1, y2);
        assert(false);
    }
    if y2 < y1 {
        lemma_days_before_year_mono(y2 + 1, y1);
        assert(false);
    }
    let n = day_number(y1, m1, d1) - days_before_year(y1);
    assert(days_before_month(y1, m1) <= n < days_before_month(y1, m1 + 1));
    assert(days_before_month(y1, m2) <= n < days_before_month(y1, m2 + 1));
    if m1 < m2 {
        lemma_days_before_month_mono(y1, m1 + 1, m2);
        assert(false);
    }
    if m2 < m1 {
        lemma_days_before_month_mono(y1, m2 + 1, m1);
        assert(false);
    }
}

/// At most one calendar breakdown matches a given tick count.
pub proof fn lemma_calendar_unique(c1: CalendarTime, c2: CalendarTime, t: u64)
    requires
        calendar_matches(c1, t),
        calendar_matches(c2, t),
    ensures
        c1 == c2,
{
    lemma_day_number_injective(
        c1.year as int,
        c1.month as int,
        c1.day as int,
        c2.year as int,
        c2.month as int,
        c2.day as int,
    );
}

/// Round-trip law: re-encoding the calendar fields of a matching breakdown
/// as whole seconds since 1601-01-01T00:00:00 UTC gives back exactly the
/// whole seconds of the tick count, with zero error on the second field.
pub proof fn lemma_timestamp_round_trip(c: CalendarTime, t: u64)
    requires
        calendar_matches(c, t),
    ensures
        day_number(c.year as int, c.month as int, c.day as int) * 86400 + c.hour * 3600
            + c.minute * 60 + c.second == t as u64 as int / 10_000_000,
{
    let secs = t as int / 10_000_000;
    let rem = secs % 86400;
    lemma_fundamental_div_mod(secs, 86400);
    lemma_fundamental_div_mod(rem, 3600);
    lemma_fundamental_div_mod(rem % 3600, 60);
}

/// Number of days in year `y`.
pub fn days_in_year_x(y: u64) -> (d: u64)
    ensures
        d == days_in_year(y as int),
{
    if (y % 4 == 0 && y % 100 != 0) || y % 400 == 0 {
        366
    } else {
        365
    }
}

/// Number of days in month `m` of year `y`.
pub fn days_in_month_x(y: u64, m: u8) -> (d: u64)
    requires
        1 <= m <= 12,
    ensures
        d == days_in_month(y as int, m as int),
{
    if m == 2 {
        if (y % 4 == 0 && y % 100 != 0) || y % 400 == 0 {
            29
        } else {
            28
        }
    } else if m == 4 || m == 6 || m == 9 || m == 11 {
        30
    } else {
        31
    }
}

/// Splits a count of days since 1601-01-01 into the unique valid Gregorian
/// date carrying that day number.
pub fn civil_from_days(days: u64) -> (ymd: (u64, u8, u8))
    ensures
        valid_date(ymd.0 as int, ymd.1 as int, ymd.2 as int),
        day_number(ymd.0 as int, ymd.1 as int, ymd.2 as int) == days,
{
    let mut y: u64 = 1601;
    let mut rem: u64 = days;
    loop
        invariant
            1601 <= y,
            days_before_year(y as int) + rem == days,
        ensures
            1601 <= y,
            days_before_year(y as int) + rem == days,
            rem < days_in_year(y as int),
        decreases rem,
    {
        let dy = days_in_year_x(y);
        if rem < dy {
            break;
        }
        proof {
            lemma_days_before_year_lower(y as int);
            assert(365 * (y - 1601) <= days);
        }
        rem = rem - dy;
        y = y + 1;
    }
    let mut m: u8 = 1;
    loop
        invariant
            1601 <= y,
            1 <= m <= 12,
            days_before_year(y as int) + days_before_month(y as int, m as int) + rem == days,
            days_before_month(y as int, m as int) + rem < days_in_year(y as int),
        ensures
            1601 <= y,
            1 <= m <= 12,
            days_before_year(y as int) + days_before_month(y as int, m as int) + rem == days,
            rem < days_in_month(y as int, m as int),
        decreases 12 - m,
    {
        let dm = days_in_month_x(y, m);
        if rem < dm {
            break;
        }
        proof {
            if m == 12 {
                lemma_months_sum(y as int);
                assert(false);
            }
            assert(days_before_month(y as int, m as int + 1) == days_before_month(
                y as int,
                m as int,
            ) + days_in_month(y as int, m as int));
        }
        rem = rem - dm;
        m = m + 1;
    }
    let d = (rem + 1) as u8;
    (y, m, d)
}

/// Breaks a FILETIME-convention tick count down into UTC calendar fields.
pub fn calendar_of(t: u64) -> (c: CalendarTime)
    ensures
        calendar_matches(c, t),
        c == spec_calendar_of(t),
{
    let secs = t / 10_000_000;
    let millisecond = ((t / 10_000) % 1000) as u16;
    let days = secs / 86400;
    let rem = secs % 86400;
    assert(rem < 86400);
    let hour = (rem / 3600) as u8;
    let minute = ((rem % 3600) / 60) as u8;
    let second = ((rem % 3600) % 60) as u8;
    let day_of_week = ((days % 7 + 1) % 7) as u8;
    let (year, month, day) = civil_from_days(days);
    let c = CalendarTime { year, month, day, hour, minute, second, millisecond, day_of_week };
    proof {
        assert((days % 7 + 1) % 7 == (days as int + 1) % 7) by (nonlinear_arith);
        assert(calendar_matches(c, t));
        lemma_calendar_unique(c, spec_calendar_of(t), t);
    }
    c
}

} // verus!
