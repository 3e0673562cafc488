//! Civil (wall-clock) date-times in the proleptic Gregorian calendar, with
//! verified arithmetic for shifting a date-time by a bounded number of
//! seconds. Game times are parsed as US Pacific wall-clock times and shifted
//! to UTC by the zone offset; event end times are the start plus a fixed
//! duration.

use vstd::prelude::*;

verus! {

/// A calendar date with a time of day, in no particular time zone.
#[derive(Clone, Copy, PartialEq, Eq, Structural, Debug)]
pub struct CivilDateTime {
    pub year: u16,
    pub month: u8,
    pub day: u8,
    pub hour: u8,
    pub minute: u8,
    pub second: u8,
}

pub open spec fn is_leap_year(y: int) -> bool {
    y % 4 == 0 && (y % 100 != 0 || y % 400 == 0)
}

pub open spec fn days_in_year(y: int) -> int {
    if is_leap_year(y) {
        366
    } else {
        365
    }
}

pub open spec fn days_in_month(y: int, m: int) -> int
    recommends
        1 <= m <= 12,
{
    if m == 2 {
        if is_leap_year(y) {
            29
        } else {
            28
        }
    } else if m == 4 || m == 6 || m == 9 || m == 11 {
        30
    } else {
        31
    }
}

/// Days in year `y` that lie before the first day of month `m`.
pub open spec fn days_before_month(y: int, m: int) -> int
    decreases m,
{
    if m <= 1 {
        0
    } else {
        days_before_month(y, m - 1) + days_in_month(y, m - 1)
    }
}

/// Days before January 1 of year `y`, counting from January 1 of year 0.
pub open spec fn days_before_year(y: int) -> int
    decreases y,
{
    if y <= 0 {
        0
    } else {
        days_before_year(y - 1) + days_in_year(y - 1)
    }
}

impl CivilDateTime {
    /// A well-formed date-time: the date exists in the calendar and the time
    /// of day is in range. Any `u16` year is allowed.
    pub open spec fn wf(self) -> bool {
        &&& 1 <= self.month <= 12
        &&& 1 <= self.day <= days_in_month(self.year as int, self.month as int)
        &&& self.hour <= 23
        &&& self.minute <= 59
        &&& self.second <= 59
    }

    /// Days since January 1 of year 0.
    pub open spec fn total_days(self) -> int {
        days_before_year(self.year as int) + days_before_month(
            self.year as int,
            self.month as int,
        ) + (self.day - 1)
    }

    /// Seconds since the midnight that starts January 1 of year 0.
    pub open spec fn total_seconds(self) -> int {
        self.total_days() * 86400 + self.hour * 3600 + self.minute * 60 + self.second
    }
}

/// The timestamps representable by a `CivilDateTime` with a `u16` year:
/// everything from year 0 up to the end of year 65535.
pub open spec fn timestamp_in_range(t: int) -> bool {
    0 <= t < days_before_year(65536) * 86400
}

pub proof fn lemma_days_before_month_step(y: int, m: int)
    requires
        1 <= m,
    ensures
        days_before_month(y, m + 1) == days_before_month(y, m) + days_in_month(y, m),
{
}

/// The twelve months of year `y` together hold exactly `days_in_year(y)` days.
pub proof fn lemma_months_fill_year(y: int)
    ensures
        days_before_month(y, 13) == days_in_year(y),
{
    reveal_with_fuel(days_before_month, 14);
}

pub proof fn lemma_days_before_year_step(y: int)
    requires
        y >= 0,
    ensures
        days_before_year(y + 1) == days_before_year(y) + days_in_year(y),
{
}

pub proof fn lemma_days_before_month_mono(y: int, m1: int, m2: int)
    requires
        1 <= m1 <= m2 <= 13,
    ensures
        days_before_month(y, m1) <= days_before_month(y, m2),
    decreases m2 - m1,
{
    if m1 < m2 {
        lemma_days_before_month_mono(y, m1, m2 - 1);
    }
}

pub proof fn lemma_days_before_year_mono(y1: int, y2: int)
    requires
        0 <= y1 <= y2,
    ensures
        days_before_year(y1) <= days_before_year(y2),
        days_before_year(y1) + (y2 - y1) * 365 <= days_before_year(y2),
    decreases y2 - y1,
{
    if y1 < y2 {
        lemma_days_before_year_mono(y1, y2 - 1);
        assert((y2 - y1) * 365 == (y2 - 1 - y1) * 365 + 365) by (nonlinear_arith);
    }
}

/// A well-formed date-time lies within the days of its own year.
pub proof fn lemma_total_days_in_year(d: CivilDateTime)
    requires
        d.wf(),
    ensures
        days_before_year(d.year as int) <= d.total_days(),
        d.total_days() < days_before_year(d.year as int + 1),
{
    lemma_days_before_month_mono(d.year as int, 1, d.month as int);
    lemma_days_before_month_step(d.year as int, d.month as int);
    lemma_days_before_month_mono(d.year as int, d.month as int + 1, 13);
    lemma_months_fill_year(d.year as int);
    lemma_days_before_year_step(d.year as int);
}

/// A well-formed date-time has a timestamp in range.
pub proof fn lemma_timestamp_in_range(d: CivilDateTime)
    requires
        d.wf(),
    ensures
        timestamp_in_range(d.total_seconds()),
{
    lemma_total_days_in_year(d);
    lemma_days_before_year_mono(0, d.year as int);
    lemma_days_before_year_mono(d.year as int + 1, 65536);
    assert(d.total_days() * 86400 <= (days_before_year(65536) - 1) * 86400) by (nonlinear_arith)
        requires
            d.total_days() <= days_before_year(65536) - 1,
    ;
    assert(0 <= d.total_days() * 86400) by (nonlinear_arith)
        requires
            0 <= d.total_days(),
    ;
}

/// Exec counterpart of `is_leap_year`.
pub fn leap_year(y: u16) -> (r: bool)
    ensures
        r == is_leap_year(y as int),
{
    y % 4 == 0 && (y % 100 != 0 || y % 400 == 0)
}

/// Exec counterpart of `days_in_month`.
pub fn month_len(y: u16, m: u8) -> (r: u8)
    requires
        1 <= m <= 12,
    ensures
        r == days_in_month(y as int, m as int),
{
    if m == 2 {
        if leap_year(y) {
            29
        } else {
            28
        }
    } else if m == 4 || m == 6 || m == 9 || m == 11 {
        30
    } else {
        31
    }
}

/// The calendar day after the given day, or `None` past the last
/// representable day.
fn next_day(y: u16, m: u8, d: u8) -> (r: Option<(u16, u8, u8)>)
    requires
        1 <= m <= 12,
        1 <= d <= days_in_month(y as int, m as int),
    ensures
        match r {
            Some((y2, m2, d2)) => {
                &&& 1 <= m2 <= 12
                &&& 1 <= d2 <= days_in_month(y2 as int, m2 as int)
                &&& days_before_year(y2 as int) + days_before_month(y2 as int, m2 as int) + (d2
                    - 1) == days_before_year(y as int) + days_before_month(y as int, m as int) + (d
                    - 1) + 1
            },
            None => y == 65535 && m == 12 && d == 31,
        },
{
    if d < month_len(y, m) {
        Some((y, m, d + 1))
    } else if m < 12 {
        proof {
            lemma_days_before_month_step(y as int, m as int);
        }
        Some((y, m + 1, 1))
    } else if y < 65535 {
        proof {
            lemma_days_before_month_step(y as int, 12);
            lemma_months_fill_year(y as int);
            lemma_days_before_year_step(y as int);
        }
        Some((y + 1, 1, 1))
    } else {
        None
    }
}

/// The calendar day before the given day, or `None` before the first
/// representable day.
fn prev_day(y: u16, m: u8, d: u8) -> (r: Option<(u16, u8, u8)>)
    requires
        1 <= m <= 12,
        1 <= d <= days_in_month(y as int, m as int),
    ensures
        match r {
            Some((y2, m2, d2)) => {
                &&& 1 <= m2 <= 12
                &&& 1 <= d2 <= days_in_month(y2 as int, m2 as int)
                &&& days_before_year(y2 as int) + days_before_month(y2 as int, m2 as int) + (d2
                    - 1) == days_before_year(y as int) + days_before_month(y as int, m as int) + (d
                    - 1) - 1
            },
            None => y == 0 && m == 1 && d == 1,
        },
{
    if d > 1 {
        Some((y, m, d - 1))
    } else if m > 1 {
        proof {
            lemma_days_before_month_step(y as int, m as int - 1);
        }
        Some((y, m - 1, month_len(y, m - 1)))
    } else if y > 0 {
        proof {
            lemma_days_before_month_step(y as int - 1, 12);
            lemma_months_fill_year(y as int - 1);
            lemma_days_before_year_step(y as int - 1);
        }
        Some((y - 1, 12, month_len(y - 1, 12)))
    } else {
        None
    }
}

/// Shifts a date-time by `delta` seconds (up to two days in either
/// direction), carrying through days, months and years. Returns `None`
/// exactly when the result would fall outside the representable years.
pub fn add_seconds(d: &CivilDateTime, delta: i64) -> (r: Option<CivilDateTime>)
    requires
        d.wf(),
        -172800 <= delta <= 172800,
    ensures
        match r {
            Some(e) => e.wf() && e.total_seconds() == d.total_seconds() + delta,
            None => !timestamp_in_range(d.total_seconds() + delta),
        },
        r is None ==> !timestamp_in_range(d.total_seconds() + delta),
        timestamp_in_range(d.total_seconds() + delta) ==> r is Some,
{
    let day_secs: i64 = (d.hour as i64) * 3600 + (d.minute as i64) * 60 + (d.second as i64);
    let shifted: u64 = (day_secs + delta + 172800) as u64;
    let rem: u64 = shifted % 86400;
    let quot: u64 = shifted / 86400;
    let mut steps_fwd: u64 = if quot >= 2 {
        quot - 2
    } else {
        0
    };
    let mut steps_back: u64 = if quot >= 2 {
        0
    } else {
        2 - quot
    };
    let ghost target_days: int = d.total_days() + quot - 2;
    proof {
        assert(shifted == 86400 * quot + rem) by (nonlinear_arith)
            requires
                quot == shifted / 86400 && rem == shifted % 86400 && shifted <= 432000,
        ;
        assert(target_days * 86400 + rem == d.total_seconds() + delta) by (nonlinear_arith)
            requires
                target_days == d.total_days() + quot - 2,
                d.total_seconds() == d.total_days() * 86400 + d.hour * 3600 + d.minute * 60
                    + d.second,
                shifted == 86400 * quot + rem,
                shifted == d.hour * 3600 + d.minute * 60 + d.second + delta + 172800,
        ;
    }
    let mut y: u16 = d.year;
    let mut m: u8 = d.month;
    let mut dy: u8 = d.day;
    while steps_fwd > 0
        invariant
            1 <= m <= 12,
            1 <= dy <= days_in_month(y as int, m as int),
            steps_fwd <= 2,
            days_before_year(y as int) + days_before_month(y as int, m as int) + (dy - 1)
                + steps_fwd - steps_back == target_days,
            steps_back <= 2,
            steps_back > 0 ==> steps_fwd == 0,
            rem < 86400,
            target_days * 86400 + rem == d.total_seconds() + delta,
        decreases steps_fwd,
    {
        match next_day(y, m, dy) {
            Some((y2, m2, d2)) => {
                y = y2;
                m = m2;
                dy = d2;
            },
            None => {
                proof {
                    lemma_days_before_month_step(65535, 12);
                    lemma_months_fill_year(65535);
                    lemma_days_before_year_step(65535);
                    assert(target_days >= days_before_year(65536));
                    assert(target_days * 86400 >= days_before_year(65536) * 86400)
                        by (nonlinear_arith)
                        requires
                            target_days >= days_before_year(65536),
                    ;
                }
                return None;
            },
        }
        steps_fwd = steps_fwd - 1;
    }
    while steps_back > 0
        invariant
            1 <= m <= 12,
            1 <= dy <= days_in_month(y as int, m as int),
            steps_back <= 2,
            days_before_year(y as int) + days_before_month(y as int, m as int) + (dy - 1)
                + steps_fwd - steps_back == target_days,
            steps_fwd == 0,
            rem < 86400,
            target_days * 86400 + rem == d.total_seconds() + delta,
        decreases steps_back,
    {
        match prev_day(y, m, dy) {
            Some((y2, m2, d2)) => {
                y = y2;
                m = m2;
                dy = d2;
            },
            None => {
                proof {
                    assert(target_days <= -1);
                    assert(target_days * 86400 <= -86400) by (nonlinear_arith)
                        requires
                            target_days <= -1,
                    ;
                }
                return None;
            },
        }
        steps_back = steps_back - 1;
    }
    let hour: u64 = rem / 3600;
    let minute: u64 = (rem % 3600) / 60;
    let second: u64 = rem % 60;
    proof {
        assert(hour <= 23 && minute <= 59 && second <= 59 && rem == hour * 3600 + minute * 60
            + second) by (nonlinear_arith)
            requires
                rem < 86400 && hour == rem / 3600 && minute == (rem % 3600) / 60 && second == rem
                    % 60,
        ;
    }
    let e = CivilDateTime {
        year: y,
        month: m,
        day: dy,
        hour: hour as u8,
        minute: minute as u8,
        second: second as u8,
    };
    proof {
        assert(e.total_seconds() == d.total_seconds() + delta) by (nonlinear_arith)
            requires
                e.total_days() == target_days,
                e.total_seconds() == e.total_days() * 86400 + e.hour * 3600 + e.minute * 60
                    + e.second,
                e.hour == hour && e.minute == minute && e.second == second,
                rem == hour * 3600 + minute * 60 + second,
                target_days * 86400 + rem == d.total_seconds() + delta,
        ;
        lemma_timestamp_in_range(e);
    }
    Some(e)
}

} // verus!
