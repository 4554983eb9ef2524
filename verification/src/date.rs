use vstd::prelude::*;

verus! {

/// A calendar date and time of day, fields as a human reads them.
#[derive(Debug, Clone, Copy, PartialEq, Eq, Structural)]
pub struct DateTime {
    /// Seconds after the minute - [0, 59]
    pub sec: i32,
    /// Minutes after the hour - [0, 59]
    pub min: i32,
    /// Hours after midnight - [0, 23]
    pub hour: i32,
    /// Day of the month - [1, 31]
    pub day: i32,
    /// Months since January - [1, 12]
    pub month: i32,
    /// Years
    pub year: i32,
}

/// A calendar date alone.
#[derive(Debug, Clone, Copy, PartialEq, Eq, Structural)]
pub struct Date {
    /// Day of the month - [1, 31]
    pub day: i32,
    /// Months since January - [1, 12]
    pub month: i32,
    /// Years
    pub year: i32,
}

impl DateTime {
    /// The all-zero placeholder value.
    pub fn new() -> (r: Self)
        ensures
            r.sec == 0 && r.min == 0 && r.hour == 0 && r.day == 0 && r.month == 0 && r.year == 0,
    {
        Self { sec: 0, min: 0, hour: 0, day: 0, month: 0, year: 0 }
    }

    /// The date part of this value.
    pub fn date(&self) -> (r: Date)
        ensures
            r.day == self.day && r.month == self.month && r.year == self.year,
    {
        Date { day: self.day, month: self.month, year: self.year }
    }
}

impl Date {
    /// The all-zero placeholder value.
    pub fn new() -> (r: Self)
        ensures
            r.day == 0 && r.month == 0 && r.year == 0,
    {
        Self { day: 0, month: 0, year: 0 }
    }
}

/// The Gregorian leap-year rule.
pub open spec fn is_leap_year(year: int) -> bool {
    year % 4 == 0 && (year % 100 != 0 || year % 400 == 0)
}

pub open spec fn days_in_year(year: int) -> int {
    if is_leap_year(year) {
        366
    } else {
        365
    }
}

pub open spec fn days_in_month(year: int, month: int) -> int {
    if month == 1 {
        31
    } else if month == 2 {
        if is_leap_year(year) {
            29
        } else {
            28
        }
    } else if month == 3 {
        31
    } else if month == 4 {
        30
    } else if month == 5 {
        31
    } else if month == 6 {
        30
    } else if month == 7 {
        31
    } else if month == 8 {
        31
    } else if month == 9 {
        30
    } else if month == 10 {
        31
    } else if month == 11 {
        30
    } else {
        31
    }
}

/// Days from the epoch date to the start of `year`.
pub open spec fn days_before_year(year: int) -> int
    decreases year - 1970,
{
    if year <= 1970 {
        0
    } else {
        days_before_year(year - 1) + days_in_year(year - 1)
    }
}

/// Days from the start of the year to the start of `month`.
pub open spec fn days_before_month(year: int, month: int) -> int
    decreases month,
{
    if month <= 1 {
        0
    } else {
        days_before_month(year, month - 1) + days_in_month(year, month - 1)
    }
}

/// The day number (days since the epoch date) a calendar date denotes.
pub open spec fn days_from_epoch(year: int, month: int, day: int) -> int {
    days_before_year(year) + days_before_month(year, month) + (day - 1)
}

proof fn lemma_days_before_year_grows(year: int)
    requires
        year >= 1970,
    ensures
        days_before_year(year) >= 365 * (year - 1970),
    decreases year - 1970,
{
    if year > 1970 {
        lemma_days_before_year_grows(year - 1);
    }
}

proof fn lemma_year_months(year: int)
    ensures
        days_before_month(year, 13) == days_in_year(year),
{
    reveal_with_fuel(days_before_month, 14);
}

fn leap_year(year: i64) -> (r: bool)
    ensures
        r == is_leap_year(year as int),
{
    year % 4 == 0 && (year % 100 != 0 || year % 400 == 0)
}

fn year_size(year: i64) -> (r: i64)
    ensures
        r == days_in_year(year as int),
{
    if leap_year(year) {
        366
    } else {
        365
    }
}

fn month_days(year: i64, month: i64) -> (r: i64)
    requires
        1 <= month <= 12,
    ensures
        r == days_in_month(year as int, month as int),
{
    if month == 1 {
        31
    } else if month == 2 {
        if leap_year(year) {
            29
        } else {
            28
        }
    } else if month == 3 {
        31
    } else if month == 4 {
        30
    } else if month == 5 {
        31
    } else if month == 6 {
        30
    } else if month == 7 {
        31
    } else if month == 8 {
        31
    } else if month == 9 {
        30
    } else if month == 10 {
        31
    } else if month == 11 {
        30
    } else {
        31
    }
}

/// Converts epoch seconds into a calendar date and time of day: the time
/// fields are the day-clock decomposition of `ts`, and the date fields
/// form the valid calendar date whose day number is exactly `ts / 86400`.
/// The bound on `ts` keeps the year within the four digits the display
/// format carries.
pub fn seconds_to_datetime(ts: i64, tm: &mut DateTime)
    requires
        0 <= ts < 253402300800,
    ensures
        final(tm).sec == (ts % 86400) % 60,
        final(tm).min == ((ts % 86400) % 3600) / 60,
        final(tm).hour == (ts % 86400) / 3600,
        final(tm).year >= 1970,
        1 <= final(tm).month <= 12,
        1 <= final(tm).day <= days_in_month(final(tm).year as int, final(tm).month as int),
        days_from_epoch(final(tm).year as int, final(tm).month as int, final(tm).day as int) == ts
            / 86400,
{
    let dayclock = ts % 86400;
    let mut dayno = ts / 86400;
    let ghost total = ts / 86400;

    tm.sec = (dayclock % 60) as i32;
    tm.min = ((dayclock % 3600) / 60) as i32;
    tm.hour = (dayclock / 3600) as i32;

    let mut year: i64 = 1970;
    while dayno >= year_size(year)
        invariant
            year >= 1970,
            dayno >= 0,
            days_before_year(year as int) + dayno == total,
            total <= 2932897,
        decreases dayno,
    {
        proof {
            lemma_days_before_year_grows(year as int);
        }
        dayno = dayno - year_size(year);
        year = year + 1;
    }
    proof {
        lemma_days_before_year_grows(year as int);
        assert(365 * (year - 1970) <= total);
        assert(year <= 10006);
    }
    tm.year = year as i32;

    let mut mon: i64 = 1;
    while dayno >= month_days(year, mon)
        invariant
            1 <= mon <= 12,
            dayno >= 0,
            year >= 1970,
            year <= 10006,
            days_before_year(year as int) + days_before_month(year as int, mon as int) + dayno
                == total,
            dayno + days_before_month(year as int, mon as int) < days_in_year(year as int),
        decreases 12 - mon,
    {
        proof {
            if mon == 12 {
                lemma_year_months(year as int);
                assert(days_before_month(year as int, 13) == days_before_month(year as int, 12)
                    + days_in_month(year as int, 12));
            }
        }
        dayno = dayno - month_days(year, mon);
        mon = mon + 1;
    }
    tm.month = mon as i32;
    tm.day = (dayno + 1) as i32;
    proof {
        assert(1 <= mon <= 12);
        assert(dayno < days_in_month(year as int, mon as int));
    }
}

} // verus!
