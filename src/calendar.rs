//! Validation of dates in the Gregorian-only profile of ISO 8601
//! (years 1583 to 9999), with its leap-year rule.
use vstd::prelude::*;

verus! {

/// The first year that the standard profile accepts.
pub const MIN_YEAR: i32 = 1583;

/// The last year that the standard profile accepts.
pub const MAX_YEAR: i32 = 9999;

/// The Gregorian leap-year rule: divisible by 4, and either divisible by 400
/// or not by 100.
pub open spec fn leap(year: int) -> bool {
    year % 4 == 0 && (year % 400 == 0 || year % 100 != 0)
}

/// Whether a year lies in the supported range.
pub open spec fn year_in_range(year: int) -> bool {
    MIN_YEAR <= year <= MAX_YEAR
}

/// The number of days of a month in a leap year (0 for a month that does not exist).
pub open spec fn max_days_in_month(month: int) -> int {
    if month == 2 {
        29
    } else if month == 4 || month == 6 || month == 9 || month == 11 {
        30
    } else if 1 <= month <= 12 {
        31
    } else {
        0
    }
}

/// The number of days of a month in a given year.
pub open spec fn days_in_month(year: int, month: int) -> int {
    if month == 2 && !leap(year) {
        28
    } else {
        max_days_in_month(month)
    }
}

/// A month and day that exist in some year (February 29 included).
pub open spec fn month_day_ok(month: int, day: int) -> bool {
    1 <= month <= 12 && 1 <= day <= max_days_in_month(month)
}

/// A date that exists in the proleptic Gregorian calendar.
pub open spec fn gregorian_date(year: int, month: int, day: int) -> bool {
    1 <= month <= 12 && 1 <= day <= days_in_month(year, month)
}

/// A date that the standard profile accepts.
pub open spec fn valid_date(year: int, month: int, day: int) -> bool {
    year_in_range(year) && gregorian_date(year, month, day)
}

/// A calendar date according to ISO 8601.
#[derive(Copy, Clone, Debug, PartialEq, Eq, Structural)]
pub struct ISO8601Date {
    pub year: i32,
    pub month: u8,
    pub day: u8,
}

impl ISO8601Date {
    /// Whether the month/day pair is valid in a leap year.
    pub fn valid_month_day(month: u8, day: u8) -> (r: bool)
        ensures
            r == month_day_ok(month as int, day as int),
    {
        let max_day: u8 = if month == 2 {
            29
        } else if month == 4 || month == 6 || month == 9 || month == 11 {
            30
        } else if 1 <= month && month <= 12 {
            31
        } else {
            0
        };
        1 <= month && month <= 12 && 1 <= day && day <= max_day
    }
}

/// Operations common to the implementations of the ISO 8601 calendar.
pub trait ISO8601Calendar {
    /// A validated date of the implementing calendar, or `None` where the
    /// triple is not a date of it.
    fn ymd(year: i32, month: u8, day: u8) -> (r: Option<ISO8601Date>)
        ensures
            r matches Some(d) ==> d.year == year && d.month == month && d.day == day,
    ;

    /// Whether the year is a leap year, or `None` where the year is outside
    /// the calendar.
    fn is_leap_year(year: i32) -> Option<bool>;
}

/// The minimal standard variant of the ISO 8601 calendar, which does not
/// support years before 1583 or after 9999.
pub struct StandardCalendar {}

impl ISO8601Calendar for StandardCalendar {
    fn ymd(year: i32, month: u8, day: u8) -> (r: Option<ISO8601Date>)
        ensures
            r == (if valid_date(year as int, month as int, day as int) {
                Some(ISO8601Date { year, month, day })
            } else {
                None
            }),
    {
        if is_valid_date(year, month, day) {
            Some(ISO8601Date { year, month, day })
        } else {
            None
        }
    }

    fn is_leap_year(year: i32) -> (r: Option<bool>)
        ensures
            r == (if year_in_range(year as int) {
                Some(leap(year as int))
            } else {
                None
            }),
    {
        if !is_valid_year(year) {
            None
        } else {
            Some(year % 4 == 0 && (year % 400 == 0 || year % 100 != 0))
        }
    }
}

/// Whether the year lies in the range that the standard calendar supports.
pub fn is_valid_year(year: i32) -> (r: bool)
    ensures
        r == year_in_range(year as int),
{
    year >= MIN_YEAR && year <= MAX_YEAR
}

/// Whether the triple is a date of the standard calendar.
pub fn is_valid_date(year: i32, month: u8, day: u8) -> (r: bool)
    ensures
        r == valid_date(year as int, month as int, day as int),
{
    if !is_valid_year(year) || !ISO8601Date::valid_month_day(month, day) {
        return false;
    }
    if month != 2 || day != 29 {
        return true;
    }
    match StandardCalendar::is_leap_year(year) {
        Some(l) => l,
        None => false,
    }
}

} // verus!
