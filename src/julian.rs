//! Julian Day arithmetic on civil date-times, exact to the second.
//!
//! A Julian Day is counted here in seconds since its epoch (noon of
//! 1 January 4713 BCE, proleptic Julian calendar): the value `jd` in days is
//! the returned count divided by 86400, with no rounding anywhere.
use vstd::prelude::*;

use crate::arith::floor_div;
use crate::calendar::{gregorian_date, leap, MIN_YEAR};

verus! {

/// Seconds in a day.
pub const SECONDS_PER_DAY: i64 = 86400;

/// The 1524.5 days that the Julian Day formula subtracts, in seconds.
pub const EPOCH_OFFSET_SECONDS: i64 = 131716800;

/// Julian Day 2299160 (the eve of the Gregorian reform), in seconds: the
/// Gregorian correction applies to values strictly above it.
pub const CUTOVER_SECONDS: i64 = 198647424000;

/// A civil date and time in the proleptic Gregorian calendar, with
/// astronomical year numbering (year 0 is 1 BCE).
#[derive(Copy, Clone, Debug, PartialEq, Eq, Structural)]
pub struct CivilDateTime {
    pub year: i32,
    pub month: u8,
    pub day: u8,
    pub hour: u8,
    pub minute: u8,
    pub second: u8,
}

/// The year used by the formula: January and February count as months of the
/// previous year.
pub open spec fn formula_year(year: int, month: int) -> int {
    if month == 1 || month == 2 {
        year - 1
    } else {
        year
    }
}

/// The month used by the formula: January and February are months 13 and 14.
pub open spec fn formula_month(month: int) -> int {
    if month == 1 || month == 2 {
        month + 12
    } else {
        month
    }
}

/// `floor(365.25 * (y + 4716))`.
pub open spec fn year_term(y: int) -> int {
    (1461 * (y + 4716)) / 4
}

/// `floor(30.6001 * (m + 1))`.
pub open spec fn month_term(m: int) -> int {
    (306001 * (m + 1)) / 10000
}

/// The Gregorian correction `2 - floor(y / 100) + floor(floor(y / 100) / 4)`.
pub open spec fn gregorian_correction(y: int) -> int {
    2 - y / 100 + (y / 100) / 4
}

/// The time of day in seconds.
pub open spec fn time_of_day(d: CivilDateTime) -> int {
    d.hour * 3600 + d.minute * 60 + d.second
}

/// The day of the month with its time of day, in seconds.
pub open spec fn day_seconds(d: CivilDateTime) -> int {
    d.day * 86400 + time_of_day(d)
}

/// The Julian Day before the Gregorian correction, in seconds.
pub open spec fn pre_shift_seconds(d: CivilDateTime) -> int {
    let y = formula_year(d.year as int, d.month as int);
    let m = formula_month(d.month as int);
    (year_term(y) + month_term(m)) * 86400 + day_seconds(d) - EPOCH_OFFSET_SECONDS
}

/// The Julian Day of a civil date-time, in seconds since the epoch. The
/// Gregorian correction applies only where the uncorrected value lies past
/// the cutover.
pub open spec fn julian_day_seconds(d: CivilDateTime) -> int {
    let pre = pre_shift_seconds(d);
    if pre > CUTOVER_SECONDS {
        pre + gregorian_correction(formula_year(d.year as int, d.month as int)) * 86400
    } else {
        pre
    }
}

/// The day of the month with its time of day, counted in seconds
/// (`day * 86400 + hour * 3600 + minute * 60 + second`).
pub fn decimal_day(date: &CivilDateTime) -> (r: i64)
    ensures
        r == day_seconds(*date),
{
    date.day as i64 * SECONDS_PER_DAY + date.hour as i64 * 3600 + date.minute as i64 * 60
        + date.second as i64
}

/// The Julian Day of a civil date-time, in seconds since the epoch. It takes
/// any year (negative years included) and does not validate the date.
pub fn ndt_to_jul(date: &CivilDateTime) -> (r: i64)
    ensures
        r == julian_day_seconds(*date),
{
    let (year, month): (i64, i64) = if date.month == 1 || date.month == 2 {
        (date.year as i64 - 1, date.month as i64 + 12)
    } else {
        (date.year as i64, date.month as i64)
    };
    let year_days = floor_div((1461 * (year + 4716)) as i128, 4) as i64;
    let month_days = (306001 * (month + 1)) / 10000;
    let pre_shift = (year_days + month_days) * SECONDS_PER_DAY + decimal_day(date)
        - EPOCH_OFFSET_SECONDS;
    if pre_shift > CUTOVER_SECONDS {
        let century = floor_div(year as i128, 100) as i64;
        let correction = 2 - century + floor_div(century as i128, 4) as i64;
        pre_shift + correction * SECONDS_PER_DAY
    } else {
        pre_shift
    }
}

/// `a` lies strictly before `b` (lexicographic on year, month, day, hour,
/// minute and second).
pub open spec fn earlier(a: CivilDateTime, b: CivilDateTime) -> bool {
    if a.year != b.year {
        a.year < b.year
    } else if a.month != b.month {
        a.month < b.month
    } else if a.day != b.day {
        a.day < b.day
    } else if a.hour != b.hour {
        a.hour < b.hour
    } else if a.minute != b.minute {
        a.minute < b.minute
    } else {
        a.second < b.second
    }
}

/// A date-time of the proleptic Gregorian calendar, with a time of day
/// below 24:00:00.
pub open spec fn gregorian_date_time(d: CivilDateTime) -> bool {
    &&& gregorian_date(d.year as int, d.month as int, d.day as int)
    &&& d.hour < 24
    &&& d.minute < 60
    &&& d.second < 60
}

/// Whether the Gregorian correction applies to a date-time: its uncorrected
/// Julian Day lies past the cutover.
pub open spec fn past_cutover(d: CivilDateTime) -> bool {
    pre_shift_seconds(d) > CUTOVER_SECONDS
}

/// The leap-year rule that the day count follows: the Gregorian one where
/// the correction applies, the Julian one (every fourth year) before.
spec fn leap_rule(year: int, reformed: bool) -> bool {
    if reformed {
        leap(year)
    } else {
        year % 4 == 0
    }
}

/// The day count of a date, without the time of day and the epoch offset,
/// with or without the Gregorian correction.
spec fn day_number(year: int, month: int, day: int, reformed: bool) -> int {
    let y = formula_year(year, month);
    year_term(y) + month_term(formula_month(month)) + day + (if reformed {
        gregorian_correction(y)
    } else {
        0
    })
}

/// Days of the months of a year before the given one.
spec fn days_before_month(year: int, month: int, reformed: bool) -> int {
    let common: int = if month == 1 {
        0
    } else if month == 2 {
        31
    } else if month == 3 {
        59
    } else if month == 4 {
        90
    } else if month == 5 {
        120
    } else if month == 6 {
        151
    } else if month == 7 {
        181
    } else if month == 8 {
        212
    } else if month == 9 {
        243
    } else if month == 10 {
        273
    } else if month == 11 {
        304
    } else {
        334
    };
    if month > 2 && leap_rule(year, reformed) {
        common + 1
    } else {
        common
    }
}

spec fn days_in_year(year: int, reformed: bool) -> int {
    if leap_rule(year, reformed) {
        366
    } else {
        365
    }
}

/// From the last day of February to the first of March the formula year
/// changes: the year term (and the correction) add the days of the year's
/// end.
proof fn lemma_year_step(y: int, reformed: bool)
    ensures
        day_number(y, 3, 1, reformed) == day_number(y, 2, 1, reformed) + 28 + (if leap_rule(
            y,
            reformed,
        ) {
            1int
        } else {
            0
        }),
        day_number(y + 1, 1, 1, reformed) == day_number(y, 1, 1, reformed) + days_in_year(
            y,
            reformed,
        ),
{
    lemma_year_terms(y);
}

/// One year of the year term is 365 days, or 366 every fourth year; the
/// correction drops by a day at each century not divisible by 400.
proof fn lemma_year_terms(y: int)
    ensures
        year_term(y) - year_term(y - 1) == 365 + (if y % 4 == 0 { 1int } else { 0 }),
        gregorian_correction(y) - gregorian_correction(y - 1) == (if y % 100 == 0 && y % 400
            != 0 {
            -1int
        } else {
            0
        }),
        y % 100 == 0 ==> y % 4 == 0,
{
    assert(y / 100 - (y - 1) / 100 == (if y % 100 == 0 { 1int } else { 0 }));
    let c = y / 100;
    if y % 100 == 0 {
        assert((c / 4) - ((c - 1) / 4) == (if c % 4 == 0 { 1int } else { 0 }));
        assert(y % 400 == 0 <==> c % 4 == 0);
    }
}

proof fn lemma_within_year(year: int, month: int, day: int, reformed: bool)
    requires
        1 <= month <= 12,
    ensures
        day_number(year, month, day, reformed) == day_number(year, 1, 1, reformed)
            + days_before_month(year, month, reformed) + day - 1,
{
    lemma_year_step(year, reformed);
}

proof fn lemma_years_ordered(y1: int, y2: int, reformed: bool)
    requires
        y1 < y2,
    ensures
        day_number(y1, 1, 1, reformed) + days_in_year(y1, reformed) <= day_number(
            y2,
            1,
            1,
            reformed,
        ),
    decreases y2 - y1,
{
    lemma_year_step(y1, reformed);
    if y1 + 1 < y2 {
        lemma_years_ordered(y1 + 1, y2, reformed);
        lemma_year_step(y1 + 1, reformed);
    }
}

/// The position of a Gregorian date within its year, counted from 0. A
/// Gregorian February is never longer than a Julian one.
proof fn lemma_day_of_year_bounds(year: int, month: int, day: int, reformed: bool)
    requires
        gregorian_date(year, month, day),
    ensures
        0 <= days_before_month(year, month, reformed) + day - 1 < days_in_year(year, reformed),
        month < 12 ==> days_before_month(year, month, reformed) + day - 1 < days_before_month(
            year,
            month + 1,
            reformed,
        ),
{
}

proof fn lemma_day_number_ordered(
    y1: int,
    m1: int,
    d1: int,
    y2: int,
    m2: int,
    d2: int,
    reformed: bool,
)
    requires
        gregorian_date(y1, m1, d1),
        gregorian_date(y2, m2, d2),
        y1 < y2 || (y1 == y2 && (m1 < m2 || (m1 == m2 && d1 < d2))),
    ensures
        day_number(y1, m1, d1, reformed) < day_number(y2, m2, d2, reformed),
{
    lemma_within_year(y1, m1, d1, reformed);
    lemma_within_year(y2, m2, d2, reformed);
    lemma_day_of_year_bounds(y1, m1, d1, reformed);
    lemma_day_of_year_bounds(y2, m2, d2, reformed);
    if y1 < y2 {
        lemma_years_ordered(y1, y2, reformed);
    } else if m1 < m2 {
        assert(days_before_month(y1, m1 + 1, reformed) <= days_before_month(y1, m2, reformed));
    }
}

/// The Julian Day increases strictly with civil time: of two Gregorian
/// date-times on the same side of the cutover (both corrected, or neither),
/// the later one has the larger Julian Day.
pub proof fn lemma_julian_day_monotonic(a: CivilDateTime, b: CivilDateTime)
    requires
        gregorian_date_time(a),
        gregorian_date_time(b),
        earlier(a, b),
        past_cutover(a) == past_cutover(b),
    ensures
        julian_day_seconds(a) < julian_day_seconds(b),
{
    let reformed = past_cutover(a);
    let na = day_number(a.year as int, a.month as int, a.day as int, reformed);
    let nb = day_number(b.year as int, b.month as int, b.day as int, reformed);
    assert(julian_day_seconds(a) == na * 86400 + time_of_day(a) - EPOCH_OFFSET_SECONDS);
    assert(julian_day_seconds(b) == nb * 86400 + time_of_day(b) - EPOCH_OFFSET_SECONDS);
    if a.year != b.year || a.month != b.month || a.day != b.day {
        lemma_day_number_ordered(
            a.year as int,
            a.month as int,
            a.day as int,
            b.year as int,
            b.month as int,
            b.day as int,
            reformed,
        );
        assert(na * 86400 + 86400 <= nb * 86400) by (nonlinear_arith)
            requires
                na < nb,
        ;
    }
}

/// Every Gregorian date-time from 1583 on lies past the cutover.
pub proof fn lemma_past_cutover_from_1583(d: CivilDateTime)
    requires
        gregorian_date_time(d),
        d.year >= MIN_YEAR,
    ensures
        past_cutover(d),
{
    let y = formula_year(d.year as int, d.month as int);
    let m = formula_month(d.month as int);
    if d.month <= 2 {
        assert(year_term(y) >= year_term(1582));
        assert(month_term(m) >= 428);
    } else {
        assert(year_term(y) >= year_term(1583));
        assert(month_term(m) >= 122);
    }
}

} // verus!
