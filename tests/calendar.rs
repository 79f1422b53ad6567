use meealgi::calendar::{is_valid_date, is_valid_year, ISO8601Calendar, ISO8601Date, StandardCalendar};

#[test]
fn leap_years_in_range() {
    assert_eq!(StandardCalendar::is_leap_year(2000), Some(true));
    assert_eq!(StandardCalendar::is_leap_year(1900), Some(false));
    assert_eq!(StandardCalendar::is_leap_year(2004), Some(true));
    assert_eq!(StandardCalendar::is_leap_year(1583), Some(false));
    assert_eq!(StandardCalendar::is_leap_year(2100), Some(false));
    assert_eq!(StandardCalendar::is_leap_year(2400), Some(true));
    assert_eq!(StandardCalendar::is_leap_year(9996), Some(true));
}

#[test]
fn leap_years_out_of_range() {
    assert_eq!(StandardCalendar::is_leap_year(1582), None);
    assert_eq!(StandardCalendar::is_leap_year(10000), None);
    assert_eq!(StandardCalendar::is_leap_year(-4), None);
}

#[test]
fn year_range_edges() {
    assert!(!is_valid_year(1582));
    assert!(is_valid_year(1583));
    assert!(is_valid_year(9999));
    assert!(!is_valid_year(10000));
}

#[test]
fn month_day_pairs() {
    assert!(ISO8601Date::valid_month_day(1, 31));
    assert!(ISO8601Date::valid_month_day(2, 29));
    assert!(!ISO8601Date::valid_month_day(2, 30));
    assert!(!ISO8601Date::valid_month_day(4, 31));
    assert!(ISO8601Date::valid_month_day(12, 31));
    assert!(!ISO8601Date::valid_month_day(0, 1));
    assert!(!ISO8601Date::valid_month_day(13, 1));
    assert!(!ISO8601Date::valid_month_day(6, 0));
    assert!(!ISO8601Date::valid_month_day(7, 32));
}

#[test]
fn dates_of_the_standard_calendar() {
    assert!(is_valid_date(2000, 2, 29));
    assert!(!is_valid_date(1900, 2, 29));
    assert!(is_valid_date(1900, 2, 28));
    assert!(!is_valid_date(1582, 12, 31));
    assert!(is_valid_date(1583, 1, 1));
    assert!(is_valid_date(9999, 12, 31));
    assert!(!is_valid_date(2001, 4, 31));
    assert!(!is_valid_date(2001, 13, 1));
}

#[test]
fn ymd_builds_only_valid_dates() {
    let d = StandardCalendar::ymd(2017, 8, 30).unwrap();
    assert_eq!((d.year, d.month, d.day), (2017, 8, 30));
    assert!(StandardCalendar::ymd(2017, 2, 29).is_none());
    assert!(StandardCalendar::ymd(2016, 2, 29).is_some());
    assert!(StandardCalendar::ymd(1500, 1, 1).is_none());
}
