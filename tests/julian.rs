use meealgi::julian::{decimal_day, ndt_to_jul, CivilDateTime};

fn at(year: i32, month: u8, day: u8, hour: u8, minute: u8, second: u8) -> CivilDateTime {
    CivilDateTime { year, month, day, hour, minute, second }
}

fn jd_days(date: CivilDateTime) -> f64 {
    ndt_to_jul(&date) as f64 / 86400.0
}

#[test]
fn jd_solar_report_tests() {
    let pairs = [
        (at(2000, 1, 1, 12, 0, 0), 2451545.0_f64),
        (at(1999, 1, 1, 0, 0, 0), 2451179.5_f64),
        (at(1987, 1, 27, 0, 0, 0), 2446822.5_f64),
        (at(1987, 6, 19, 12, 0, 0), 2446966.0_f64),
        (at(1988, 1, 27, 0, 0, 0), 2447187.5_f64),
        (at(1988, 6, 19, 12, 0, 0), 2447332.0_f64),
        (at(1900, 1, 1, 0, 0, 0), 2415020.5_f64),
        (at(1600, 1, 1, 0, 0, 0), 2305447.5_f64),
        (at(1600, 12, 31, 0, 0, 0), 2305812.5_f64),
        (at(837, 4, 10, 7, 12, 0), 2026871.8_f64),
        (at(-123, 12, 31, 0, 0, 0), 1676496.5_f64),
        (at(-122, 1, 1, 0, 0, 0), 1676497.5_f64),
        (at(-1000, 7, 12, 12, 0, 0), 1356001.0_f64),
        (at(-1001, 8, 17, 21, 36, 0), 1355671.4_f64),
        (at(-4712, 1, 1, 12, 0, 0), 0.0_f64),
    ];
    for (date, result) in pairs.iter() {
        assert_eq!(*result, jd_days(*date));
    }
}

#[test]
fn jd_of_a_julian_leap_day() {
    assert_eq!(1355866.5_f64, jd_days(at(-1000, 2, 29, 0, 0, 0)));
}

#[test]
fn jd_exact_seconds() {
    assert_eq!(ndt_to_jul(&at(2000, 1, 1, 12, 0, 0)), 2451545 * 86400);
    assert_eq!(ndt_to_jul(&at(-4712, 1, 1, 12, 0, 0)), 0);
    assert_eq!(ndt_to_jul(&at(2000, 1, 1, 12, 0, 1)), 2451545 * 86400 + 1);
    assert_eq!(ndt_to_jul(&at(-4712, 1, 1, 0, 0, 0)), -43200);
}

#[test]
fn decimal_day_counts_seconds() {
    assert_eq!(decimal_day(&at(2017, 1, 7, 12, 0, 0)), 7 * 86400 + 43200);
    assert_eq!(decimal_day(&at(2017, 1, 31, 23, 59, 59)), 31 * 86400 + 86399);
}

#[test]
fn jd_increases_across_boundaries() {
    let pairs = [
        (at(1999, 12, 31, 23, 59, 59), at(2000, 1, 1, 0, 0, 0)),
        (at(2000, 2, 28, 23, 59, 59), at(2000, 2, 29, 0, 0, 0)),
        (at(2000, 2, 29, 23, 59, 59), at(2000, 3, 1, 0, 0, 0)),
        (at(1900, 2, 28, 23, 59, 59), at(1900, 3, 1, 0, 0, 0)),
        (at(1700, 2, 28, 23, 59, 59), at(1700, 3, 1, 0, 0, 0)),
        (at(1583, 1, 1, 0, 0, 0), at(1583, 1, 1, 0, 0, 1)),
    ];
    for (a, b) in pairs.iter() {
        assert_eq!(ndt_to_jul(b) - ndt_to_jul(a), 1);
    }
    assert!(ndt_to_jul(&at(2017, 8, 30, 12, 0, 0)) < ndt_to_jul(&at(2017, 9, 1, 0, 0, 0)));
}

#[test]
fn correction_starts_past_the_cutover() {
    // The last uncorrected instant is Julian Day 2299160.0 exactly.
    assert_eq!(ndt_to_jul(&at(1582, 10, 4, 12, 0, 0)), 2299160 * 86400);
    // One second later the ten-day Gregorian correction applies.
    assert_eq!(ndt_to_jul(&at(1582, 10, 4, 12, 0, 1)), 2299150 * 86400 + 1);
    assert_eq!(jd_days(at(1582, 10, 15, 0, 0, 0)), 2299160.5);
}

#[test]
fn jd_increases_before_the_cutover() {
    // Before the reform the count follows the Julian calendar, where 1500
    // has a February 29: the Gregorian March 1 comes two days after Feb 28.
    let feb = ndt_to_jul(&at(1500, 2, 28, 23, 59, 59));
    let mar = ndt_to_jul(&at(1500, 3, 1, 0, 0, 0));
    assert_eq!(mar - feb, 86400 + 1);
    assert!(ndt_to_jul(&at(-100, 12, 31, 23, 59, 59)) < ndt_to_jul(&at(-99, 1, 1, 0, 0, 0)));
    assert!(ndt_to_jul(&at(1582, 10, 4, 11, 59, 59)) < ndt_to_jul(&at(1582, 10, 4, 12, 0, 0)));
}
