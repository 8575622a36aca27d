use modus::dates::{date_string, day_of, instant_at, now, MAX_DAY, MIN_DAY};

fn days_before_year(year: i64) -> i64 {
    let y = year - 1;
    365 * y + y.div_euclid(4) - y.div_euclid(100) + y.div_euclid(400)
}

fn is_leap(year: i64) -> bool {
    year.rem_euclid(4) == 0 && (year.rem_euclid(100) != 0 || year.rem_euclid(400) == 0)
}

fn days_in_month(year: i64, month: i64) -> i64 {
    match month {
        2 => {
            if is_leap(year) {
                29
            } else {
                28
            }
        }
        4 | 6 | 9 | 11 => 30,
        _ => 31,
    }
}

fn days_from_epoch(year: i64, month: i64, day: i64) -> i64 {
    let mut before = 0;
    for m in 1..month {
        before += days_in_month(year, m);
    }
    days_before_year(year) + before + day - 1 - 719162
}

#[test]
fn instant_of_known_dates() {
    assert_eq!(instant_at(1970, 1, 1, 0, 0, 0).unwrap(), 0);
    assert_eq!(instant_at(1970, 1, 1, 23, 59, 59).unwrap(), 86399);
    assert_eq!(instant_at(2023, 2, 1, 0, 0, 0).unwrap(), 1675209600);
    assert_eq!(instant_at(2023, 2, 1, 23, 59, 59).unwrap(), 1675295999);
    assert_eq!(instant_at(2000, 2, 29, 12, 30, 15).unwrap(), 951827415);
    assert_eq!(instant_at(1969, 12, 31, 0, 0, 0).unwrap(), -86400);
}

#[test]
fn instant_follows_the_day_count_on_every_year() {
    for year in -9999i32..=9999 {
        for (month, day) in [(1u32, 1u8), (2, 28), (3, 1), (12, 31)] {
            let expected = 86400 * days_from_epoch(year as i64, month as i64, day as i64);
            assert_eq!(instant_at(year, month, day, 0, 0, 0).unwrap(), expected);
        }
    }
}

#[test]
fn instant_follows_the_day_count_on_every_day_of_some_years() {
    for year in [-400i32, -1, 0, 1, 1900, 1999, 2000, 2023, 2024, 2100] {
        for month in 1u32..=12 {
            for day in 1u8..=31 {
                let r = instant_at(year, month, day, 23, 59, 59);
                if (day as i64) <= days_in_month(year as i64, month as i64) {
                    let expected =
                        86400 * days_from_epoch(year as i64, month as i64, day as i64) + 86399;
                    assert_eq!(r.unwrap(), expected);
                } else {
                    assert!(r.is_err());
                }
            }
        }
    }
}

#[test]
fn dates_that_do_not_exist_are_refused() {
    assert!(instant_at(2023, 4, 31, 0, 0, 0).is_err());
    assert!(instant_at(2023, 2, 29, 0, 0, 0).is_err());
    assert!(instant_at(2024, 2, 29, 0, 0, 0).is_ok());
    assert!(instant_at(1900, 2, 29, 0, 0, 0).is_err());
    assert!(instant_at(2023, 0, 1, 0, 0, 0).is_err());
    assert!(instant_at(2023, 13, 1, 0, 0, 0).is_err());
    assert!(instant_at(2023, 256, 1, 0, 0, 0).is_err());
    assert!(instant_at(2023, 257, 1, 0, 0, 0).is_err());
    assert!(instant_at(2023, 1, 0, 0, 0, 0).is_err());
    assert!(instant_at(2023, 1, 32, 0, 0, 0).is_err());
    assert!(instant_at(10000, 1, 1, 0, 0, 0).is_err());
    assert!(instant_at(-10000, 1, 1, 0, 0, 0).is_err());
    assert!(instant_at(9999, 12, 31, 0, 0, 0).is_ok());
    assert!(instant_at(-9999, 1, 1, 0, 0, 0).is_ok());
}

#[test]
fn times_that_do_not_exist_are_refused() {
    assert!(instant_at(2023, 1, 1, 24, 0, 0).is_err());
    assert!(instant_at(2023, 1, 1, 0, 60, 0).is_err());
    assert!(instant_at(2023, 1, 1, 0, 0, 60).is_err());
    assert!(instant_at(2023, 1, 1, 23, 59, 59).is_ok());
}

#[test]
fn day_of_floors_to_whole_days() {
    assert_eq!(day_of(0), 0);
    assert_eq!(day_of(86399), 0);
    assert_eq!(day_of(86400), 1);
    assert_eq!(day_of(1675209600), 19389);
    assert_eq!(day_of(1675261800), 19389);
    assert_eq!(day_of(1675295999), 19389);
    assert_eq!(day_of(1675296000), 19390);
}

#[test]
fn day_of_at_the_ends_of_the_calendar() {
    let last = (MAX_DAY as u64) * 86400 + 86399;
    assert_eq!(day_of(last), MAX_DAY);
    assert_eq!(day_of(last + 1), 0);
    assert_eq!(day_of(i64::MAX as u64), 0);
    // The upper half of the unsigned range stands for the negative numbers.
    assert_eq!(day_of(u64::MAX), -1);
    assert_eq!(day_of(u64::MAX - 86399), -1);
    assert_eq!(day_of(u64::MAX - 86400), -2);
    let first = ((MIN_DAY as i64) * 86400) as u64;
    assert_eq!(day_of(first), MIN_DAY);
    assert_eq!(day_of(first - 1), 0);
    assert_eq!(day_of(1u64 << 63), 0);
}

#[test]
fn date_string_is_year_month_day() {
    assert_eq!(date_string(0), "1970-01-01");
    assert_eq!(date_string(19389), "2023-02-01");
    assert_eq!(date_string(19390), "2023-02-02");
    assert_eq!(date_string(-1), "1969-12-31");
    assert_eq!(date_string(11016), "2000-02-29");
}

#[test]
fn date_string_of_the_day_of_an_instant() {
    let instant = instant_at(2023, 2, 3, 14, 30, 0).unwrap();
    assert_eq!(date_string(day_of(instant as u64)), "2023-02-03");
}

#[test]
fn now_is_a_present_instant() {
    let first = now();
    let second = now();
    assert!(first >= instant_at(2023, 1, 1, 0, 0, 0).unwrap());
    assert!(second >= first);
    assert!(second - first < 60);
}
