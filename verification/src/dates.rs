//! Calendar dates, instants and day numbers.
//!
//! An instant is a number of seconds since 1970-01-01 00:00:00 UTC. A day
//! number counts whole days from 1970-01-01, which is day 0. Dates are read
//! in the proleptic Gregorian calendar.

use chrono::{DateTime, NaiveDate};
use time::error::ComponentRange;
use time::{Date, Month, OffsetDateTime, Time};
use vstd::prelude::*;

verus! {

/// The error of the `time` crate for a date or time component that is out of
/// range. Nothing is known of its contents.
#[verifier::external_type_specification]
#[verifier::external_body]
pub struct ExComponentRange(ComponentRange);

/// The smallest year that a calendar date may have.
pub const MIN_YEAR: i32 = -9999;

/// The largest year that a calendar date may have.
pub const MAX_YEAR: i32 = 9999;

/// The day number of the earliest date that a quote's timestamp can fall on.
pub const MIN_DAY: i32 = -96_465_292;

/// The day number of the latest date that a quote's timestamp can fall on.
pub const MAX_DAY: i32 = 95_026_236;

/// Whether `year` has 366 days.
pub open spec fn is_leap_year(year: int) -> bool {
    year % 4 == 0 && (year % 100 != 0 || year % 400 == 0)
}

/// The number of days of month `month` (1 to 12) in `year`.
pub open spec fn days_in_month(year: int, month: int) -> int {
    if month == 2 {
        if is_leap_year(year) {
            29
        } else {
            28
        }
    } else if month == 4 || month == 6 || month == 9 || month == 11 {
        30
    } else {
        31
    }
}

/// Whether year, month and day name a date of the calendar.
pub open spec fn valid_date(year: int, month: int, day: int) -> bool {
    &&& MIN_YEAR <= year <= MAX_YEAR
    &&& 1 <= month <= 12
    &&& 1 <= day <= days_in_month(year, month)
}

/// Whether hour, minute and second name a time of day.
pub open spec fn valid_time(hour: int, minute: int, second: int) -> bool {
    &&& 0 <= hour < 24
    &&& 0 <= minute < 60
    &&& 0 <= second < 60
}

/// Whether the six numbers name a time of day on a date of the calendar.
pub open spec fn valid_instant(
    year: int,
    month: int,
    day: int,
    hour: int,
    minute: int,
    second: int,
) -> bool {
    valid_date(year, month, day) && valid_time(hour, minute, second)
}

/// The number of days from 0001-01-01 to the first day of `year`.
pub open spec fn days_before_year(year: int) -> int {
    let y = year - 1;
    365 * y + y / 4 - y / 100 + y / 400
}

/// The number of days of `year` that lie before the first day of `month`.
pub open spec fn days_before_month(year: int, month: int) -> int
    decreases month,
{
    if month <= 1 {
        0
    } else {
        days_before_month(year, month - 1) + days_in_month(year, month - 1)
    }
}

/// The day number of a calendar date.
pub open spec fn days_from_epoch(year: int, month: int, day: int) -> int {
    days_before_year(year) + days_before_month(year, month) + day - 1 - 719162
}

/// The instant of a time of day on a calendar date, in UTC.
pub open spec fn instant_of(
    year: int,
    month: int,
    day: int,
    hour: int,
    minute: int,
    second: int,
) -> int {
    86400 * days_from_epoch(year, month, day) + 3600 * hour + 60 * minute + second
}

/// A quote's timestamp read as a signed number of seconds: the upper half of
/// the unsigned range stands for the negative numbers.
pub open spec fn signed_seconds(timestamp: u64) -> int {
    if timestamp < 0x8000_0000_0000_0000 {
        timestamp as int
    } else {
        timestamp - 0x1_0000_0000_0000_0000
    }
}

/// The day number of the date on which a quote's timestamp falls. A timestamp
/// beyond the dates that can be told falls on day 0.
pub open spec fn calendar_day(timestamp: u64) -> int {
    let day = signed_seconds(timestamp) / 86400;
    if MIN_DAY <= day <= MAX_DAY {
        day
    } else {
        0
    }
}

/// The written form of the date with day number `day`, as `chrono` prints a
/// `NaiveDate`: year, month and day with hyphens between them, `2023-02-01`.
pub uninterp spec fn date_text(day: int) -> Seq<char>;

/// Builds the instant from `time::Date::from_calendar_date`,
/// `time::Time::from_hms` and `time::OffsetDateTime::new_utc`, and reads its
/// `unix_timestamp`. The month number goes through `Month::try_from`.
///
/// Trusted: the call fails exactly when the month is not 1 to 12, the year is
/// beyond four digits, the day is not a day of that month, or the time of day
/// is out of range; otherwise it gives the seconds from 1970-01-01 00:00:00
/// UTC to that time on that date of the proleptic Gregorian calendar.
#[verifier::external_body]
fn utc_timestamp(year: i32, month: u8, day: u8, hour: u8, minute: u8, second: u8) -> (r: Result<i64, ComponentRange>)
    ensures
        r is Ok <==> valid_instant(year as int, month as int, day as int, hour as int, minute as int, second as int),
        r matches Ok(t) ==> t == instant_of(year as int, month as int, day as int, hour as int, minute as int, second as int),
{
    let date = Date::from_calendar_date(year, Month::try_from(month)?, day)?;
    let time = Time::from_hms(hour, minute, second)?;
    Ok(OffsetDateTime::new_utc(date, time).unix_timestamp())
}

/// Reads the clock through `time::OffsetDateTime::now_utc` and gives the
/// instant's `unix_timestamp`. Nothing is claimed of the result.
#[verifier::external_body]
fn clock_instant() -> i64 {
    OffsetDateTime::now_utc().unix_timestamp()
}

/// Takes the date of a timestamp as `chrono` does: `DateTime::from_timestamp`
/// on the timestamp cast to `i64`, the Unix epoch where that gives `None`,
/// then `date_naive` and `NaiveDate::to_epoch_days`.
///
/// Trusted: `from_timestamp` floors the seconds to whole days and accepts the
/// days from `MIN_DAY` to `MAX_DAY`, the dates of `NaiveDate`; the default
/// `DateTime` is 1970-01-01, day 0.
#[verifier::external_body]
fn timestamp_day(timestamp: u64) -> (day: i32)
    ensures
        day == calendar_day(timestamp),
{
    DateTime::from_timestamp(timestamp as i64, 0).unwrap_or_default().date_naive().to_epoch_days()
}

/// Prints a day number through `chrono`: `NaiveDate::from_epoch_days`, the
/// Unix epoch where that gives `None`, then `to_string`.
///
/// Trusted: the text depends on the day number alone.
#[verifier::external_body]
fn day_text(day: i32) -> (text: String)
    ensures
        text@ == date_text(day as int),
{
    NaiveDate::from_epoch_days(day).unwrap_or_default().to_string()
}

/// The instant of a time of day on a calendar date in UTC, or the error of
/// the `time` crate where the date or the time of day does not exist.
pub fn instant_at(year: i32, month: u32, day: u8, hour: u8, minute: u8, second: u8) -> (r: Result<i64, ComponentRange>)
    ensures
        r is Ok <==> valid_instant(year as int, month as int, day as int, hour as int, minute as int, second as int),
        r matches Ok(t) ==> t == instant_of(year as int, month as int, day as int, hour as int, minute as int, second as int),
{
    // A month number beyond `u8` is no month: 0 is refused as it would be.
    let month_number: u8 = if month <= 12 {
        month as u8
    } else {
        0
    };
    utc_timestamp(year, month_number, day, hour, minute, second)
}

/// The present instant, as the system clock gives it.
pub fn now() -> i64 {
    clock_instant()
}

/// The day number of the date on which a quote's timestamp falls.
pub fn day_of(timestamp: u64) -> (day: i32)
    ensures
        day == calendar_day(timestamp),
        timestamp < 0x8000_0000_0000_0000 ==> 0 <= day,
{
    timestamp_day(timestamp)
}

/// The written form of a day number, `2023-02-01` for day 19389.
pub fn date_string(day: i32) -> (text: String)
    ensures
        text@ == date_text(day as int),
{
    day_text(day)
}

} // verus!
