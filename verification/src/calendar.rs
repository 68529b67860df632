//! Calendar dates and times of day, and their place on the UTC time line.
//!
//! The calendar itself is that of the `time` crate: `utc_timestamp` and
//! `utc_year_of_tomorrow` call it, and their contracts are taken on trust.

use vstd::prelude::*;

verus! {

/// A day of the calendar, as written: nothing says that it exists.
#[derive(Clone, Copy, Debug, PartialEq, Eq, Structural)]
pub struct CalendarDate {
    pub year: i32,
    pub month: u8,
    pub day: u8,
}

/// A time of day, as written: nothing says that it exists.
#[derive(Clone, Copy, Debug, PartialEq, Eq, Structural)]
pub struct ClockTime {
    pub hour: u8,
    pub minute: u8,
    pub second: u8,
}

/// The seconds from 1970-01-01T00:00:00Z to the given date and time of day in
/// UTC, as the `time` crate counts them; `None` where the `time` crate knows
/// no such date or no such time of day.
pub uninterp spec fn utc_unix_timestamp(
    year: i32,
    month: u8,
    day: u8,
    hour: u8,
    minute: u8,
    second: u8,
) -> Option<i64>;

/// Where a date and a time of day lie on the UTC time line.
pub open spec fn moment(date: CalendarDate, time: ClockTime) -> Option<i64> {
    utc_unix_timestamp(date.year, date.month, date.day, time.hour, time.minute, time.second)
}

/// Where the midnight that begins a date lies on the UTC time line.
pub open spec fn midnight(date: CalendarDate) -> Option<i64> {
    utc_unix_timestamp(date.year, date.month, date.day, 0, 0, 0)
}

/// The seconds from midnight to a time of day.
pub open spec fn seconds_of_day(time: ClockTime) -> int {
    3_600 * time.hour + 60 * time.minute + time.second
}

/// Whether a day has the time of day: hours up to 23, minutes and seconds up
/// to 59.
pub open spec fn is_time_of_day(time: ClockTime) -> bool {
    time.hour < 24 && time.minute < 60 && time.second < 60
}

/// The moment of a time of day on the day that begins at `start`, where the
/// day and the time of day exist.
pub open spec fn at_time_of_day(start: Option<i64>, time: ClockTime) -> Option<i64> {
    match start {
        Some(midnight) => if is_time_of_day(time) {
            Some((midnight + seconds_of_day(time)) as i64)
        } else {
            None
        },
        None => None,
    }
}

/// Calls `time::Month::try_from`, `time::Date::from_calendar_date`,
/// `time::Time::from_hms`, `time::PrimitiveDateTime::new`, `assume_utc` and
/// `unix_timestamp`. The contract claims that the outcome is a function of
/// the six numbers, and how the time of day enters it: `from_hms` takes
/// hours up to 23 and minutes and seconds up to 59, and `unix_timestamp`
/// counts 3600 seconds for an hour and 60 for a minute on top of the
/// seconds of the day's midnight. Which dates exist, and what their
/// midnights are, is left to the `time` crate.
#[verifier::external_body]
pub(crate) fn utc_timestamp(
    year: i32,
    month: u8,
    day: u8,
    hour: u8,
    minute: u8,
    second: u8,
) -> (r: Option<i64>)
    ensures
        r == utc_unix_timestamp(year, month, day, hour, minute, second),
        r == at_time_of_day(
            utc_unix_timestamp(year, month, day, 0, 0, 0),
            ClockTime { hour, minute, second },
        ),
{
    let month = time::Month::try_from(month).ok()?;
    let date = time::Date::from_calendar_date(year, month, day).ok()?;
    let clock = time::Time::from_hms(hour, minute, second).ok()?;
    Some(time::PrimitiveDateTime::new(date, clock).assume_utc().unix_timestamp())
}

/// Calls `time::OffsetDateTime::now_utc`, `saturating_add` with
/// `time::Duration::days(1)`, and `year`: the calendar year, in UTC, of the
/// moment one day from now. The contract claims only that the year lies
/// within the years that a `time::Date` can hold.
#[verifier::external_body]
pub(crate) fn utc_year_of_tomorrow() -> (year: i32)
    ensures
        -999_999 <= year <= 999_999,
{
    time::OffsetDateTime::now_utc().saturating_add(time::Duration::days(1)).year()
}

impl CalendarDate {
    /// The timestamp of the midnight that begins the date, where the date exists.
    pub fn midnight_timestamp(&self) -> (r: Option<i64>)
        ensures
            r == midnight(*self),
    {
        utc_timestamp(self.year, self.month, self.day, 0, 0, 0)
    }

    /// The timestamp of a time of day on the date, where both exist: that of
    /// the date's midnight and the seconds of the day up to the time.
    pub fn timestamp_at(&self, time: &ClockTime) -> (r: Option<i64>)
        ensures
            r == moment(*self, *time),
            r == at_time_of_day(midnight(*self), *time),
    {
        utc_timestamp(self.year, self.month, self.day, time.hour, time.minute, time.second)
    }
}

} // verus!
