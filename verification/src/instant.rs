//! Calendar instants at nanosecond resolution, and the calls into the `time`
//! crate that the calendar rests on.

use vstd::prelude::*;
use crate::moment::{
    days_in_month, lemma_day_later, lemma_hour_later, lemma_minutes_within_hour,
    lemma_month_later, Moment, MAX_YEAR, MIN_YEAR,
};
use crate::time_extension::TimeExtension;

verus! {

/// A calendar date and time of day.
///
/// Instants are ordered by time: by their fields from the year down to the
/// nanosecond.
#[derive(Clone, Copy, Debug, PartialEq, Eq, Structural, PartialOrd, Ord, Hash)]
pub struct Instant {
    year: i32,
    month: u8,
    day: u8,
    hour: u8,
    minute: u8,
    second: u8,
    nanosecond: u32,
}

impl View for Instant {
    type V = Moment;

    closed spec fn view(&self) -> Moment {
        Moment {
            year: self.year as int,
            month: self.month as int,
            day: self.day as int,
            hour: self.hour as int,
            minute: self.minute as int,
            second: self.second as int,
            nanosecond: self.nanosecond as int,
        }
    }
}

/// `time::util::days_in_month`: the length of a month of the proleptic
/// Gregorian calendar, February having 29 days in leap years.
#[verifier::external_body]
fn month_length(year: i32, month: u8) -> (days: u8)
    requires
        MIN_YEAR <= year <= MAX_YEAR,
        1 <= month <= 12,
    ensures
        days == days_in_month(year as int, month as int),
{
    time::util::days_in_month(time::Month::try_from(month).unwrap(), year)
}

/// `time::OffsetDateTime::checked_add` with a span of whole minutes: the
/// instant that many minutes later, or `None` where that lies past the last
/// year of the calendar.
#[verifier::external_body]
fn checked_add_minutes(start: &Instant, minutes: u32) -> (r: Option<Instant>)
    requires
        start@.valid(),
    ensures
        match start@.plus_minutes(minutes as nat) {
            Some(m) => r matches Some(t) && t@ == m,
            None => r is None,
        },
{
    let month = time::Month::try_from(start.month).unwrap();
    let date = time::Date::from_calendar_date(start.year, month, start.day).unwrap();
    let clock = time::Time::from_hms_nano(start.hour, start.minute, start.second, start.nanosecond);
    let from = time::PrimitiveDateTime::new(date, clock.unwrap()).assume_utc();
    let to = from.checked_add(time::Duration::minutes(i64::from(minutes)))?;
    Some(Instant {
        year: to.year(),
        month: u8::from(to.month()),
        day: to.day(),
        hour: to.hour(),
        minute: to.minute(),
        second: to.second(),
        nanosecond: to.nanosecond(),
    })
}

impl Instant {
    /// The instant with the given calendar fields, if there is one.
    pub fn new(
        year: i32,
        month: u8,
        day: u8,
        hour: u8,
        minute: u8,
        second: u8,
        nanosecond: u32,
    ) -> (r: Option<Instant>)
        ensures
            ({
                let fields = Moment {
                    year: year as int,
                    month: month as int,
                    day: day as int,
                    hour: hour as int,
                    minute: minute as int,
                    second: second as int,
                    nanosecond: nanosecond as int,
                };
                match r {
                    Some(t) => fields.valid() && t@ == fields,
                    None => !fields.valid(),
                }
            }),
    {
        if year < MIN_YEAR || year > MAX_YEAR || month < 1 || month > 12 || day < 1 || hour > 23
            || minute > 59 || second > 59 || nanosecond > 999_999_999 {
            return None;
        }
        if day > month_length(year, month) {
            return None;
        }
        Some(Instant { year, month, day, hour, minute, second, nanosecond })
    }

    /// Whether the calendar has a month after the one of this instant.
    pub fn has_next_month(&self) -> (r: bool)
        requires
            self@.valid(),
        ensures
            r == self@.next_month_start() is Some,
    {
        self.month < 12 || self.year < MAX_YEAR
    }

    /// Whether the calendar has a day after the one of this instant.
    pub fn has_next_day(&self) -> (r: bool)
        requires
            self@.valid(),
        ensures
            r == self@.next_day_start() is Some,
    {
        self.day < 31 || self.has_next_month()
    }

    /// Whether the calendar has an hour after the one of this instant.
    pub fn has_next_hour(&self) -> (r: bool)
        requires
            self@.valid(),
        ensures
            r == self@.next_hour_start() is Some,
    {
        self.hour < 23 || self.has_next_day()
    }

    /// Whether the calendar has a minute after the one of this instant.
    pub fn has_next_minute(&self) -> (r: bool)
        requires
            self@.valid(),
        ensures
            r == self@.next_minute_start() is Some,
    {
        self.minute < 59 || self.has_next_hour()
    }

    /// The year.
    pub fn year(&self) -> (r: i32)
        ensures
            r == self@.year,
    {
        self.year
    }

    /// The month of the year, from 1.
    pub fn month(&self) -> (r: u8)
        ensures
            r == self@.month,
    {
        self.month
    }

    /// The day of the month, from 1.
    pub fn day(&self) -> (r: u8)
        ensures
            r == self@.day,
    {
        self.day
    }

    /// The hour of the day.
    pub fn hour(&self) -> (r: u8)
        ensures
            r == self@.hour,
    {
        self.hour
    }

    /// The minute of the hour.
    pub fn minute(&self) -> (r: u8)
        ensures
            r == self@.minute,
    {
        self.minute
    }

    /// The second of the minute.
    pub fn second(&self) -> (r: u8)
        ensures
            r == self@.second,
    {
        self.second
    }

    /// The nanosecond of the second.
    pub fn nanosecond(&self) -> (r: u32)
        ensures
            r == self@.nanosecond,
    {
        self.nanosecond
    }
}

impl TimeExtension for Instant {
    fn to_start_of_minute(&mut self) {
        self.nanosecond = 0;
        self.second = 0;
    }

    fn next_minute(&mut self) -> (crossed: bool) {
        self.to_start_of_minute();
        let hour = self.hour;
        proof {
            lemma_minutes_within_hour(self@, 0);
        }
        let moved = checked_add_minutes(self, 1);
        *self = moved.unwrap();
        hour != self.hour
    }

    fn to_start_of_hour(&mut self) {
        self.nanosecond = 0;
        self.second = 0;
        self.minute = 0;
    }

    fn next_hour(&mut self) -> (crossed: bool) {
        self.to_start_of_hour();
        let day = self.day;
        proof {
            lemma_hour_later(self@);
        }
        let moved = checked_add_minutes(self, 60);
        *self = moved.unwrap();
        day != self.day
    }

    fn to_start_of_day(&mut self) {
        self.nanosecond = 0;
        self.second = 0;
        self.minute = 0;
        self.hour = 0;
    }

    fn next_day(&mut self) -> (crossed: bool) {
        self.to_start_of_day();
        let month = self.month;
        proof {
            lemma_day_later(self@);
        }
        let moved = checked_add_minutes(self, 1440);
        *self = moved.unwrap();
        month != self.month
    }

    fn to_start_of_month(&mut self) {
        self.nanosecond = 0;
        self.second = 0;
        self.minute = 0;
        self.hour = 0;
        self.day = 1;
    }

    fn next_month(&mut self) {
        self.to_start_of_month();
        let days: u32 = month_length(self.year, self.month).into();
        proof {
            lemma_month_later(self@);
        }
        let moved = checked_add_minutes(self, 1440 * days);
        *self = moved.unwrap();
    }
}

} // verus!
