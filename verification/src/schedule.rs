//! Schedules: compiling an expression, and finding the next instant that a
//! schedule permits.

use vstd::prelude::*;
use crate::bits::{has_bit, members};
use crate::error::{ParsingError, ParsingErrorView};
use crate::instant::Instant;
use crate::moment::{
    lemma_same_day_until_next, lemma_same_hour_until_next, lemma_same_minute_until_next,
    lemma_same_month_until_next, Moment, MAX_YEAR,
};
use crate::time_extension::TimeExtension;
use crate::parser::{component_values, parse_component};
use crate::text::{split, split_text, texts};

verus! {

/// The number of fields of an expression: minute, hour, day of the month,
/// month and day of the week.
pub const FIELDS: usize = 5;

/// The width of the minute field.
pub const MINUTES: usize = 60;

/// The width of the hour field.
pub const HOURS: usize = 24;

/// The width of the day-of-month field.
pub const DAYS_OF_MONTH: usize = 31;

/// The width of the month field.
pub const MONTHS: usize = 12;

/// A schedule is composed of four fields, each a bit vector in which bit `i`
/// stands for the value `i`:
/// - `months`: the permitted months, counted from 1
/// - `days_of_month`: the permitted days, counted from 1
/// - `hours`: the permitted hours, counted from 0
/// - `minutes`: the permitted minutes, counted from 0
///
/// A field holds the values below its width, so an expression can select
/// neither the twelfth month nor the thirty-first day.
#[derive(Debug, Clone, Copy)]
pub struct Schedule {
    months: u64,
    days_of_month: u64,
    hours: u64,
    minutes: u64,
}

/// A schedule as four sets of permitted values.
pub struct ScheduleView {
    pub months: Set<nat>,
    pub days_of_month: Set<nat>,
    pub hours: Set<nat>,
    pub minutes: Set<nat>,
}

impl View for Schedule {
    type V = ScheduleView;

    closed spec fn view(&self) -> ScheduleView {
        ScheduleView {
            months: members(self.months),
            days_of_month: members(self.days_of_month),
            hours: members(self.hours),
            minutes: members(self.minutes),
        }
    }
}

/// The schedule that `expression` writes, or why it is refused.
///
/// The expression has five fields separated by single spaces.  The month is
/// compiled first, then the day of the month, the hour and the minute, and
/// the first field that is refused decides the error.  The fifth field, the
/// day of the week, is not read.
pub open spec fn schedule_of(expression: Seq<char>) -> Result<ScheduleView, ParsingErrorView> {
    let fields = split_text(expression, ' ');
    if fields.len() != FIELDS {
        Err(
            ParsingErrorView::InvalidExpressionLength {
                expression,
                expected: FIELDS as nat,
                got: fields.len(),
            },
        )
    } else {
        match component_values(expression, fields[3], MONTHS as nat) {
            Err(e) => Err(e),
            Ok(months) => match component_values(expression, fields[2], DAYS_OF_MONTH as nat) {
                Err(e) => Err(e),
                Ok(days_of_month) => match component_values(expression, fields[1], HOURS as nat) {
                    Err(e) => Err(e),
                    Ok(hours) => match component_values(expression, fields[0], MINUTES as nat) {
                        Err(e) => Err(e),
                        Ok(minutes) => Ok(ScheduleView { months, days_of_month, hours, minutes }),
                    },
                },
            },
        }
    }
}

impl ScheduleView {
    /// Every field of the schedule permits the corresponding field of `m`.
    pub open spec fn permits(self, m: Moment) -> bool {
        &&& m.month >= 0 && self.months.contains(m.month as nat)
        &&& m.day >= 0 && self.days_of_month.contains(m.day as nat)
        &&& m.hour >= 0 && self.hours.contains(m.hour as nat)
        &&& m.minute >= 0 && self.minutes.contains(m.minute as nat)
    }

    /// The schedule permits no minute of the calendar after `from` and
    /// before `until`.
    pub open spec fn none_between(self, from: Moment, until: Moment) -> bool {
        forall|x: Moment|
            x.valid() && x.on_minute() && from.earlier_than(x) && x.earlier_than(until)
                ==> !#[trigger] self.permits(x)
    }

    /// The schedule permits no minute of the calendar after `from`.
    pub open spec fn none_after(self, from: Moment) -> bool {
        forall|x: Moment|
            x.valid() && x.on_minute() && from.earlier_than(x) ==> !#[trigger] self.permits(x)
    }

    /// The schedule permits no minute of the calendar after `from` and
    /// before `until`, or after `from` at all where `until` is `None`.
    pub open spec fn none_until(self, from: Moment, until: Option<Moment>) -> bool {
        match until {
            Some(next) => self.none_between(from, next),
            None => self.none_after(from),
        }
    }

    /// `at` is the first minute of the calendar after `from` that the
    /// schedule permits.
    pub open spec fn is_next_match(self, from: Moment, at: Moment) -> bool {
        &&& at.valid()
        &&& at.on_minute()
        &&& from.earlier_than(at)
        &&& self.permits(at)
        &&& self.none_between(from, at)
    }
}

/// No minute lies after an instant and before the start of the next minute.
proof fn lemma_minute_of_start_is_skipped(schedule: ScheduleView, from: Moment)
    requires
        from.valid(),
    ensures
        schedule.none_until(from, from.next_minute_start()),
{
    assert forall|x: Moment|
        x.valid() && x.on_minute() && from.earlier_than(x) && (from.next_minute_start() matches Some(
            next,
        ) ==> x.earlier_than(next)) implies !schedule.permits(x) by {
        lemma_same_minute_until_next(from, x);
    }
}

/// Where the month of `here` is not permitted, nothing is up to the start of
/// the next month.
proof fn lemma_month_is_skipped(schedule: ScheduleView, from: Moment, here: Moment)
    requires
        here.valid(),
        schedule.none_between(from, here),
        !schedule.months.contains(here.month as nat),
    ensures
        schedule.none_until(from, here.next_month_start()),
{
    assert forall|x: Moment|
        x.valid() && x.on_minute() && from.earlier_than(x) && (here.next_month_start() matches Some(
            next,
        ) ==> x.earlier_than(next)) implies !schedule.permits(x) by {
        if !x.earlier_than(here) {
            lemma_same_month_until_next(here, x);
        }
    }
}

/// Where the day of `here` is not permitted, nothing is up to the start of
/// the next day.
proof fn lemma_day_is_skipped(schedule: ScheduleView, from: Moment, here: Moment)
    requires
        here.valid(),
        schedule.none_between(from, here),
        !schedule.days_of_month.contains(here.day as nat),
    ensures
        schedule.none_until(from, here.next_day_start()),
{
    assert forall|x: Moment|
        x.valid() && x.on_minute() && from.earlier_than(x) && (here.next_day_start() matches Some(
            next,
        ) ==> x.earlier_than(next)) implies !schedule.permits(x) by {
        if !x.earlier_than(here) {
            lemma_same_day_until_next(here, x);
        }
    }
}

/// Where the hour of `here` is not permitted, nothing is up to the start of
/// the next hour.
proof fn lemma_hour_is_skipped(schedule: ScheduleView, from: Moment, here: Moment)
    requires
        here.valid(),
        schedule.none_between(from, here),
        !schedule.hours.contains(here.hour as nat),
    ensures
        schedule.none_until(from, here.next_hour_start()),
{
    assert forall|x: Moment|
        x.valid() && x.on_minute() && from.earlier_than(x) && (here.next_hour_start() matches Some(
            next,
        ) ==> x.earlier_than(next)) implies !schedule.permits(x) by {
        if !x.earlier_than(here) {
            lemma_same_hour_until_next(here, x);
        }
    }
}

/// Where the minute of `here` is not permitted, nothing is up to the start
/// of the next minute.
proof fn lemma_minute_is_skipped(schedule: ScheduleView, from: Moment, here: Moment)
    requires
        here.valid(),
        schedule.none_between(from, here),
        !schedule.minutes.contains(here.minute as nat),
    ensures
        schedule.none_until(from, here.next_minute_start()),
{
    assert forall|x: Moment|
        x.valid() && x.on_minute() && from.earlier_than(x) && (here.next_minute_start() matches Some(
            next,
        ) ==> x.earlier_than(next)) implies !schedule.permits(x) by {
        if !x.earlier_than(here) {
            lemma_same_minute_until_next(here, x);
        }
    }
}

/// The field that the search is looking at: the fields above it are known to
/// be permitted.
#[derive(Clone, Copy)]
enum Seek {
    Month,
    Day,
    Hour,
    Minute,
}

impl Seek {
    /// How many fields are known to be permitted.
    spec fn depth(self) -> int {
        match self {
            Seek::Month => 0,
            Seek::Day => 1,
            Seek::Hour => 2,
            Seek::Minute => 3,
        }
    }
}

impl Schedule {
    /// Creates a schedule from a cron expression.
    pub fn new(expression: &str) -> (r: Result<Self, ParsingError>)
        ensures
            match schedule_of(expression@) {
                Ok(schedule) => r matches Ok(s) && s@ == schedule,
                Err(e) => r matches Err(x) && x@ == e,
            },
    {
        let component = split(expression, ' ');
        if component.len() != FIELDS {
            return Err(
                ParsingError::InvalidExpressionLength {
                    expression: expression.to_owned(),
                    expected: FIELDS,
                    got: component.len(),
                },
            );
        }
        assert(texts(component@)[0] == component[0]@ && texts(component@)[1] == component[1]@
            && texts(component@)[2] == component[2]@ && texts(component@)[3] == component[3]@);
        let months = match parse_component(expression, component[3], MONTHS) {
            Ok(v) => v,
            Err(e) => {
                return Err(e);
            },
        };
        let days_of_month = match parse_component(expression, component[2], DAYS_OF_MONTH) {
            Ok(v) => v,
            Err(e) => {
                return Err(e);
            },
        };
        let hours = match parse_component(expression, component[1], HOURS) {
            Ok(v) => v,
            Err(e) => {
                return Err(e);
            },
        };
        let minutes = match parse_component(expression, component[0], MINUTES) {
            Ok(v) => v,
            Err(e) => {
                return Err(e);
            },
        };
        Ok(Self { months, days_of_month, hours, minutes })
    }

    /// Finds the first minute after `date` that the schedule permits, or
    /// `None` where the calendar holds no such minute.
    ///
    /// The search moves from the month down to the minute.  A field that is
    /// not permitted is advanced to the start of its next value; when that
    /// carries into the field above, the search starts again from the month.
    pub fn get_next_match(&self, date: Instant) -> (r: Option<Instant>)
        requires
            date@.valid(),
        ensures
            match r {
                Some(at) => self@.is_next_match(date@, at@),
                None => self@.none_after(date@),
            },
    {
        let ghost from = date@;
        let mut current = date;
        proof {
            lemma_minute_of_start_is_skipped(self@, from);
        }
        if !current.has_next_minute() {
            return None;
        }
        current.next_minute();
        let mut state = Seek::Month;
        loop
            invariant
                from == date@,
                from.valid(),
                current@.valid(),
                current@.on_minute(),
                from.earlier_than(current@),
                self@.none_between(from, current@),
                state.depth() >= 1 ==> self@.months.contains(current@.month as nat),
                state.depth() >= 2 ==> self@.days_of_month.contains(current@.day as nat),
                state.depth() >= 3 ==> self@.hours.contains(current@.hour as nat),
            decreases
                    MAX_YEAR - current@.year,
                    12 - current@.month,
                    31 - current@.day,
                    23 - current@.hour,
                    59 - current@.minute,
                    3 - state.depth(),
        {
            match state {
                Seek::Month => {
                    if self.is_month_valid(&current) {
                        state = Seek::Day;
                    } else {
                        proof {
                            lemma_month_is_skipped(self@, from, current@);
                        }
                        if !current.has_next_month() {
                            return None;
                        }
                        current.next_month();
                    }
                },
                Seek::Day => {
                    if self.is_day_of_month_valid(&current) {
                        state = Seek::Hour;
                    } else {
                        proof {
                            lemma_day_is_skipped(self@, from, current@);
                        }
                        if !current.has_next_day() {
                            return None;
                        }
                        if current.next_day() {
                            state = Seek::Month;
                        }
                    }
                },
                Seek::Hour => {
                    if self.is_hour_valid(&current) {
                        state = Seek::Minute;
                    } else {
                        proof {
                            lemma_hour_is_skipped(self@, from, current@);
                        }
                        if !current.has_next_hour() {
                            return None;
                        }
                        if current.next_hour() {
                            state = Seek::Month;
                        }
                    }
                },
                Seek::Minute => {
                    if self.is_minute_valid(&current) {
                        return Some(current);
                    }
                    proof {
                        lemma_minute_is_skipped(self@, from, current@);
                    }
                    if !current.has_next_minute() {
                        return None;
                    }
                    if current.next_minute() {
                        state = Seek::Month;
                    }
                },
            }
        }
    }

    /// The bit vector of the permitted months.
    pub fn months(&self) -> (v: u64)
        ensures
            members(v) == self@.months,
    {
        self.months
    }

    /// The bit vector of the permitted days of the month.
    pub fn days_of_month(&self) -> (v: u64)
        ensures
            members(v) == self@.days_of_month,
    {
        self.days_of_month
    }

    /// The bit vector of the permitted hours.
    pub fn hours(&self) -> (v: u64)
        ensures
            members(v) == self@.hours,
    {
        self.hours
    }

    /// The bit vector of the permitted minutes.
    pub fn minutes(&self) -> (v: u64)
        ensures
            members(v) == self@.minutes,
    {
        self.minutes
    }

    /// Whether the schedule permits the month of `date`.
    pub fn is_month_valid(&self, date: &Instant) -> (ok: bool)
        requires
            date@.valid(),
        ensures
            ok == self@.months.contains(date@.month as nat),
    {
        has_bit(self.months, date.month() as u64)
    }

    /// Whether the schedule permits the day of the month of `date`.
    pub fn is_day_of_month_valid(&self, date: &Instant) -> (ok: bool)
        requires
            date@.valid(),
        ensures
            ok == self@.days_of_month.contains(date@.day as nat),
    {
        has_bit(self.days_of_month, date.day() as u64)
    }

    /// Whether the schedule permits the hour of `date`.
    pub fn is_hour_valid(&self, date: &Instant) -> (ok: bool)
        requires
            date@.valid(),
        ensures
            ok == self@.hours.contains(date@.hour as nat),
    {
        has_bit(self.hours, date.hour() as u64)
    }

    /// Whether the schedule permits the minute of `date`.
    pub fn is_minute_valid(&self, date: &Instant) -> (ok: bool)
        requires
            date@.valid(),
        ensures
            ok == self@.minutes.contains(date@.minute as nat),
    {
        has_bit(self.minutes, date.minute() as u64)
    }
}

} // verus!
