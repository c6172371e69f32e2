//! Moving an instant to the start of its calendar unit or of the next one.

use vstd::prelude::*;
use crate::moment::Moment;

verus! {

/// Calendar steps on a value that stands for a [`Moment`].
///
/// The `next_*` methods report whether the step crossed into the next larger
/// unit.  They need a next unit to exist: the calendar ends with its last
/// year.
pub trait TimeExtension: View<V = Moment> + Sized {
    /// Sets the time to the beginning of the current minute.
    fn to_start_of_minute(&mut self)
        requires
            old(self)@.valid(),
        ensures
            final(self)@ == old(self)@.start_of_minute(),
    ;

    /// Sets the time to the beginning of the next minute; the result tells
    /// whether the hour changed.
    fn next_minute(&mut self) -> (crossed: bool)
        requires
            old(self)@.valid(),
            old(self)@.next_minute_start() is Some,
        ensures
            final(self)@ == old(self)@.next_minute_start().unwrap(),
            crossed == (final(self)@.hour != old(self)@.hour),
    ;

    /// Sets the time to the beginning of the current hour.
    fn to_start_of_hour(&mut self)
        requires
            old(self)@.valid(),
        ensures
            final(self)@ == old(self)@.start_of_hour(),
    ;

    /// Sets the time to the beginning of the next hour; the result tells
    /// whether the day changed.
    fn next_hour(&mut self) -> (crossed: bool)
        requires
            old(self)@.valid(),
            old(self)@.next_hour_start() is Some,
        ensures
            final(self)@ == old(self)@.next_hour_start().unwrap(),
            crossed == (final(self)@.day != old(self)@.day),
    ;

    /// Sets the time to the beginning of the current day.
    fn to_start_of_day(&mut self)
        requires
            old(self)@.valid(),
        ensures
            final(self)@ == old(self)@.start_of_day(),
    ;

    /// Sets the time to the beginning of the next day; the result tells
    /// whether the month changed.
    fn next_day(&mut self) -> (crossed: bool)
        requires
            old(self)@.valid(),
            old(self)@.next_day_start() is Some,
        ensures
            final(self)@ == old(self)@.next_day_start().unwrap(),
            crossed == (final(self)@.month != old(self)@.month),
    ;

    /// Sets the time to the beginning of the current month.
    fn to_start_of_month(&mut self)
        requires
            old(self)@.valid(),
        ensures
            final(self)@ == old(self)@.start_of_month(),
    ;

    /// Sets the time to the beginning of the next month.
    fn next_month(&mut self)
        requires
            old(self)@.valid(),
            old(self)@.next_month_start() is Some,
        ensures
            final(self)@ == old(self)@.next_month_start().unwrap(),
    ;
}

} // verus!
