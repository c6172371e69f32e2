//! The mathematical model of a calendar instant.

use vstd::prelude::*;

verus! {

/// The first year of the calendar.
pub const MIN_YEAR: i32 = -9999;

/// The last year of the calendar.
pub const MAX_YEAR: i32 = 9999;

/// Whether `year` is a leap year of the proleptic Gregorian calendar.
pub open spec fn is_leap_year(year: int) -> bool {
    year % 4 == 0 && (year % 100 != 0 || year % 400 == 0)
}

/// The number of days of month `month` (1 to 12) in `year`.
pub open spec fn days_in_month(year: int, month: int) -> int {
    if month == 2 {
        if is_leap_year(year) {
            29
        } else {
            28
        }
    } else if month == 4 || month == 6 || month == 9 || month == 11 {
        30
    } else {
        31
    }
}

/// The calendar fields of an instant.
pub struct Moment {
    pub year: int,
    pub month: int,
    pub day: int,
    pub hour: int,
    pub minute: int,
    pub second: int,
    pub nanosecond: int,
}

impl Moment {
    /// Every field lies in its calendar range, and the day exists in its month.
    pub open spec fn valid(self) -> bool {
        &&& MIN_YEAR <= self.year <= MAX_YEAR
        &&& 1 <= self.month <= 12
        &&& 1 <= self.day <= days_in_month(self.year, self.month)
        &&& 0 <= self.hour < 24
        &&& 0 <= self.minute < 60
        &&& 0 <= self.second < 60
        &&& 0 <= self.nanosecond < 1_000_000_000
    }

    /// The instant lies on a minute boundary.
    pub open spec fn on_minute(self) -> bool {
        self.second == 0 && self.nanosecond == 0
    }

    /// `self` comes strictly before `other`: the fields compared from the
    /// year down to the nanosecond.
    pub open spec fn earlier_than(self, other: Moment) -> bool {
        if self.year != other.year {
            self.year < other.year
        } else if self.month != other.month {
            self.month < other.month
        } else if self.day != other.day {
            self.day < other.day
        } else if self.hour != other.hour {
            self.hour < other.hour
        } else if self.minute != other.minute {
            self.minute < other.minute
        } else if self.second != other.second {
            self.second < other.second
        } else {
            self.nanosecond < other.nanosecond
        }
    }

    /// The start of the minute that holds `self`.
    pub open spec fn start_of_minute(self) -> Moment {
        Moment { second: 0, nanosecond: 0, ..self }
    }

    /// The start of the hour that holds `self`.
    pub open spec fn start_of_hour(self) -> Moment {
        Moment { minute: 0, ..self.start_of_minute() }
    }

    /// The start of the day that holds `self`.
    pub open spec fn start_of_day(self) -> Moment {
        Moment { hour: 0, ..self.start_of_hour() }
    }

    /// The start of the month that holds `self`.
    pub open spec fn start_of_month(self) -> Moment {
        Moment { day: 1, ..self.start_of_day() }
    }

    /// The start of the month after the one that holds `self`; `None` past
    /// the end of the calendar.
    pub open spec fn next_month_start(self) -> Option<Moment> {
        if self.month < 12 {
            Some(Moment { month: self.month + 1, ..self.start_of_month() })
        } else if self.year < MAX_YEAR {
            Some(Moment { year: self.year + 1, month: 1, ..self.start_of_month() })
        } else {
            None
        }
    }

    /// The start of the day after the one that holds `self`.
    pub open spec fn next_day_start(self) -> Option<Moment> {
        if self.day < days_in_month(self.year, self.month) {
            Some(Moment { day: self.day + 1, ..self.start_of_day() })
        } else {
            self.next_month_start()
        }
    }

    /// The start of the hour after the one that holds `self`.
    pub open spec fn next_hour_start(self) -> Option<Moment> {
        if self.hour < 23 {
            Some(Moment { hour: self.hour + 1, ..self.start_of_hour() })
        } else {
            self.next_day_start()
        }
    }

    /// The start of the minute after the one that holds `self`.
    pub open spec fn next_minute_start(self) -> Option<Moment> {
        if self.minute < 59 {
            Some(Moment { minute: self.minute + 1, ..self.start_of_minute() })
        } else {
            self.next_hour_start()
        }
    }

    /// The instant one minute after `self`: the next minute, at the same
    /// second and nanosecond within it.
    pub open spec fn minute_later(self) -> Option<Moment> {
        match self.next_minute_start() {
            Some(m) => Some(Moment { second: self.second, nanosecond: self.nanosecond, ..m }),
            None => None,
        }
    }

    /// The instant `minutes` minutes after `self`; `None` past the end of the
    /// calendar.
    pub open spec fn plus_minutes(self, minutes: nat) -> Option<Moment>
        decreases minutes,
    {
        if minutes == 0 {
            Some(self)
        } else {
            match self.plus_minutes((minutes - 1) as nat) {
                Some(m) => m.minute_later(),
                None => None,
            }
        }
    }
}

/// Within one hour, adding minutes moves the minute field alone.
pub proof fn lemma_minutes_within_hour(m: Moment, k: nat)
    requires
        m.valid(),
        m.minute + k <= 59,
    ensures
        m.plus_minutes(k) == Some(Moment { minute: m.minute + k, ..m }),
    decreases k,
{
    if k > 0 {
        lemma_minutes_within_hour(m, (k - 1) as nat);
    }
}

/// Adding `a + b` minutes is adding `a` minutes and then `b` more.
pub proof fn lemma_plus_minutes_split(m: Moment, a: nat, b: nat)
    ensures
        m.plus_minutes(a + b) == match m.plus_minutes(a) {
            Some(x) => x.plus_minutes(b),
            None => None,
        },
    decreases b,
{
    if b > 0 {
        lemma_plus_minutes_split(m, a, (b - 1) as nat);
        assert(a + b - 1 == a + (b - 1));
    }
}

/// Sixty minutes after the start of an hour the next hour starts.
pub proof fn lemma_hour_later(m: Moment)
    requires
        m.valid(),
        m.on_minute(),
        m.minute == 0,
    ensures
        m.plus_minutes(60) == m.next_hour_start(),
{
    lemma_minutes_within_hour(m, 59);
}

/// Within one day, adding whole hours to the start of an hour moves the hour
/// field alone.
pub proof fn lemma_hours_within_day(m: Moment, k: nat)
    requires
        m.valid(),
        m.on_minute(),
        m.minute == 0,
        m.hour + k <= 23,
    ensures
        m.plus_minutes(60 * k) == Some(Moment { hour: m.hour + k, ..m }),
    decreases k,
{
    if k > 0 {
        lemma_hours_within_day(m, (k - 1) as nat);
        lemma_plus_minutes_split(m, (60 * (k - 1)) as nat, 60);
        lemma_hour_later(Moment { hour: m.hour + k - 1, ..m });
    }
}

/// A day's worth of minutes after the start of a day the next day starts.
pub proof fn lemma_day_later(m: Moment)
    requires
        m.valid(),
        m.on_minute(),
        m.minute == 0,
        m.hour == 0,
    ensures
        m.plus_minutes(1440) == m.next_day_start(),
{
    lemma_hours_within_day(m, 23);
    lemma_plus_minutes_split(m, 1380, 60);
    lemma_hour_later(Moment { hour: 23, ..m });
}

/// Within one month, adding whole days to the start of a day moves the day
/// field alone.
pub proof fn lemma_days_within_month(m: Moment, k: nat)
    requires
        m.valid(),
        m.on_minute(),
        m.minute == 0,
        m.hour == 0,
        m.day + k <= days_in_month(m.year, m.month),
    ensures
        m.plus_minutes(1440 * k) == Some(Moment { day: m.day + k, ..m }),
    decreases k,
{
    if k > 0 {
        lemma_days_within_month(m, (k - 1) as nat);
        lemma_plus_minutes_split(m, (1440 * (k - 1)) as nat, 1440);
        lemma_day_later(Moment { day: m.day + k - 1, ..m });
    }
}

/// A month's worth of minutes after the start of a month the next month
/// starts.
pub proof fn lemma_month_later(m: Moment)
    requires
        m.valid(),
        m.on_minute(),
        m.minute == 0,
        m.hour == 0,
        m.day == 1,
    ensures
        m.plus_minutes((1440 * days_in_month(m.year, m.month)) as nat) == m.next_month_start(),
{
    let last = days_in_month(m.year, m.month);
    lemma_days_within_month(m, (last - 1) as nat);
    lemma_plus_minutes_split(m, (1440 * (last - 1)) as nat, 1440);
    lemma_day_later(Moment { day: last, ..m });
}

/// From an instant up to the start of the next month, the year and the
/// month stay the same.
pub proof fn lemma_same_month_until_next(from: Moment, x: Moment)
    requires
        from.valid(),
        x.valid(),
        !x.earlier_than(from),
        from.next_month_start() matches Some(next) ==> x.earlier_than(next),
    ensures
        x.year == from.year,
        x.month == from.month,
{
}

/// From an instant up to the start of the next day, the date stays the same.
pub proof fn lemma_same_day_until_next(from: Moment, x: Moment)
    requires
        from.valid(),
        x.valid(),
        !x.earlier_than(from),
        from.next_day_start() matches Some(next) ==> x.earlier_than(next),
    ensures
        x.year == from.year,
        x.month == from.month,
        x.day == from.day,
{
}

/// From an instant up to the start of the next hour, the date and the hour
/// stay the same.
pub proof fn lemma_same_hour_until_next(from: Moment, x: Moment)
    requires
        from.valid(),
        x.valid(),
        !x.earlier_than(from),
        from.next_hour_start() matches Some(next) ==> x.earlier_than(next),
    ensures
        x.year == from.year,
        x.month == from.month,
        x.day == from.day,
        x.hour == from.hour,
{
}

/// From an instant up to the start of the next minute, the date, the hour and
/// the minute stay the same.
pub proof fn lemma_same_minute_until_next(from: Moment, x: Moment)
    requires
        from.valid(),
        x.valid(),
        !x.earlier_than(from),
        from.next_minute_start() matches Some(next) ==> x.earlier_than(next),
    ensures
        x.year == from.year,
        x.month == from.month,
        x.day == from.day,
        x.hour == from.hour,
        x.minute == from.minute,
{
}

} // verus!
