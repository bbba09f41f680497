//! Proleptic Gregorian calendar arithmetic on plain date and time fields.
use vstd::arithmetic::div_mod::{lemma_add_mod_noop, lemma_mod_twice};
use vstd::prelude::*;

verus! {

/// Earliest year that a `DateTime` may hold.
pub const MIN_YEAR: i32 = -9999;

/// Latest year that a `DateTime` may hold.
pub const MAX_YEAR: i32 = 9999;

/// A wall-clock instant: a calendar date and a time of day, read at a fixed
/// offset from UTC (`offset_seconds`, east positive).
#[derive(Clone, Copy, Debug, PartialEq, Eq, Structural)]
pub struct DateTime {
    pub year: i32,
    pub month: u8,
    pub day: u8,
    pub hour: u8,
    pub minute: u8,
    pub second: u8,
    pub offset_seconds: i32,
}

/// Leap years: divisible by 4, except centuries that are not divisible by 400.
pub open spec fn leap_year(year: int) -> bool {
    (year % 4 == 0 && year % 100 != 0) || year % 400 == 0
}

/// Number of days in `month` (1-12) of `year`.
pub open spec fn month_length(year: int, month: int) -> int {
    if month == 2 {
        if leap_year(year) { 29 } else { 28 }
    } else if month == 4 || month == 6 || month == 9 || month == 11 {
        30
    } else {
        31
    }
}

/// A day that exists in the supported span of the calendar.
pub open spec fn valid_date(year: int, month: int, day: int) -> bool {
    &&& MIN_YEAR <= year <= MAX_YEAR
    &&& 1 <= month <= 12
    &&& 1 <= day <= month_length(year, month)
}

/// Orders minutes as the calendar does: a later field value weighs less than
/// any increase of an earlier one, since every field stays below its factor.
pub open spec fn key_of(year: int, month: int, day: int, hour: int, minute: int) -> int {
    (((year * 13 + month) * 32 + day) * 24 + hour) * 60 + minute
}

/// The key of midnight on the first day after the month `month` of `year`.
pub open spec fn next_month_key(year: int, month: int) -> int {
    if month < 12 {
        key_of(year, month + 1, 1, 0, 0)
    } else {
        key_of(year + 1, 1, 1, 0, 0)
    }
}

/// The day after `(year, month, day)`.
pub open spec fn next_date(year: int, month: int, day: int) -> (int, int, int) {
    if day < month_length(year, month) {
        (year, month, day + 1)
    } else if month < 12 {
        (year, month + 1, 1)
    } else {
        (year + 1, 1, 1)
    }
}

/// Julian day number of a proleptic Gregorian date (1970-01-01 is 2440588).
pub open spec fn julian_day(year: int, month: int, day: int) -> int {
    let y = if month <= 2 { year - 1 } else { year };
    let era = y / 400;
    let year_of_era = y - era * 400;
    let shifted_month = if month > 2 { month - 3 } else { month + 9 };
    let day_of_year = (153 * shifted_month + 2) / 5 + day - 1;
    let day_of_era = year_of_era * 365 + year_of_era / 4 - year_of_era / 100 + day_of_year;
    era * 146097 + day_of_era - 719468 + 2440588
}

/// ISO weekday number of a date: Monday is 1, Sunday is 7.
pub open spec fn weekday_of(year: int, month: int, day: int) -> int {
    julian_day(year, month, day) % 7 + 1
}

/// Cycles through the ISO weekday numbers: the weekday `k` days after `w`.
pub open spec fn weekday_after(w: int, k: int) -> int {
    (w - 1 + k) % 7 + 1
}

impl DateTime {
    /// A real calendar instant within the supported years.
    pub open spec fn wf(self) -> bool {
        &&& valid_date(self.year as int, self.month as int, self.day as int)
        &&& self.hour < 24
        &&& self.minute < 60
        &&& self.second < 60
    }

    /// The key of the minute that holds this instant.
    pub open spec fn key(self) -> int {
        key_of(self.year as int, self.month as int, self.day as int, self.hour as int, self.minute as int)
    }

    pub open spec fn weekday(self) -> int {
        weekday_of(self.year as int, self.month as int, self.day as int)
    }
}

/// Days within one month follow each other through the week.
pub proof fn lemma_weekday_later_in_month(year: int, month: int, day: int, k: int)
    requires
        k >= 0,
    ensures
        weekday_of(year, month, day + k) == weekday_after(weekday_of(year, month, day), k),
        weekday_after(weekday_of(year, month, day), k) == weekday_after(weekday_of(year, month, day), k % 7),
{
    let j = julian_day(year, month, day);
    assert(julian_day(year, month, day + k) == j + k);
    lemma_add_mod_noop(j, k, 7);
    lemma_add_mod_noop(j % 7, k, 7);
    lemma_add_mod_noop(j % 7, k % 7, 7);
    lemma_mod_twice(k, 7);
    lemma_mod_twice(j, 7);
}

/// Relies on `time::Date::from_calendar_date`, `time::Date::weekday` and
/// `time::Weekday::number_from_monday`: the ISO weekday of a valid date, which
/// the crate reads off the Julian day number (Monday when it is divisible by 7).
#[verifier::external_body]
fn iso_weekday(year: i32, month: u8, day: u8) -> (r: u8)
    requires
        valid_date(year as int, month as int, day as int),
    ensures
        r as int == weekday_of(year as int, month as int, day as int),
{
    let month = time::Month::try_from(month).unwrap();
    time::Date::from_calendar_date(year, month, day).unwrap().weekday().number_from_monday()
}

impl DateTime {
    /// ISO weekday of the instant's date: Monday is 1, Sunday is 7.
    pub fn weekday_number(&self) -> (r: u8)
        requires
            self.wf(),
        ensures
            r as int == self.weekday(),
            1 <= r <= 7,
    {
        iso_weekday(self.year, self.month, self.day)
    }
}

#[verifier::rlimit(40)]
pub fn is_leap_year(year: i32) -> (r: bool)
    ensures
        r == leap_year(year as int),
{
    if year % 400 == 0 {
        return true;
    }
    if year % 100 == 0 {
        return false;
    }
    year % 4 == 0
}

/// Number of days in a month, with February's length by the leap-year rule.
pub fn max_days(year: i32, month: u8) -> (r: u8)
    requires
        1 <= month <= 12,
    ensures
        r as int == month_length(year as int, month as int),
        28 <= r <= 31,
{
    if month == 2 {
        if is_leap_year(year) {
            29
        } else {
            28
        }
    } else if month == 4 || month == 6 || month == 9 || month == 11 {
        30
    } else {
        31
    }
}

/// An instant whose key falls within a day lies on that day.
pub proof fn lemma_on_day(u: DateTime, year: int, month: int, day: int)
    requires
        u.wf(),
        1 <= month <= 12,
        1 <= day <= 31,
        key_of(year, month, day, 0, 0) <= u.key() < key_of(year, month, day + 1, 0, 0),
    ensures
        u.year == year,
        u.month == month,
        u.day == day,
{
    assert(u.year == year);
    assert(u.month == month);
}

/// An instant whose key falls within a month lies in that month.
pub proof fn lemma_in_month(u: DateTime, year: int, month: int)
    requires
        u.wf(),
        1 <= month <= 12,
        key_of(year, month, 1, 0, 0) <= u.key() < key_of(year, month, 32, 0, 0),
    ensures
        u.year == year,
        u.month == month,
{
    assert(u.year == year);
}

/// The key of midnight at the start of `date`.
pub open spec fn midnight_key(date: (int, int, int)) -> int {
    key_of(date.0, date.1, date.2, 0, 0)
}

/// No instant lies after the last day of a month and before the first day of
/// the next one, nor after the last supported day.
pub proof fn lemma_after_day(u: DateTime, year: int, month: int, day: int)
    requires
        u.wf(),
        valid_date(year, month, day),
        u.key() >= key_of(year, month, day + 1, 0, 0),
    ensures
        next_date(year, month, day).0 <= MAX_YEAR,
        u.key() >= midnight_key(next_date(year, month, day)),
{
    if day == month_length(year, month) {
        if u.year == year && u.month == month {
            assert(u.day <= day);
        }
    }
}

impl DateTime {
    pub open spec fn date(self) -> (int, int, int) {
        (self.year as int, self.month as int, self.day as int)
    }

    /// The key just past the last minute of this instant's hour.
    pub open spec fn hour_end_key(self) -> int {
        key_of(self.year as int, self.month as int, self.day as int, self.hour + 1, 0)
    }

    /// The key just past the last minute of this instant's month.
    pub open spec fn month_end_key(self) -> int {
        key_of(
            self.year as int,
            self.month as int,
            month_length(self.year as int, self.month as int) + 1,
            0,
            0,
        )
    }

    /// Midnight at the start of the day after this instant's date, at `hour`
    /// o'clock; `None` past the last supported day.
    pub fn next_day_at(&self, hour: u8) -> (r: Option<DateTime>)
        requires
            self.wf(),
            hour < 24,
        ensures
            match r {
                Some(n) => {
                    &&& n.wf()
                    &&& n.second == 0
                    &&& n.offset_seconds == self.offset_seconds
                    &&& n.hour == hour
                    &&& n.minute == 0
                    &&& n.date() == next_date(self.year as int, self.month as int, self.day as int)
                },
                None => next_date(self.year as int, self.month as int, self.day as int).0 > MAX_YEAR,
            },
    {
        let last = max_days(self.year, self.month);
        let (year, month, day) = if self.day < last {
            (self.year, self.month, self.day + 1)
        } else if self.month < 12 {
            (self.year, self.month + 1, 1)
        } else if self.year < MAX_YEAR {
            (self.year + 1, 1, 1)
        } else {
            return None;
        };
        Some(DateTime { year, month, day, hour, minute: 0, second: 0, offset_seconds: self.offset_seconds })
    }

    /// The start of the next hour, at minute `minute`; `None` past the last
    /// supported day.
    pub fn next_hour_at(&self, minute: u8) -> (r: Option<DateTime>)
        requires
            self.wf(),
            minute < 60,
        ensures
            match r {
                Some(n) => {
                    &&& n.wf()
                    &&& n.second == 0
                    &&& n.offset_seconds == self.offset_seconds
                    &&& n.minute == minute
                    &&& n.key() - minute >= self.hour_end_key()
                    &&& forall|u: DateTime|
                        u.wf() && u.key() >= self.hour_end_key() ==> #[trigger] u.key() >= n.key() - minute
                },
                None => forall|u: DateTime| #[trigger] u.wf() ==> u.key() < self.hour_end_key(),
            },
    {
        if self.hour < 23 {
            Some(DateTime { hour: self.hour + 1, minute, second: 0, ..*self })
        } else {
            let r = self.next_day_at(0);
            proof {
                assert forall|u: DateTime| u.wf() && u.key() >= self.hour_end_key() implies next_date(
                    self.year as int,
                    self.month as int,
                    self.day as int,
                ).0 <= MAX_YEAR && #[trigger] u.key() >= midnight_key(
                    next_date(self.year as int, self.month as int, self.day as int),
                ) by {
                    lemma_after_day(u, self.year as int, self.month as int, self.day as int);
                }
            }
            match r {
                Some(n) => Some(DateTime { minute, ..n }),
                None => None,
            }
        }
    }

    /// The start of the next minute; `None` past the last supported day.
    pub fn next_minute(&self) -> (r: Option<DateTime>)
        requires
            self.wf(),
        ensures
            match r {
                Some(n) => {
                    &&& n.wf()
                    &&& n.second == 0
                    &&& n.offset_seconds == self.offset_seconds
                    &&& n.key() > self.key()
                    &&& forall|u: DateTime| u.wf() && u.key() > self.key() ==> #[trigger] u.key() >= n.key()
                },
                None => forall|u: DateTime| #[trigger] u.wf() ==> u.key() <= self.key(),
            },
    {
        if self.minute < 59 {
            Some(DateTime { minute: self.minute + 1, second: 0, ..*self })
        } else {
            self.next_hour_at(0)
        }
    }

    /// Midnight on the first day of the next month; `None` past the last
    /// supported day.
    pub fn next_month_start(&self) -> (r: Option<DateTime>)
        requires
            self.wf(),
        ensures
            match r {
                Some(n) => {
                    &&& n.wf()
                    &&& n.second == 0
                    &&& n.offset_seconds == self.offset_seconds
                    &&& n.hour == 0
                    &&& n.minute == 0
                    &&& n.key() == next_month_key(self.year as int, self.month as int)
                    &&& forall|u: DateTime| u.wf() && u.key() >= self.month_end_key() ==> #[trigger] u.key() >= n.key()
                },
                None => forall|u: DateTime| #[trigger] u.wf() ==> u.key() < self.month_end_key(),
            },
    {
        let last = max_days(self.year, self.month);
        let end = DateTime { day: last, ..*self };
        let r = end.next_day_at(0);
        proof {
            assert forall|u: DateTime| u.wf() && u.key() >= self.month_end_key() implies next_date(
                self.year as int,
                self.month as int,
                last as int,
            ).0 <= MAX_YEAR && #[trigger] u.key() >= midnight_key(next_date(self.year as int, self.month as int, last as int)) by {
                lemma_after_day(u, self.year as int, self.month as int, last as int);
            }
        }
        r
    }
}

} // verus!
