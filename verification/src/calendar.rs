//! The days of a run: which day follows which, and how a day names its
//! extract. The arithmetic on dates is done by `chrono`.

use crate::paths::{extract_name, spec_extract_name};
use chrono::Datelike;
use vstd::prelude::*;

verus! {

/// A calendar day.
#[derive(Clone, Copy, PartialEq, Eq, Debug, Structural)]
pub struct Day {
    pub year: i32,
    pub month: u32,
    pub day: u32,
}

/// Leap years of the Gregorian calendar.
pub open spec fn is_leap_year(year: int) -> bool {
    year % 4 == 0 && (year % 100 != 0 || year % 400 == 0)
}

/// The number of days of a month; 0 where there is no such month.
pub open spec fn days_in_month(year: int, month: int) -> int {
    if month == 2 {
        if is_leap_year(year) {
            29
        } else {
            28
        }
    } else if month == 4 || month == 6 || month == 9 || month == 11 {
        30
    } else if 1 <= month <= 12 {
        31
    } else {
        0
    }
}

/// The earliest year of a date that `chrono` holds.
pub const MIN_YEAR: i32 = -262143;

/// The latest year of a date that `chrono` holds.
pub const MAX_YEAR: i32 = 262142;

/// The character of a decimal digit.
pub open spec fn digit(n: int) -> char {
    ((48 + n) as u8) as char
}

/// The decimal digits of `n`, with zeros in front where they are fewer than
/// `width`.
pub open spec fn decimal(n: nat, width: nat) -> Seq<char>
    decreases n, width,
{
    if n < 10 && width <= 1 {
        seq![digit(n as int)]
    } else {
        decimal(
            n / 10,
            if width > 0 {
                (width - 1) as nat
            } else {
                0
            },
        ).push(digit((n % 10) as int))
    }
}

/// A year as it is written: four digits or more, with a sign in front where
/// the year is negative or has more than four digits.
pub open spec fn year_text(year: int) -> Seq<char> {
    if 0 <= year <= 9999 {
        decimal(year as nat, 4)
    } else if year < 0 {
        seq!['-'] + decimal((-year) as nat, 4)
    } else {
        seq!['+'] + decimal(year as nat, 4)
    }
}

impl Day {
    /// The day exists in the calendar.
    pub open spec fn is_date(self) -> bool {
        1 <= self.month <= 12 && 1 <= self.day <= days_in_month(self.year as int, self.month as int)
    }

    /// The day exists and its year is one that `chrono` holds.
    pub open spec fn is_valid(self) -> bool {
        self.is_date() && MIN_YEAR <= self.year <= MAX_YEAR
    }

    /// The day that follows.
    pub open spec fn day_after(self) -> Day {
        if self.day < days_in_month(self.year as int, self.month as int) {
            Day { day: (self.day + 1) as u32, ..self }
        } else if self.month < 12 {
            Day { month: (self.month + 1) as u32, day: 1, ..self }
        } else {
            Day { year: (self.year + 1) as i32, month: 1, day: 1 }
        }
    }

    /// The day that precedes.
    pub open spec fn day_before(self) -> Day {
        if self.day > 1 {
            Day { day: (self.day - 1) as u32, ..self }
        } else if self.month > 1 {
            Day {
                month: (self.month - 1) as u32,
                day: days_in_month(self.year as int, self.month - 1) as u32,
                ..self
            }
        } else {
            Day { year: (self.year - 1) as i32, month: 12, day: 31 }
        }
    }

    /// This day is `other` or earlier.
    pub open spec fn spec_le(self, other: Day) -> bool {
        self.year < other.year || (self.year == other.year && (self.month < other.month || (
        self.month == other.month && self.day <= other.day)))
    }

    /// The day as it is written: the year, then two digits each for month
    /// and day.
    pub open spec fn spec_stamp(self) -> Seq<char> {
        year_text(self.year as int) + decimal(self.month as nat, 2) + decimal(self.day as nat, 2)
    }

    /// The day, where it exists and its year is one that `chrono` holds.
    pub fn new(year: i32, month: u32, day: u32) -> (made: Option<Day>)
        ensures
            made == if (Day { year, month, day }).is_valid() {
                Some(Day { year, month, day })
            } else {
                None
            },
    {
        let made = Day { year, month, day };
        if made.valid() {
            Some(made)
        } else {
            None
        }
    }

    /// Whether the day exists and its year is one that `chrono` holds.
    pub fn valid(&self) -> (ok: bool)
        ensures
            ok == self.is_valid(),
    {
        if self.year < MIN_YEAR || self.year > MAX_YEAR || self.month < 1 || self.month > 12
            || self.day < 1 {
            return false;
        }
        // The leap years repeat every 400 years: count from a year that is
        // not negative.
        let cycle: i32 = (self.year + 262400) % 400;
        assert(cycle == (self.year as int) % 400);
        let leap = cycle % 4 == 0 && (cycle % 100 != 0 || cycle == 0);
        assert(leap == is_leap_year(self.year as int));
        let last: u32 = if self.month == 2 {
            if leap {
                29
            } else {
                28
            }
        } else if self.month == 4 || self.month == 6 || self.month == 9 || self.month == 11 {
            30
        } else {
            31
        };
        self.day <= last
    }

    /// Whether this day is `other` or earlier.
    pub fn le(&self, other: &Day) -> (earlier: bool)
        ensures
            earlier == self.spec_le(*other),
    {
        self.year < other.year || (self.year == other.year && (self.month < other.month || (
        self.month == other.month && self.day <= other.day)))
    }

    /// The name of the day's extract; `None` for a day that is not valid.
    pub fn extract_name(&self) -> (name: Option<String>)
        ensures
            self.is_valid() ==> (name matches Some(text) && text@ == spec_extract_name(
                self.spec_stamp(),
            )),
            !self.is_valid() ==> name is None,
    {
        match stamp(*self) {
            Some(text) => Some(extract_name(text.as_str())),
            None => None,
        }
    }
}

/// The day after `day`, computed by `chrono::NaiveDate::checked_add_signed`
/// with one day of `chrono::TimeDelta`, on the date that
/// `chrono::NaiveDate::from_ymd_opt` makes, and read with the methods of
/// `chrono::Datelike`.
///
/// The contract claims that `chrono` follows the Gregorian calendar as
/// `day_after` states it, on every date that it holds and whose next day it
/// holds, and that it gives `None` for every other day.
#[verifier::external_body]
pub(crate) fn next_day(day: Day) -> (next: Option<Day>)
    ensures
        day.is_valid() && day.day_after().is_valid() ==> next == Some(day.day_after()),
        !(day.is_valid() && day.day_after().is_valid()) ==> next is None,
{
    chrono::NaiveDate::from_ymd_opt(day.year, day.month, day.day)
        .and_then(|date| date.checked_add_signed(chrono::TimeDelta::days(1)))
        .map(|date| Day { year: date.year(), month: date.month(), day: date.day() })
}

/// The day before `day`, computed by `chrono::NaiveDate::checked_sub_signed`
/// with one day of `chrono::TimeDelta`, on the date that
/// `chrono::NaiveDate::from_ymd_opt` makes, and read with the methods of
/// `chrono::Datelike`.
///
/// The contract claims that `chrono` follows the Gregorian calendar as
/// `day_before` states it, on every date that it holds and whose previous
/// day it holds, and that it gives `None` for every other day.
#[verifier::external_body]
pub(crate) fn previous_day(day: Day) -> (previous: Option<Day>)
    ensures
        day.is_valid() && day.day_before().is_valid() ==> previous == Some(day.day_before()),
        !(day.is_valid() && day.day_before().is_valid()) ==> previous is None,
{
    chrono::NaiveDate::from_ymd_opt(day.year, day.month, day.day)
        .and_then(|date| date.checked_sub_signed(chrono::TimeDelta::days(1)))
        .map(|date| Day { year: date.year(), month: date.month(), day: date.day() })
}

/// The day in the format `%Y%m%d` of `chrono::NaiveDate::format`, on the
/// date that `chrono::NaiveDate::from_ymd_opt` makes.
///
/// The contract claims that a date that `chrono` holds is written as
/// `spec_stamp` states it: the year with four digits or more, with a sign
/// where it is negative or has more than four digits, then month and day
/// with two digits each; and that every other day gives `None`.
#[verifier::external_body]
pub(crate) fn stamp(day: Day) -> (text: Option<String>)
    ensures
        day.is_valid() ==> text is Some,
        day.is_valid() ==> (text matches Some(s) ==> s@ == day.spec_stamp()),
        !day.is_valid() ==> text is None,
{
    chrono::NaiveDate::from_ymd_opt(day.year, day.month, day.day)
        .map(|date| date.format("%Y%m%d").to_string())
}

/// The day after a valid day exists. It is valid too, unless it lies behind
/// the last year that `chrono` holds; so it is valid wherever it is not
/// behind a valid day.
pub proof fn lemma_day_after_is_valid(day: Day, end: Day)
    requires
        day.is_valid(),
    ensures
        day.day_after().is_date(),
        day.day_after().is_valid() <==> !(day.year == MAX_YEAR && day.month == 12 && day.day == 31),
        end.is_valid() && day.day_after().spec_le(end) ==> day.day_after().is_valid(),
        day.spec_le(day.day_after()),
        day != day.day_after(),
{
}

/// The first day of a range of days, if the range holds a day.
pub fn first_unit(start: Day, end: Day) -> (first: Option<Day>)
    ensures
        first == if start.spec_le(end) {
            Some(start)
        } else {
            None
        },
{
    if start.le(&end) {
        Some(start)
    } else {
        None
    }
}

/// The day to process after `current` in a range that ends with `end`:
/// the day that follows, unless it lies behind `end`. There is none after a
/// day that is not valid, nor after the last day that `chrono` holds.
pub fn next_unit(current: Day, end: Day) -> (next: Option<Day>)
    ensures
        next == if current.is_valid() && current.day_after().is_valid()
            && current.day_after().spec_le(end) {
            Some(current.day_after())
        } else {
            None
        },
        current.is_valid() && end.is_valid() && current.day_after().spec_le(end) ==> next == Some(
            current.day_after(),
        ),
{
    proof {
        if current.is_valid() {
            lemma_day_after_is_valid(current, end);
        }
    }
    match next_day(current) {
        Some(following) => if following.le(&end) {
            Some(following)
        } else {
            None
        },
        None => None,
    }
}

/// The first and the last day of a month.
pub fn month_bounds(year: i32, month: u32) -> (bounds: Option<(Day, Day)>)
    ensures
        bounds == if (Day { year, month, day: 1 }).is_valid() {
            Some(
                (
                    Day { year, month, day: 1 },
                    Day { year, month, day: days_in_month(year as int, month as int) as u32 },
                ),
            )
        } else {
            None
        },
{
    let first = Day { year, month, day: 1 };
    if !first.valid() {
        return None;
    }
    if month == 12 {
        return Some((first, Day { year, month, day: 31 }));
    }
    let following = Day { year, month: month + 1, day: 1 };
    match previous_day(following) {
        Some(last) => Some((first, last)),
        None => None,
    }
}

} // verus!
