//! Calendar months, as the statistics routes address them.

use crate::text::digit_char;
use vstd::prelude::*;

verus! {

/// A day of the Gregorian calendar.
#[derive(Clone, Copy, Debug, PartialEq, Eq, Structural)]
pub struct Date {
    pub year: i32,
    pub month: u32,
    pub day: u32,
}

/// Whether `year` has a 29th of February.
pub open spec fn leap_year(year: int) -> bool {
    year % 4 == 0 && (year % 100 != 0 || year % 400 == 0)
}

/// Number of days of `month` in `year`.
pub open spec fn days_in_month(year: int, month: int) -> int {
    if month == 2 {
        if leap_year(year) {
            29
        } else {
            28
        }
    } else if month == 4 || month == 6 || month == 9 || month == 11 {
        30
    } else {
        31
    }
}

/// The last year that a date can have here.
pub const LAST_YEAR: i32 = 9999;

impl Date {
    /// Whether the day exists, in a year from 1 to 9999.
    pub open spec fn valid(self) -> bool {
        &&& 1 <= self.year <= LAST_YEAR
        &&& 1 <= self.month <= 12
        &&& 1 <= self.day <= days_in_month(self.year as int, self.month as int)
    }

    /// The day before this one.
    pub open spec fn day_before(self) -> Date {
        if self.day > 1 {
            Date { year: self.year, month: self.month, day: (self.day - 1) as u32 }
        } else if self.month > 1 {
            Date {
                year: self.year,
                month: (self.month - 1) as u32,
                day: days_in_month(self.year as int, self.month - 1) as u32,
            }
        } else {
            Date { year: (self.year - 1) as i32, month: 12, day: 31 }
        }
    }

    /// The date as text: the year in four digits, the month and the day in
    /// two, with hyphens between them.
    pub open spec fn iso_text(self) -> Seq<char> {
        two_digits(self.year as int / 100) + two_digits(self.year as int % 100) + seq!['-'] + two_digits(
            self.month as int,
        ) + seq!['-'] + two_digits(self.day as int)
    }
}

/// Whether `year` has a 29th of February.
pub fn is_leap_year(year: i32) -> (r: bool)
    ensures
        r == leap_year(year as int),
{
    year % 4 == 0 && (year % 100 != 0 || year % 400 == 0)
}

/// Number of days of `month` in `year`.
pub fn month_length(year: i32, month: u32) -> (r: u32)
    ensures
        r == days_in_month(year as int, month as int),
{
    if month == 2 {
        if is_leap_year(year) {
            29
        } else {
            28
        }
    } else if month == 4 || month == 6 || month == 9 || month == 11 {
        30
    } else {
        31
    }
}

impl Date {
    /// Whether the day exists, in a year from 1 to 9999.
    pub fn is_valid(&self) -> (r: bool)
        ensures
            r == self.valid(),
    {
        1 <= self.year && self.year <= LAST_YEAR && 1 <= self.month && self.month <= 12 && 1
            <= self.day && self.day <= month_length(self.year, self.month)
    }
}

/// The two decimal digits of a number below one hundred.
pub open spec fn two_digits(n: int) -> Seq<char> {
    seq![digit_char(n / 10), digit_char(n % 10)]
}

/// Calls `chrono::NaiveDate::from_ymd_opt` and, on the date it made,
/// `pred_opt`, and reads year, month and day of the result. For a day that
/// exists, in a year from 1 to 9999, the result is the previous day of the
/// proleptic Gregorian calendar; a day of the year 1 has one too, since the
/// calendar of `chrono` reaches further back.
#[verifier::external_body]
fn previous_day(date: Date) -> (r: Option<Date>)
    requires
        date.valid(),
    ensures
        r == Some(date.day_before()),
{
    let day = chrono::NaiveDate::from_ymd_opt(date.year, date.month, date.day)?.pred_opt()?;
    Some(
        Date {
            year: chrono::Datelike::year(&day),
            month: chrono::Datelike::month(&day),
            day: chrono::Datelike::day(&day),
        },
    )
}

/// Calls `chrono::NaiveDate::from_ymd_opt` and formats the date it made with
/// its `Display`, which writes a year from 0 to 9999 in four digits, then the
/// month and the day in two digits each, with hyphens between them.
#[verifier::external_body]
fn date_text(date: Date) -> (r: Option<String>)
    requires
        date.valid(),
    ensures
        r is Some,
        r->0@ == date.iso_text(),
{
    let day = chrono::NaiveDate::from_ymd_opt(date.year, date.month, date.day)?;
    Some(day.to_string())
}

/// Why a year and a month do not name a month with statistics.
#[derive(Clone, Copy, Debug, PartialEq, Eq, Structural)]
pub enum PeriodError {
    /// The year is before the first year with statistics, or in the future.
    InvalidYear,
    /// The month is not a number from 1 to 12.
    InvalidMonth,
}

/// The first year with statistics.
pub const FIRST_YEAR: u16 = 2024;

/// Whether `year` and `month` name a month with statistics, seen from
/// `current_year`. The year is judged first.
pub fn check_period(year: u16, month: u8, current_year: u16) -> (r: Result<(), PeriodError>)
    ensures
        r == if year < FIRST_YEAR || year > current_year {
            Err::<(), PeriodError>(PeriodError::InvalidYear)
        } else if month < 1 || month > 12 {
            Err::<(), PeriodError>(PeriodError::InvalidMonth)
        } else {
            Ok::<(), PeriodError>(())
        },
{
    if year < FIRST_YEAR || year > current_year {
        Err(PeriodError::InvalidYear)
    } else if month < 1 || month > 12 {
        Err(PeriodError::InvalidMonth)
    } else {
        Ok(())
    }
}

impl PeriodError {
    /// The message that the caller is given.
    pub fn message(self) -> (r: &'static str)
        ensures
            r@ == match self {
                PeriodError::InvalidYear => "Invalid year"@,
                PeriodError::InvalidMonth => "Invalid month"@,
            },
    {
        match self {
            PeriodError::InvalidYear => "Invalid year",
            PeriodError::InvalidMonth => "Invalid month",
        }
    }
}

/// A calendar month, from its first day to its last.
#[derive(Clone, Copy, Debug, PartialEq, Eq, Structural)]
pub struct MonthSpan {
    pub start: Date,
    pub end: Date,
}

/// The span of `month` in `year`.
pub open spec fn span_of(year: u16, month: u8) -> MonthSpan {
    MonthSpan {
        start: Date { year: year as i32, month: month as u32, day: 1 },
        end: Date {
            year: year as i32,
            month: month as u32,
            day: days_in_month(year as int, month as int) as u32,
        },
    }
}

/// Whether `year` and `month` name a month whose span can be computed: a
/// month from 1 to 12 in a year from 1 to 9998.
pub open spec fn has_span(year: u16, month: u8) -> bool {
    1 <= year < LAST_YEAR && 1 <= month <= 12
}

/// The first and the last day of `month` in `year`. The last day is the day
/// before the first of the following month.
pub fn month_span(year: u16, month: u8) -> (r: Option<MonthSpan>)
    ensures
        r == if has_span(year, month) {
            Some(span_of(year, month))
        } else {
            None
        },
{
    if year < 1 || year >= 9999 || month < 1 || month > 12 {
        return None;
    }
    let start = Date { year: year as i32, month: month as u32, day: 1 };
    let next = if month == 12 {
        Date { year: year as i32 + 1, month: 1, day: 1 }
    } else {
        Date { year: year as i32, month: month as u32 + 1, day: 1 }
    };
    match previous_day(next) {
        Some(end) => Some(MonthSpan { start, end }),
        None => None,
    }
}

impl MonthSpan {
    /// Number of days in the span's month.
    pub fn days(&self) -> (r: u32)
        ensures
            r == self.end.day,
    {
        self.end.day
    }

    /// The span as it enters a cache key: the first day, two colons, the last
    /// day.
    pub open spec fn key_text(self) -> Seq<char> {
        self.start.iso_text() + "::"@ + self.end.iso_text()
    }

    /// The span as it enters a cache key, if both of its days exist.
    pub fn key(&self) -> (r: Option<String>)
        ensures
            r is Some == (self.start.valid() && self.end.valid()),
            r is Some ==> r->0@ == self.key_text(),
    {
        if !self.start.is_valid() || !self.end.is_valid() {
            return None;
        }
        let start = date_text(self.start);
        let end = date_text(self.end);
        match (start, end) {
            (Some(a), Some(b)) => Some(a.concat("::").concat(b.as_str())),
            _ => None,
        }
    }
}

} // verus!
