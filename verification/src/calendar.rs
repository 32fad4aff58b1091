//! Calendar dates without a time of day: parsing, the day before and the
//! day after, and the text that names a date to the history query.

use chrono::{Datelike, NaiveDate};
use vstd::prelude::*;

use crate::text::string_of;

verus! {

/// The earliest year that a date can lie in.
pub const FIRST_YEAR: i32 = -262143;

/// The latest year that a date can lie in.
pub const LAST_YEAR: i32 = 262142;

/// A date of the proleptic Gregorian calendar, by year, month and day of
/// the month. Year 0 is the year before year 1.
#[derive(Clone, Copy, Debug, PartialEq, Eq, Structural)]
pub struct CalendarDate {
    pub year: i32,
    pub month: u32,
    pub day: u32,
}

/// Whether `year` has a 29th of February.
pub open spec fn is_leap_year(year: int) -> bool {
    year % 4 == 0 && (year % 100 != 0 || year % 400 == 0)
}

/// The number of days of `month` in `year`, for a month from 1 to 12.
pub open spec fn days_in_month(year: int, month: int) -> int {
    if month == 2 {
        if is_leap_year(year) {
            29
        } else {
            28
        }
    } else if month == 4 || month == 6 || month == 9 || month == 11 {
        30
    } else {
        31
    }
}

impl CalendarDate {
    /// Whether the date exists and lies in a year that dates can lie in.
    pub open spec fn is_valid(self) -> bool {
        &&& FIRST_YEAR <= self.year <= LAST_YEAR
        &&& 1 <= self.month <= 12
        &&& 1 <= self.day <= days_in_month(self.year as int, self.month as int)
    }

    /// Whether this is the first day of the first year.
    pub open spec fn is_first(self) -> bool {
        self.year == FIRST_YEAR && self.month == 1 && self.day == 1
    }

    /// Whether this is the last day of the last year.
    pub open spec fn is_last(self) -> bool {
        self.year == LAST_YEAR && self.month == 12 && self.day == 31
    }

    /// The calendar day before this one.
    pub open spec fn previous(self) -> CalendarDate {
        if self.day > 1 {
            CalendarDate { year: self.year, month: self.month, day: (self.day - 1) as u32 }
        } else if self.month > 1 {
            CalendarDate {
                year: self.year,
                month: (self.month - 1) as u32,
                day: days_in_month(self.year as int, self.month - 1) as u32,
            }
        } else {
            CalendarDate { year: (self.year - 1) as i32, month: 12, day: 31 }
        }
    }

    /// The calendar day after this one.
    pub open spec fn next(self) -> CalendarDate {
        if self.day < days_in_month(self.year as int, self.month as int) {
            CalendarDate { year: self.year, month: self.month, day: (self.day + 1) as u32 }
        } else if self.month < 12 {
            CalendarDate { year: self.year, month: (self.month + 1) as u32, day: 1 }
        } else {
            CalendarDate { year: (self.year + 1) as i32, month: 1, day: 1 }
        }
    }

    /// The day before this one, where this date exists and a date can lie
    /// before it.
    pub open spec fn day_before(self) -> Option<CalendarDate> {
        if self.is_valid() && !self.is_first() {
            Some(self.previous())
        } else {
            None
        }
    }

    /// The day after this one, where this date exists and a date can lie
    /// after it.
    pub open spec fn day_after(self) -> Option<CalendarDate> {
        if self.is_valid() && !self.is_last() {
            Some(self.next())
        } else {
            None
        }
    }
}

/// The day before a date and the day after it are dates again, and each
/// undoes the other.
pub proof fn lemma_neighbours(date: CalendarDate)
    requires
        date.is_valid(),
    ensures
        !date.is_first() ==> date.previous().is_valid() && date.previous().next() == date,
        !date.is_last() ==> date.next().is_valid() && date.next().previous() == date,
{
}

/// The date that chrono's `NaiveDate::parse_from_str` reads from `text`
/// under the format `format`, or `None` where it reports an error.
pub uninterp spec fn parsed_date(text: Seq<char>, format: Seq<char>) -> Option<CalendarDate>;

/// Calls chrono's `NaiveDate::parse_from_str` and takes year, month and day
/// of the date it reads. The contract claims that the outcome depends on
/// the two texts alone.
#[verifier::external_body]
pub(crate) fn parse_date(text: &str, format: &str) -> (date: Option<CalendarDate>)
    ensures
        date == parsed_date(text@, format@),
{
    match NaiveDate::parse_from_str(text, format) {
        Ok(day) => Some(CalendarDate { year: day.year(), month: day.month(), day: day.day() }),
        Err(_) => None,
    }
}

/// Calls chrono's `NaiveDate::pred_opt` on the date that
/// `NaiveDate::from_ymd_opt` makes of the three numbers. The contract claims
/// that chrono yields the previous day of the calendar, and nothing for a
/// date that does not exist or that is the first one it can hold.
#[verifier::external_body]
pub(crate) fn day_before(date: CalendarDate) -> (before: Option<CalendarDate>)
    ensures
        before == date.day_before(),
{
    let day = NaiveDate::from_ymd_opt(date.year, date.month, date.day)?.pred_opt()?;
    Some(CalendarDate { year: day.year(), month: day.month(), day: day.day() })
}

/// Calls chrono's `NaiveDate::succ_opt` on the date that
/// `NaiveDate::from_ymd_opt` makes of the three numbers. The contract claims
/// that chrono yields the next day of the calendar, and nothing for a date
/// that does not exist or that is the last one it can hold.
#[verifier::external_body]
pub(crate) fn day_after(date: CalendarDate) -> (after: Option<CalendarDate>)
    ensures
        after == date.day_after(),
{
    let day = NaiveDate::from_ymd_opt(date.year, date.month, date.day)?.succ_opt()?;
    Some(CalendarDate { year: day.year(), month: day.month(), day: day.day() })
}

/// The character that stands for `d`, a number from 0 to 9.
pub open spec fn digit(d: int) -> char {
    if d == 0 {
        '0'
    } else if d == 1 {
        '1'
    } else if d == 2 {
        '2'
    } else if d == 3 {
        '3'
    } else if d == 4 {
        '4'
    } else if d == 5 {
        '5'
    } else if d == 6 {
        '6'
    } else if d == 7 {
        '7'
    } else if d == 8 {
        '8'
    } else {
        '9'
    }
}

/// `n` in decimal digits, without leading zeros.
pub open spec fn decimal(n: nat) -> Seq<char>
    decreases n,
{
    if n < 10 {
        seq![digit(n as int)]
    } else {
        decimal(n / 10).push(digit((n % 10) as int))
    }
}

/// `i` in decimal digits, with a minus sign where it is negative.
pub open spec fn signed_decimal(i: int) -> Seq<char> {
    if i < 0 {
        seq!['-'] + decimal((-i) as nat)
    } else {
        decimal(i as nat)
    }
}

/// The text that names `date`: year, month and day in decimal digits
/// without padding, with a hyphen between them.
pub open spec fn date_text(date: CalendarDate) -> Seq<char> {
    signed_decimal(date.year as int) + seq!['-'] + decimal(date.month as nat) + seq!['-']
        + decimal(date.day as nat)
}

fn digit_char(d: u32) -> (c: char)
    requires
        d < 10,
    ensures
        c == digit(d as int),
{
    if d == 0 {
        '0'
    } else if d == 1 {
        '1'
    } else if d == 2 {
        '2'
    } else if d == 3 {
        '3'
    } else if d == 4 {
        '4'
    } else if d == 5 {
        '5'
    } else if d == 6 {
        '6'
    } else if d == 7 {
        '7'
    } else if d == 8 {
        '8'
    } else {
        '9'
    }
}

/// Appends `n` in decimal digits to `out`.
fn push_decimal(out: &mut Vec<char>, n: u32)
    ensures
        final(out)@ == old(out)@ + decimal(n as nat),
    decreases n,
{
    if n >= 10 {
        push_decimal(out, n / 10);
    }
    out.push(digit_char(n % 10));
}

impl CalendarDate {
    /// The text that names this date.
    pub fn text(&self) -> (out: String)
        ensures
            out@ == date_text(*self),
    {
        let mut chars: Vec<char> = Vec::new();
        let year: i64 = self.year as i64;
        if year < 0 {
            chars.push('-');
            push_decimal(&mut chars, (-year) as u32);
        } else {
            push_decimal(&mut chars, year as u32);
        }
        chars.push('-');
        push_decimal(&mut chars, self.month);
        chars.push('-');
        push_decimal(&mut chars, self.day);
        string_of(&chars)
    }
}

} // verus!
