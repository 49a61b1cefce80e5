//! Calendar dates, as plain year, month and day.

use crate::text::{decimal, padded, push_decimal, push_padded};
use vstd::prelude::*;
use vstd::string::*;

verus! {

/// The earliest year that `chrono::NaiveDate` represents.
pub const MIN_YEAR: i32 = -262143;

/// The latest year that `chrono::NaiveDate` represents.
pub const MAX_YEAR: i32 = 262142;

/// Whether `year` is a leap year of the proleptic Gregorian calendar.
pub open spec fn is_leap_year(year: int) -> bool {
    year % 4 == 0 && (year % 100 != 0 || year % 400 == 0)
}

/// The number of days of `month` in `year`; zero where `month` is no month.
pub open spec fn days_in_month(year: int, month: int) -> int {
    if month == 2 {
        if is_leap_year(year) { 29 } else { 28 }
    } else if month == 4 || month == 6 || month == 9 || month == 11 {
        30
    } else if 1 <= month <= 12 {
        31
    } else {
        0
    }
}

/// Whether year, month and day name a day of the calendar within the years
/// that `chrono::NaiveDate` represents.
pub open spec fn is_calendar_date(year: int, month: int, day: int) -> bool {
    &&& MIN_YEAR <= year <= MAX_YEAR
    &&& 1 <= month <= 12
    &&& 1 <= day <= days_in_month(year, month)
}

/// A calendar day. The aggregate and the ledger only compare dates, so a date
/// is its three numbers.
#[derive(Clone, Copy, Debug, PartialEq, Eq, Structural)]
pub struct Date {
    pub year: i32,
    pub month: u32,
    pub day: u32,
}

/// The year of a date as text: four digits for the years 0 to 9999, and for
/// every other year its sign and at least four digits.
pub open spec fn year_text(year: int) -> Seq<char> {
    if 0 <= year <= 9999 {
        padded(year as nat, 4)
    } else if year > 9999 {
        seq!['+'] + decimal(year as nat)
    } else {
        seq!['-'] + padded((-year) as nat, 4)
    }
}

/// A date as text: year, month and day with `-` between them, month and
/// day in two digits, as in `2024-01-16`.
pub open spec fn date_text(date: Date) -> Seq<char> {
    year_text(date.year as int) + seq!['-'] + padded(date.month as nat, 2) + seq!['-'] + padded(
        date.day as nat,
        2,
    )
}

/// Calls `chrono::NaiveDate::from_ymd_opt` and reports whether it returned a
/// date. Trusted: chrono returns a date exactly for the days of the proleptic
/// Gregorian calendar whose year lies between `MIN_YEAR` and `MAX_YEAR`.
#[verifier::external_body]
fn chrono_accepts(year: i32, month: u32, day: u32) -> (accepted: bool)
    ensures
        accepted == is_calendar_date(year as int, month as int, day as int),
{
    chrono::NaiveDate::from_ymd_opt(year, month, day).is_some()
}

impl Date {
    /// Whether this is a day of the calendar.
    pub open spec fn wf(self) -> bool {
        is_calendar_date(self.year as int, self.month as int, self.day as int)
    }

    /// The date with the given year, month and day, if there is such a day.
    pub fn from_ymd_opt(year: i32, month: u32, day: u32) -> (date: Option<Date>)
        ensures
            date == if (Date { year, month, day }).wf() {
                Some(Date { year, month, day })
            } else {
                None
            },
    {
        if chrono_accepts(year, month, day) {
            Some(Date { year, month, day })
        } else {
            None
        }
    }

    /// The date as text, such as `2024-01-16`.
    pub fn to_text(&self) -> (text: String)
        ensures
            text@ == date_text(*self),
    {
        let mut text = String::new();
        if 0 <= self.year && self.year <= 9999 {
            push_padded(&mut text, self.year as u64, 4);
        } else if self.year > 9999 {
            text.append("+");
            push_decimal(&mut text, self.year as u64);
        } else {
            text.append("-");
            push_padded(&mut text, (-(self.year as i64)) as u64, 4);
        }
        text.append("-");
        push_padded(&mut text, self.month as u64, 2);
        text.append("-");
        push_padded(&mut text, self.day as u64, 2);
        proof {
            reveal_strlit("+");
            reveal_strlit("-");
            assert("+"@ =~= seq!['+']);
            assert("-"@ =~= seq!['-']);
            assert(text@ =~= date_text(*self));
        }
        text
    }
}

} // verus!
