//! Calendar dates, as the log stores and groups them.

use chrono::Datelike;
use std::str::FromStr;
use vstd::prelude::*;

verus! {

/// A day of the proleptic Gregorian calendar, without a time.
#[derive(Clone, Copy, Debug, PartialEq, Eq, Structural, Hash)]
pub struct Date {
    pub year: i32,
    pub month: u32,
    pub day: u32,
}

pub open spec fn is_leap_year(year: int) -> bool {
    (year % 4 == 0 && year % 100 != 0) || year % 400 == 0
}

/// The number of days of the given month (1 to 12) of the given year.
pub open spec fn days_in_month(year: int, month: int) -> int {
    if month == 2 {
        if is_leap_year(year) {
            29
        } else {
            28
        }
    } else if month == 4 || month == 6 || month == 9 || month == 11 {
        30
    } else {
        31
    }
}

impl Date {
    /// The fields name a day that exists in the calendar.
    pub open spec fn wf(&self) -> bool {
        &&& 1 <= self.month <= 12
        &&& 1 <= self.day <= days_in_month(self.year as int, self.month as int)
    }
}

/// The date given by a year, a month and a day.
pub open spec fn date_of_ymd(ymd: (int, int, int)) -> Date {
    Date { year: ymd.0 as i32, month: ymd.1 as u32, day: ymd.2 as u32 }
}

/// What chrono's `NaiveDate::from_str` reads from a text: the year, month
/// and day of the date, or nothing where the text is not a date.
pub uninterp spec fn naive_date_from_str(s: Seq<char>) -> Option<(int, int, int)>;

/// Whether `c` is an ASCII decimal digit.
pub open spec fn is_digit(c: char) -> bool {
    0x30 <= c as u32 <= 0x39
}

/// The value of the ASCII decimal digit `c`.
pub open spec fn digit_value(c: char) -> int {
    c as u32 - 0x30
}

/// Whether `s` is written `YYYY-MM-DD`, with ASCII digits.
pub open spec fn is_iso_date_text(s: Seq<char>) -> bool {
    &&& s.len() == 10
    &&& is_digit(s[0]) && is_digit(s[1]) && is_digit(s[2]) && is_digit(s[3])
    &&& s[4] == '-'
    &&& is_digit(s[5]) && is_digit(s[6])
    &&& s[7] == '-'
    &&& is_digit(s[8]) && is_digit(s[9])
}

/// The year, month and day written in a `YYYY-MM-DD` text, where they name
/// a day of the calendar.
pub open spec fn iso_date_of(s: Seq<char>) -> Option<(int, int, int)> {
    let y = digit_value(s[0]) * 1000 + digit_value(s[1]) * 100 + digit_value(s[2]) * 10
        + digit_value(s[3]);
    let m = digit_value(s[5]) * 10 + digit_value(s[6]);
    let d = digit_value(s[8]) * 10 + digit_value(s[9]);
    if 1 <= m <= 12 && 1 <= d <= days_in_month(y, m) {
        Some((y, m, d))
    } else {
        None
    }
}

/// The date that chrono reads from `s`, if any.
pub open spec fn parsed_date(s: Seq<char>) -> Option<Date> {
    match naive_date_from_str(s) {
        Some(ymd) => Some(date_of_ymd(ymd)),
        None => None,
    }
}

/// Relies on chrono's `NaiveDate::from_str` and on its `Datelike` getters:
/// the result depends on the text alone, and a parsed `NaiveDate` is a valid
/// calendar date. chrono reads a year, a month and a day separated by `-`;
/// a text of the documented `%Y-%m-%d` form, `YYYY-MM-DD` in ASCII digits,
/// reads as the date it writes exactly where that date exists. (chrono also
/// takes spaces around the fields, one-digit months and days, and signed
/// years of any width; of those texts only the validity of the result is
/// stated.)
#[verifier::external_body]
pub(crate) fn parse_date(s: &str) -> (r: Option<Date>)
    ensures
        r is None <==> naive_date_from_str(s@) is None,
        r matches Some(d) ==> d.wf() && naive_date_from_str(s@) == Some(
            (d.year as int, d.month as int, d.day as int),
        ),
        is_iso_date_text(s@) ==> match iso_date_of(s@) {
            Some(ymd) => r == Some(date_of_ymd(ymd)),
            None => r is None,
        },
{
    match chrono::NaiveDate::from_str(s) {
        Ok(d) => Some(Date { year: d.year(), month: d.month(), day: d.day() }),
        Err(_) => None,
    }
}

} // verus!
