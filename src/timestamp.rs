//! Calendar instants as plain values, and the date text slugs are built from.

use vstd::prelude::*;

verus! {

/// An instant: a calendar date and time of day at a UTC offset.
#[derive(Clone, Copy, Debug, PartialEq, Eq)]
pub struct Timestamp {
    pub year: i32,
    pub month: u8,
    pub day: u8,
    pub hour: u8,
    pub minute: u8,
    pub second: u8,
    pub nanosecond: u32,
    pub offset_seconds: i32,
}

pub open spec fn is_leap_year(y: int) -> bool {
    (y % 4 == 0 && y % 100 != 0) || y % 400 == 0
}

pub open spec fn days_in_month(y: int, m: int) -> int {
    if m == 2 {
        if is_leap_year(y) { 29 } else { 28 }
    } else if m == 4 || m == 6 || m == 9 || m == 11 {
        30
    } else {
        31
    }
}

/// A calendar date in the range the date library handles.
pub open spec fn valid_date(y: int, m: int, d: int) -> bool {
    &&& -9999 <= y <= 9999
    &&& 1 <= m <= 12
    &&& 1 <= d <= days_in_month(y, m)
}

impl Timestamp {
    /// A timestamp in the ranges the date library represents.
    pub open spec fn wf(&self) -> bool {
        &&& valid_date(self.year as int, self.month as int, self.day as int)
        &&& self.hour < 24
        &&& self.minute < 60
        &&& self.second < 60
        &&& self.nanosecond < 1_000_000_000
        &&& -93_599 <= self.offset_seconds <= 93_599
    }

    /// Whether this timestamp is in the ranges the date library represents.
    pub fn is_valid(&self) -> (r: bool)
        ensures
            r == self.wf(),
    {
        let leap = (self.year % 4 == 0 && self.year % 100 != 0) || self.year % 400 == 0;
        let days: u8 = if self.month == 2 {
            if leap { 29 } else { 28 }
        } else if self.month == 4 || self.month == 6 || self.month == 9 || self.month == 11 {
            30
        } else {
            31
        };
        -9999 <= self.year && self.year <= 9999 && 1 <= self.month && self.month <= 12 && 1 <= self.day
            && self.day <= days && self.hour < 24 && self.minute < 60 && self.second < 60
            && self.nanosecond < 1_000_000_000 && -93_599 <= self.offset_seconds
            && self.offset_seconds <= 93_599
    }

    /// The date of this instant as `year-month-day` text.
    pub fn date_text(&self) -> (r: String)
        requires
            self.wf(),
        ensures
            r@ == iso_date(self.year as int, self.month as int, self.day as int),
    {
        format_date(self.year, self.month, self.day)
    }
}

/// The decimal digit of a number below ten.
pub open spec fn digit(n: int) -> char {
    if n == 0 { '0' }
    else if n == 1 { '1' }
    else if n == 2 { '2' }
    else if n == 3 { '3' }
    else if n == 4 { '4' }
    else if n == 5 { '5' }
    else if n == 6 { '6' }
    else if n == 7 { '7' }
    else if n == 8 { '8' }
    else { '9' }
}

/// A number below 100 as two digits, zero-padded.
pub open spec fn two_digits(n: int) -> Seq<char> {
    seq![digit(n / 10), digit(n % 10)]
}

/// A number below 10000 as four digits, zero-padded.
pub open spec fn four_digits(n: int) -> Seq<char> {
    seq![digit(n / 1000), digit(n / 100 % 10), digit(n / 10 % 10), digit(n % 10)]
}

/// The text `[year]-[month]-[day]` of a calendar date: the year in four
/// zero-padded digits after a `-` when negative, then two-digit month and day.
pub open spec fn iso_date(year: int, month: int, day: int) -> Seq<char> {
    let sign = if year < 0 { seq!['-'] } else { Seq::<char>::empty() };
    let magnitude = if year < 0 { -year } else { year };
    sign + four_digits(magnitude) + seq!['-'] + two_digits(month) + seq!['-'] + two_digits(day)
}

/// Relies on time's Date::from_calendar_date, which accepts every valid date
/// in the range, and Date::format with the description `[year]-[month]-[day]`,
/// which never fails on a date and writes the sign only for negative years and
/// zero-pads the year to four digits, month and day to two.
#[verifier::external_body]
fn format_date(year: i32, month: u8, day: u8) -> (r: String)
    requires
        valid_date(year as int, month as int, day as int),
    ensures
        r@ == iso_date(year as int, month as int, day as int),
{
    let month = time::Month::try_from(month).unwrap();
    let date = time::Date::from_calendar_date(year, month, day).unwrap();
    let description = time::format_description::parse("[year]-[month]-[day]").unwrap();
    date.format(&description).unwrap()
}

} // verus!
