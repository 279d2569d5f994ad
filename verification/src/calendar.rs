//! Dates of the proleptic Gregorian calendar and times of day, as plain
//! numbers.

use vstd::prelude::*;

verus! {

/// The number of nanoseconds in a second.
pub const NANOS_PER_SECOND: u32 = 1_000_000_000;

/// Whether `year` is a leap year of the proleptic Gregorian calendar.
pub open spec fn is_leap_year(year: int) -> bool {
    year % 4 == 0 && (year % 100 != 0 || year % 400 == 0)
}

/// The number of days of the month `month` (1 to 12) of `year`.
pub open spec fn days_in_month(year: int, month: int) -> int {
    if month == 2 {
        if is_leap_year(year) {
            29
        } else {
            28
        }
    } else if month == 4 || month == 6 || month == 9 || month == 11 {
        30
    } else {
        31
    }
}

/// Whether the proleptic Gregorian calendar has the day `day` in the month
/// `month` of `year`, for the years from -9999 to 9999.
pub open spec fn is_calendar_date(year: int, month: int, day: int) -> bool {
    &&& -9999 <= year <= 9999
    &&& 1 <= month <= 12
    &&& 1 <= day <= days_in_month(year, month)
}

/// A date and a time of day, as plain numbers.
#[derive(Debug, Clone, Copy, PartialEq, Eq, Hash, PartialOrd, Ord)]
pub struct DateTime {
    /// The year, in astronomical numbering: the year 0 comes before the year 1.
    pub year: i32,
    /// The month, from 1 to 12.
    pub month: u8,
    /// The day of the month, from 1 on.
    pub day: u8,
    /// The hour, from 0 to 23.
    pub hour: u8,
    /// The minute, from 0 to 59.
    pub minute: u8,
    /// The second, from 0 to 59.
    pub second: u8,
    /// The nanosecond within the second.
    pub nanosecond: u32,
}

impl DateTime {
    /// Whether the numbers name a day that the calendar has and a time of
    /// day that the clock has.
    pub open spec fn is_valid(self) -> bool {
        &&& is_calendar_date(self.year as int, self.month as int, self.day as int)
        &&& self.hour < 24
        &&& self.minute < 60
        &&& self.second < 60
        &&& self.nanosecond < NANOS_PER_SECOND
    }

    /// Tells whether the numbers name a date and a time that exist.
    pub fn validate(&self) -> (valid: bool)
        ensures
            valid == self.is_valid(),
    {
        self.hour < 24 && self.minute < 60 && self.second < 60 && self.nanosecond
            < NANOS_PER_SECOND && calendar_date_exists(self.year, self.month, self.day)
    }
}

/// Asks `time::Month::try_from` for the month of the number `month`, which
/// there is from 1 to 12, and `time::Date::from_calendar_date` whether it can
/// make a date of the year, the month and the day. It can for a year from
/// -9999 to 9999 and a day from 1 to the length of that month in that year,
/// in the proleptic Gregorian calendar.
#[verifier::external_body]
pub(crate) fn calendar_date_exists(year: i32, month: u8, day: u8) -> (found: bool)
    ensures
        found == is_calendar_date(year as int, month as int, day as int),
{
    match time::Month::try_from(month) {
        Ok(month) => time::Date::from_calendar_date(year, month, day).is_ok(),
        Err(_) => false,
    }
}

} // verus!
