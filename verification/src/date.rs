//! Calendar dates: the plain value the library keeps, and the readings and
//! renderings of it that the `chrono` crate provides.

use vstd::prelude::*;

verus! {

/// The error that `chrono` reports for a text it cannot read. It is carried
/// through unread.
#[verifier::external_type_specification]
#[verifier::external_body]
pub struct ExParseError(chrono::ParseError);

/// A day of the calendar, without a time of day.
#[derive(Copy, Clone, PartialEq, Eq, Debug, Structural)]
pub struct CalendarDate {
    pub year: i32,
    pub month: u32,
    pub day: u32,
}

/// Why a date could not be read or rendered.
#[derive(Copy, Clone, PartialEq, Eq, Debug, Structural)]
pub enum DateError {
    /// The text is not a date in the expected form.
    Malformed,
    /// The year, month and day are not a day of the calendar.
    NoSuchDay,
}

/// The pattern of a stored date: year, month and day, as in `2015-09-05`.
pub open spec fn iso_pattern() -> Seq<char> {
    "%Y-%m-%d"@
}

/// The pattern of a date in a reply: as in `Sep 05, 2015`.
pub open spec fn long_pattern() -> Seq<char> {
    "%b %d, %Y"@
}

/// Whether `year` is a leap year of the proleptic Gregorian calendar.
pub open spec fn is_leap_year(year: int) -> bool {
    year % 4 == 0 && (year % 100 != 0 || year % 400 == 0)
}

/// The number of days of a month; 0 for a month that does not exist.
pub open spec fn days_in_month(year: int, month: int) -> int {
    if month == 2 {
        if is_leap_year(year) {
            29
        } else {
            28
        }
    } else if month == 4 || month == 6 || month == 9 || month == 11 {
        30
    } else if 1 <= month <= 12 {
        31
    } else {
        0
    }
}

/// Whether the three numbers are a day that `chrono` can represent: a day
/// of the proleptic Gregorian calendar in the years -262143 to 262142.
pub open spec fn is_calendar_day(year: int, month: int, day: int) -> bool {
    &&& -262143 <= year <= 262142
    &&& 1 <= day <= days_in_month(year, month)
}

/// The date that `chrono` reads from `text` under `pattern`, as year, month
/// and day; `None` where it reports an error.
pub uninterp spec fn parsed_date(text: Seq<char>, pattern: Seq<char>) -> Option<(i32, u32, u32)>;

/// The text that `chrono` renders the day `year`-`month`-`day` to under
/// `pattern`.
pub uninterp spec fn formatted_date(year: int, month: int, day: int, pattern: Seq<char>) -> Seq<
    char,
>;

/// Calls `chrono::NaiveDate::parse_from_str` and takes the year, month and
/// day of the date it returns. Trusted: the outcome depends on the text and
/// the pattern alone, and a date that was read is a day of the calendar.
#[verifier::external_body]
fn chrono_parse(text: &str, pattern: &str) -> (r: Result<(i32, u32, u32), chrono::ParseError>)
    ensures
        r matches Ok(ymd) ==> parsed_date(text@, pattern@) == Some(ymd) && is_calendar_day(
            ymd.0 as int,
            ymd.1 as int,
            ymd.2 as int,
        ),
        r is Err ==> parsed_date(text@, pattern@) is None,
{
    match chrono::NaiveDate::parse_from_str(text, pattern) {
        Ok(date) => Ok(
            (
                chrono::Datelike::year(&date),
                chrono::Datelike::month(&date),
                chrono::Datelike::day(&date),
            ),
        ),
        Err(error) => Err(error),
    }
}

/// Calls `chrono::NaiveDate::from_ymd_opt` and, on the date it returns,
/// `chrono::NaiveDate::format`. Trusted: a date comes back exactly for the
/// days of the calendar, and its rendering depends on the day and the
/// pattern alone. The two patterns admitted are made of specifiers that
/// `chrono` documents, so rendering does not fail.
#[verifier::external_body]
fn chrono_format(year: i32, month: u32, day: u32, pattern: &str) -> (r: Option<String>)
    requires
        pattern@ == iso_pattern() || pattern@ == long_pattern(),
    ensures
        r is Some == is_calendar_day(year as int, month as int, day as int),
        r matches Some(text) ==> text@ == formatted_date(
            year as int,
            month as int,
            day as int,
            pattern@,
        ),
{
    match chrono::NaiveDate::from_ymd_opt(year, month, day) {
        Some(date) => Some(date.format(pattern).to_string()),
        None => None,
    }
}

impl CalendarDate {
    /// Whether this is a day of the calendar.
    pub open spec fn is_valid(&self) -> bool {
        is_calendar_day(self.year as int, self.month as int, self.day as int)
    }

    /// Reads a stored date, such as `2015-09-05`.
    pub fn parse_iso(text: &str) -> (r: Result<CalendarDate, DateError>)
        ensures
            match r {
                Ok(date) => parsed_date(text@, iso_pattern()) == Some(
                    (date.year, date.month, date.day),
                ) && date.is_valid(),
                Err(error) => error == DateError::Malformed && parsed_date(text@, iso_pattern())
                    is None,
            },
    {
        match chrono_parse(text, "%Y-%m-%d") {
            Ok((year, month, day)) => Ok(CalendarDate { year, month, day }),
            Err(_) => Err(DateError::Malformed),
        }
    }

    /// The date as it is stored, such as `2015-09-05`.
    pub fn iso_text(&self) -> (r: Result<String, DateError>)
        ensures
            match r {
                Ok(text) => self.is_valid() && text@ == formatted_date(
                    self.year as int,
                    self.month as int,
                    self.day as int,
                    iso_pattern(),
                ),
                Err(error) => error == DateError::NoSuchDay && !self.is_valid(),
            },
    {
        match chrono_format(self.year, self.month, self.day, "%Y-%m-%d") {
            Some(text) => Ok(text),
            None => Err(DateError::NoSuchDay),
        }
    }

    /// The date as it is shown in a reply, such as `Sep 05, 2015`.
    pub fn long_text(&self) -> (r: Result<String, DateError>)
        ensures
            match r {
                Ok(text) => self.is_valid() && text@ == formatted_date(
                    self.year as int,
                    self.month as int,
                    self.day as int,
                    long_pattern(),
                ),
                Err(error) => error == DateError::NoSuchDay && !self.is_valid(),
            },
    {
        match chrono_format(self.year, self.month, self.day, "%b %d, %Y") {
            Some(text) => Ok(text),
            None => Err(DateError::NoSuchDay),
        }
    }
}

} // verus!
