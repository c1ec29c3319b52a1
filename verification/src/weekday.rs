use vstd::prelude::*;

use crate::errors::ParsingError;
use crate::text::{chars_of, trim, trimmed};
use crate::timescale::chars_equal;

verus! {

/// Days of the week, Monday being the first day of the week.
#[derive(Clone, Copy, Debug, PartialEq, Eq, Hash, Structural)]
pub enum Weekday {
    Monday,
    Tuesday,
    Wednesday,
    Thursday,
    Friday,
    Saturday,
    Sunday,
}

/// Months of the year.
#[derive(Clone, Copy, Debug, PartialEq, Eq, Hash, Structural)]
pub enum MonthName {
    January,
    February,
    March,
    April,
    May,
    June,
    July,
    August,
    September,
    October,
    November,
    December,
}

/// The weekday named by a text (long or short name, capitalized, in lower or upper case).
pub open spec fn weekday_named(t: Seq<char>) -> Option<Weekday> {
    if t == "Monday"@ || t == "monday"@ || t == "MONDAY"@ || t == "Mon"@ || t == "mon"@ || t
        == "MON"@ {
        Some(Weekday::Monday)
    } else if t == "Tuesday"@ || t == "tuesday"@ || t == "TUESDAY"@ || t == "Tue"@ || t
        == "tue"@ || t == "TUE"@ {
        Some(Weekday::Tuesday)
    } else if t == "Wednesday"@ || t == "wednesday"@ || t == "WEDNESDAY"@ || t == "Wed"@ || t
        == "wed"@ || t == "WED"@ {
        Some(Weekday::Wednesday)
    } else if t == "Thursday"@ || t == "thursday"@ || t == "THURSDAY"@ || t == "Thu"@ || t
        == "thu"@ || t == "THU"@ {
        Some(Weekday::Thursday)
    } else if t == "Friday"@ || t == "friday"@ || t == "FRIDAY"@ || t == "Fri"@ || t == "fri"@
        || t == "FRI"@ {
        Some(Weekday::Friday)
    } else if t == "Saturday"@ || t == "saturday"@ || t == "SATURDAY"@ || t == "Sat"@ || t
        == "sat"@ || t == "SAT"@ {
        Some(Weekday::Saturday)
    } else if t == "Sunday"@ || t == "sunday"@ || t == "SUNDAY"@ || t == "Sun"@ || t == "sun"@
        || t == "SUN"@ {
        Some(Weekday::Sunday)
    } else {
        None
    }
}

/// The month named by a text (long or short name, capitalized, in lower or upper case).
pub open spec fn month_named(t: Seq<char>) -> Option<MonthName> {
    if t == "January"@ || t == "january"@ || t == "JANUARY"@ || t == "Jan"@ || t == "jan"@ || t
        == "JAN"@ {
        Some(MonthName::January)
    } else if t == "February"@ || t == "february"@ || t == "FEBRUARY"@ || t == "Feb"@ || t
        == "feb"@ || t == "FEB"@ {
        Some(MonthName::February)
    } else if t == "March"@ || t == "march"@ || t == "MARCH"@ || t == "Mar"@ || t == "mar"@
        || t == "MAR"@ {
        Some(MonthName::March)
    } else if t == "April"@ || t == "april"@ || t == "APRIL"@ || t == "Apr"@ || t == "apr"@
        || t == "APR"@ {
        Some(MonthName::April)
    } else if t == "May"@ || t == "may"@ || t == "MAY"@ {
        Some(MonthName::May)
    } else if t == "June"@ || t == "june"@ || t == "JUNE"@ || t == "Jun"@ || t == "jun"@ || t
        == "JUN"@ {
        Some(MonthName::June)
    } else if t == "July"@ || t == "july"@ || t == "JULY"@ || t == "Jul"@ || t == "jul"@ || t
        == "JUL"@ {
        Some(MonthName::July)
    } else if t == "August"@ || t == "august"@ || t == "AUGUST"@ || t == "Aug"@ || t == "aug"@
        || t == "AUG"@ {
        Some(MonthName::August)
    } else if t == "September"@ || t == "september"@ || t == "SEPTEMBER"@ || t == "Sep"@ || t
        == "sep"@ || t == "SEP"@ {
        Some(MonthName::September)
    } else if t == "October"@ || t == "october"@ || t == "OCTOBER"@ || t == "Oct"@ || t
        == "oct"@ || t == "OCT"@ {
        Some(MonthName::October)
    } else if t == "November"@ || t == "november"@ || t == "NOVEMBER"@ || t == "Nov"@ || t
        == "nov"@ || t == "NOV"@ {
        Some(MonthName::November)
    } else if t == "December"@ || t == "december"@ || t == "DECEMBER"@ || t == "Dec"@ || t
        == "dec"@ || t == "DEC"@ {
        Some(MonthName::December)
    } else {
        None
    }
}

/// Whether the characters spell one of the three forms of a name.
fn is_one_of(c: &[char], a: &str, b: &str, d: &str) -> (r: bool)
    ensures
        r == (c@ == a@ || c@ == b@ || c@ == d@),
{
    chars_equal(c, a) || chars_equal(c, b) || chars_equal(c, d)
}

impl Weekday {
    /// Reads a weekday from its long or short name, capitalized, in lower or upper case,
    /// ignoring surrounding white space.
    pub fn from_text(s: &str) -> (r: Result<Weekday, ParsingError>)
        ensures
            match weekday_named(trimmed(s@)) {
                Some(w) => r == Ok::<Weekday, ParsingError>(w),
                None => r == Err::<Weekday, ParsingError>(ParsingError::UnknownWeekday),
            },
    {
        let v = chars_of(trim(s));
        let c = v.as_slice();
        if is_one_of(c, "Monday", "monday", "MONDAY") || is_one_of(c, "Mon", "mon", "MON") {
            Ok(Weekday::Monday)
        } else if is_one_of(c, "Tuesday", "tuesday", "TUESDAY") || is_one_of(c, "Tue", "tue", "TUE") {
            Ok(Weekday::Tuesday)
        } else if is_one_of(c, "Wednesday", "wednesday", "WEDNESDAY") || is_one_of(
            c,
            "Wed",
            "wed",
            "WED",
        ) {
            Ok(Weekday::Wednesday)
        } else if is_one_of(c, "Thursday", "thursday", "THURSDAY") || is_one_of(
            c,
            "Thu",
            "thu",
            "THU",
        ) {
            Ok(Weekday::Thursday)
        } else if is_one_of(c, "Friday", "friday", "FRIDAY") || is_one_of(c, "Fri", "fri", "FRI") {
            Ok(Weekday::Friday)
        } else if is_one_of(c, "Saturday", "saturday", "SATURDAY") || is_one_of(
            c,
            "Sat",
            "sat",
            "SAT",
        ) {
            Ok(Weekday::Saturday)
        } else if is_one_of(c, "Sunday", "sunday", "SUNDAY") || is_one_of(c, "Sun", "sun", "SUN") {
            Ok(Weekday::Sunday)
        } else {
            Err(ParsingError::UnknownWeekday)
        }
    }

    /// The weekday of a number of days after a Monday (modulo 7).
    pub fn from_days(u: u8) -> (r: Weekday)
        ensures
            r == weekday_of_index(u as int % 7),
    {
        match u % 7 {
            0 => Weekday::Monday,
            1 => Weekday::Tuesday,
            2 => Weekday::Wednesday,
            3 => Weekday::Thursday,
            4 => Weekday::Friday,
            5 => Weekday::Saturday,
            _ => Weekday::Sunday,
        }
    }
}

/// The weekday of an index from 0 (Monday) to 6 (Sunday).
pub open spec fn weekday_of_index(i: int) -> Weekday {
    if i == 0 {
        Weekday::Monday
    } else if i == 1 {
        Weekday::Tuesday
    } else if i == 2 {
        Weekday::Wednesday
    } else if i == 3 {
        Weekday::Thursday
    } else if i == 4 {
        Weekday::Friday
    } else if i == 5 {
        Weekday::Saturday
    } else {
        Weekday::Sunday
    }
}

/// The month number (from 1 for January to 12 for December).
pub open spec fn month_number(m: MonthName) -> int {
    match m {
        MonthName::January => 1,
        MonthName::February => 2,
        MonthName::March => 3,
        MonthName::April => 4,
        MonthName::May => 5,
        MonthName::June => 6,
        MonthName::July => 7,
        MonthName::August => 8,
        MonthName::September => 9,
        MonthName::October => 10,
        MonthName::November => 11,
        MonthName::December => 12,
    }
}

impl MonthName {
    /// Reads a month from its long or short name, capitalized, in lower or upper case,
    /// ignoring surrounding white space.
    pub fn from_text(s: &str) -> (r: Result<MonthName, ParsingError>)
        ensures
            match month_named(trimmed(s@)) {
                Some(m) => r == Ok::<MonthName, ParsingError>(m),
                None => r == Err::<MonthName, ParsingError>(ParsingError::UnknownMonthName),
            },
    {
        let v = chars_of(trim(s));
        let c = v.as_slice();
        if is_one_of(c, "January", "january", "JANUARY") || is_one_of(c, "Jan", "jan", "JAN") {
            Ok(MonthName::January)
        } else if is_one_of(c, "February", "february", "FEBRUARY") || is_one_of(
            c,
            "Feb",
            "feb",
            "FEB",
        ) {
            Ok(MonthName::February)
        } else if is_one_of(c, "March", "march", "MARCH") || is_one_of(c, "Mar", "mar", "MAR") {
            Ok(MonthName::March)
        } else if is_one_of(c, "April", "april", "APRIL") || is_one_of(c, "Apr", "apr", "APR") {
            Ok(MonthName::April)
        } else if is_one_of(c, "May", "may", "MAY") {
            Ok(MonthName::May)
        } else if is_one_of(c, "June", "june", "JUNE") || is_one_of(c, "Jun", "jun", "JUN") {
            Ok(MonthName::June)
        } else if is_one_of(c, "July", "july", "JULY") || is_one_of(c, "Jul", "jul", "JUL") {
            Ok(MonthName::July)
        } else if is_one_of(c, "August", "august", "AUGUST") || is_one_of(c, "Aug", "aug", "AUG") {
            Ok(MonthName::August)
        } else if is_one_of(c, "September", "september", "SEPTEMBER") || is_one_of(
            c,
            "Sep",
            "sep",
            "SEP",
        ) {
            Ok(MonthName::September)
        } else if is_one_of(c, "October", "october", "OCTOBER") || is_one_of(c, "Oct", "oct", "OCT") {
            Ok(MonthName::October)
        } else if is_one_of(c, "November", "november", "NOVEMBER") || is_one_of(
            c,
            "Nov",
            "nov",
            "NOV",
        ) {
            Ok(MonthName::November)
        } else if is_one_of(c, "December", "december", "DECEMBER") || is_one_of(
            c,
            "Dec",
            "dec",
            "DEC",
        ) {
            Ok(MonthName::December)
        } else {
            Err(ParsingError::UnknownMonthName)
        }
    }

    /// The month number (from 1 for January to 12 for December).
    pub fn number(&self) -> (r: u8)
        ensures
            r == month_number(*self),
    {
        match self {
            MonthName::January => 1,
            MonthName::February => 2,
            MonthName::March => 3,
            MonthName::April => 4,
            MonthName::May => 5,
            MonthName::June => 6,
            MonthName::July => 7,
            MonthName::August => 8,
            MonthName::September => 9,
            MonthName::October => 10,
            MonthName::November => 11,
            MonthName::December => 12,
        }
    }

    /// The month of a month number, modulo 12 (0 is December).
    pub fn from_number(u: u8) -> (r: MonthName)
        ensures
            month_number(r) == (if u as int % 12 == 0 {
                12
            } else {
                u as int % 12
            }),
    {
        match u % 12 {
            1 => MonthName::January,
            2 => MonthName::February,
            3 => MonthName::March,
            4 => MonthName::April,
            5 => MonthName::May,
            6 => MonthName::June,
            7 => MonthName::July,
            8 => MonthName::August,
            9 => MonthName::September,
            10 => MonthName::October,
            11 => MonthName::November,
            _ => MonthName::December,
        }
    }
}

} // verus!
