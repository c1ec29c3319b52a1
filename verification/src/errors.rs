use vstd::prelude::*;

use crate::weekday::Weekday;

verus! {

/// Error code of the numeric parser.
#[verifier::external_type_specification]
#[verifier::external_body]
pub struct ExLexicalError(lexical_core::Error);

/// The kind of an input or output error.
#[verifier::external_type_specification]
#[verifier::external_body]
pub struct ExIoErrorKind(std::io::ErrorKind);

/// Errors handles all oddities which may occur in this library.
#[non_exhaustive]
#[allow(inconsistent_fields)]
#[derive(Debug, PartialEq)]
pub enum HifitimeError {
    InvalidGregorianDate,
    Parse { source: ParsingError, details: &'static str },
    SystemTimeError,
    Duration { source: DurationError },
}

/// Errors of duration arithmetic.
#[non_exhaustive]
#[derive(Debug, PartialEq, Clone, Copy)]
pub enum DurationError {
    Overflow,
    Underflow,
}

/// Errors when parsing strings.
#[non_exhaustive]
#[allow(inconsistent_fields)]
#[derive(Debug, PartialEq)]
pub enum ParsingError {
    NothingToParse,
    ValueError,
    TimeSystem,
    ISO8601,
    Lexical { err: lexical_core::Error },
    UnknownFormat,
    UnknownOrMissingUnit,
    UnsupportedTimeSystem,
    UnknownWeekday,
    UnknownMonthName,
    UnknownToken { token: char },
    UnexpectedCharacter { found: char, option1: Option<char>, option2: Option<char> },
    WeekdayMismatch { found: Weekday, expected: Weekday },
    InvalidTimezone,
    /// Reading a file failed.
    InOut { err: std::io::ErrorKind },
}

} // verus!
