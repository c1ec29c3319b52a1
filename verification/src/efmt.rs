use vstd::prelude::*;

use vstd::string::StringSliceAdditionalSpecFns;
use vstd::utf8::{decode_utf8, encode_utf8, is_char_boundary, valid_utf8};

use crate::duration::{add_value, clamp_ns, lemma_of_ns_wf, Duration};
use crate::epoch::Epoch;
use crate::epoch_str::{lemma_stored_fits, pow10, stored_value, tz_value};
use crate::errors::{HifitimeError, ParsingError};
use crate::numeric::{
    ascii_digits, ascii_digits_value, is_numeric, lexical_i32, numeric_char, parse_i32,
};
use crate::text::{char_indices_of, char_pairs, chars_of, parse_std_i32, std_i32, trim, trimmed};
use crate::timescale::{time_scale_named, TimeScale};
use crate::unit::Unit;
use crate::weekday::{month_named, month_number, weekday_named, MonthName, Weekday};

verus! {

/// Maximum number of tokens in a format.
pub const MAX_TOKENS: usize = 16;

/// The items that a format string can hold, each introduced by `%`.
#[derive(Clone, Copy, Debug, PartialEq, Eq, Structural)]
pub enum Token {
    /// `%Y`: proleptic Gregorian year.
    Year,
    /// `%y`: year after 2000, on two digits.
    YearShort,
    /// `%m`: month number.
    Month,
    /// `%B`: month name in long form.
    MonthName,
    /// `%b`: month name in short form.
    MonthNameShort,
    /// `%d`: day number.
    Day,
    /// `%H`: hour number.
    Hour,
    /// `%M`: minute number.
    Minute,
    /// `%S`: seconds.
    Second,
    /// `%f`: sub-seconds.
    Subsecond,
    /// `%z`: hours of the time zone offset.
    OffsetHours,
    /// Minutes of the time zone offset.
    OffsetMinutes,
    /// `%T`: time scale.
    Timescale,
    /// `%j`: day of year, as an integer.
    DayOfYearInteger,
    /// `%J`: day of year, with a fraction.
    DayOfYear,
    /// `%A`: weekday name in long form.
    Weekday,
    /// `%a`: weekday name in short form.
    WeekdayShort,
    /// `%w`: weekday in decimal form.
    WeekdayDecimal,
}

/// The token introduced by a character after `%`, if any.
pub open spec fn token_of(c: char) -> Option<Token> {
    if c == 'Y' {
        Some(Token::Year)
    } else if c == 'y' {
        Some(Token::YearShort)
    } else if c == 'm' {
        Some(Token::Month)
    } else if c == 'b' {
        Some(Token::MonthNameShort)
    } else if c == 'B' {
        Some(Token::MonthName)
    } else if c == 'd' {
        Some(Token::Day)
    } else if c == 'j' {
        Some(Token::DayOfYearInteger)
    } else if c == 'J' {
        Some(Token::DayOfYear)
    } else if c == 'A' {
        Some(Token::Weekday)
    } else if c == 'a' {
        Some(Token::WeekdayShort)
    } else if c == 'H' {
        Some(Token::Hour)
    } else if c == 'M' {
        Some(Token::Minute)
    } else if c == 'S' {
        Some(Token::Second)
    } else if c == 'f' {
        Some(Token::Subsecond)
    } else if c == 'T' {
        Some(Token::Timescale)
    } else if c == 'w' {
        Some(Token::WeekdayDecimal)
    } else if c == 'z' {
        Some(Token::OffsetHours)
    } else {
        None
    }
}

/// Whether the token needs the Gregorian date of an epoch.
pub open spec fn token_needs_gregorian(t: Token) -> bool {
    match t {
        Token::Year | Token::YearShort | Token::Month | Token::MonthName | Token::MonthNameShort
        | Token::Day | Token::Hour | Token::Minute | Token::Second | Token::Subsecond
        | Token::OffsetHours | Token::OffsetMinutes => true,
        _ => false,
    }
}

/// Whether the token ends at the first character that is not numeric (the names and the day
/// of year with a fraction end at their separator instead).
pub open spec fn token_is_numeric(t: Token) -> bool {
    match t {
        Token::MonthName | Token::MonthNameShort | Token::Weekday | Token::WeekdayShort
        | Token::DayOfYear => false,
        _ => true,
    }
}

/// Position of the token's value among the year, month, day, hour, minute, second,
/// sub-second, offset hours and offset minutes.
pub open spec fn token_position(t: Token) -> Option<usize> {
    match t {
        Token::Year => Some(0usize),
        Token::Month => Some(1usize),
        Token::Day => Some(2usize),
        Token::Hour => Some(3usize),
        Token::Minute => Some(4usize),
        Token::Second => Some(5usize),
        Token::Subsecond => Some(6usize),
        Token::OffsetHours => Some(7usize),
        Token::OffsetMinutes => Some(8usize),
        _ => None,
    }
}


/// The token that follows a token ended by the given character, if that character may end it.
pub open spec fn token_advance(t: Token, c: char) -> Option<Token> {
    match t {
        Token::Year => if c == '-' {
            Some(Token::Month)
        } else {
            None
        },
        Token::Month => if c == '-' {
            Some(Token::Day)
        } else {
            None
        },
        Token::Day => if c == 'T' || c == ' ' {
            Some(Token::Hour)
        } else {
            None
        },
        Token::Hour => if c == ':' {
            Some(Token::Minute)
        } else {
            None
        },
        Token::Minute => if c == ':' {
            Some(Token::Second)
        } else {
            None
        },
        Token::Second => if c == '.' {
            Some(Token::Subsecond)
        } else if c == ' ' || c == 'Z' {
            Some(Token::Timescale)
        } else if c == '-' || c == '+' {
            Some(Token::OffsetHours)
        } else {
            None
        },
        Token::Subsecond => if c == ' ' || c == 'Z' {
            Some(Token::Timescale)
        } else if c == '-' || c == '+' {
            Some(Token::OffsetHours)
        } else {
            None
        },
        Token::OffsetHours => if c == ':' {
            Some(Token::OffsetMinutes)
        } else {
            None
        },
        Token::OffsetMinutes => if c == ' ' || c == 'Z' {
            Some(Token::Timescale)
        } else {
            None
        },
        _ => Some(t),
    }
}

/// Whether a value is acceptable for the token.
pub open spec fn token_value_ok(t: Token, v: int) -> bool {
    match t {
        Token::Month => 1 <= v <= 12,
        Token::Day => 1 <= v <= 31,
        Token::Hour | Token::OffsetHours => 0 <= v <= 23,
        Token::Minute | Token::OffsetMinutes => 0 <= v <= 59,
        Token::Second => 0 <= v <= 60,
        Token::Subsecond => 0 <= v <= 999_999_999,
        Token::DayOfYearInteger => 1 <= v <= 366,
        Token::YearShort => 0 <= v <= 99,
        Token::WeekdayDecimal => 0 <= v <= 6,
        _ => true,
    }
}

/// The error of a value that is not acceptable for its token.
pub open spec fn value_error() -> HifitimeError {
    HifitimeError::Parse { source: ParsingError::ValueError, details: "value out of bounds for token" }
}

/// The error of a character that may not end the token being read.
pub open spec fn token_error() -> HifitimeError {
    HifitimeError::Parse { source: ParsingError::UnknownFormat, details: "unexpected character after token" }
}

impl Token {
    /// Returns the token introduced by the character after `%`, if any.
    pub fn from_char(c: char) -> (r: Option<Token>)
        ensures
            r == token_of(c),
    {
        match c {
            'Y' => Some(Token::Year),
            'y' => Some(Token::YearShort),
            'm' => Some(Token::Month),
            'b' => Some(Token::MonthNameShort),
            'B' => Some(Token::MonthName),
            'd' => Some(Token::Day),
            'j' => Some(Token::DayOfYearInteger),
            'J' => Some(Token::DayOfYear),
            'A' => Some(Token::Weekday),
            'a' => Some(Token::WeekdayShort),
            'H' => Some(Token::Hour),
            'M' => Some(Token::Minute),
            'S' => Some(Token::Second),
            'f' => Some(Token::Subsecond),
            'T' => Some(Token::Timescale),
            'w' => Some(Token::WeekdayDecimal),
            'z' => Some(Token::OffsetHours),
            _ => None,
        }
    }


    /// Moves to the token that follows this one, when this token ends with the given character.
    pub fn advance_with(&mut self, ending_char: char) -> (r: Result<(), HifitimeError>)
        ensures
            match token_advance(*old(self), ending_char) {
                Some(t) => r is Ok && *final(self) == t,
                None => r == Err::<(), HifitimeError>(token_error()) && *final(self) == *old(self),
            },
    {
        let next: Option<Token> = match self {
            Token::Year => if ending_char == '-' {
                Some(Token::Month)
            } else {
                None
            },
            Token::Month => if ending_char == '-' {
                Some(Token::Day)
            } else {
                None
            },
            Token::Day => if ending_char == 'T' || ending_char == ' ' {
                Some(Token::Hour)
            } else {
                None
            },
            Token::Hour => if ending_char == ':' {
                Some(Token::Minute)
            } else {
                None
            },
            Token::Minute => if ending_char == ':' {
                Some(Token::Second)
            } else {
                None
            },
            Token::Second => if ending_char == '.' {
                Some(Token::Subsecond)
            } else if ending_char == ' ' || ending_char == 'Z' {
                // There are no subseconds here, only room for a time scale
                Some(Token::Timescale)
            } else if ending_char == '-' || ending_char == '+' {
                // There are no subseconds here, but we're moving onto a time zone
                Some(Token::OffsetHours)
            } else {
                None
            },
            Token::Subsecond => if ending_char == ' ' || ending_char == 'Z' {
                Some(Token::Timescale)
            } else if ending_char == '-' || ending_char == '+' {
                Some(Token::OffsetHours)
            } else {
                None
            },
            Token::OffsetHours => if ending_char == ':' {
                Some(Token::OffsetMinutes)
            } else {
                None
            },
            Token::OffsetMinutes => if ending_char == ' ' || ending_char == 'Z' {
                // Until we have a time scale, we can't parse anything else.
                Some(Token::Timescale)
            } else {
                None
            },
            _ => Some(*self),
        };
        match next {
            Some(t) => {
                *self = t;
                Ok(())
            },
            None => Err(
                HifitimeError::Parse {
                    source: ParsingError::UnknownFormat,
                    details: "unexpected character after token",
                },
            ),
        }
    }

    /// Checks that the value is acceptable for this token.
    pub fn value_ok(&self, val: i32) -> (r: Result<(), HifitimeError>)
        ensures
            token_value_ok(*self, val as int) ==> r is Ok,
            !token_value_ok(*self, val as int) ==> r == Err::<(), HifitimeError>(value_error()),
    {
        let ok = match self {
            Token::Month => 1 <= val && val <= 12,
            Token::Day => 1 <= val && val <= 31,
            Token::Hour | Token::OffsetHours => 0 <= val && val <= 23,
            Token::Minute | Token::OffsetMinutes => 0 <= val && val <= 59,
            Token::Second => 0 <= val && val <= 60,
            Token::Subsecond => 0 <= val && val <= 999_999_999,
            Token::DayOfYearInteger => 1 <= val && val <= 366,
            Token::YearShort => 0 <= val && val <= 99,
            Token::WeekdayDecimal => 0 <= val && val <= 6,
            _ => true,
        };
        if ok {
            Ok(())
        } else {
            Err(
                HifitimeError::Parse {
                    source: ParsingError::ValueError,
                    details: "value out of bounds for token",
                },
            )
        }
    }

    /// Whether this token is written with digits.
    pub fn is_numeric(&self) -> (r: bool)
        ensures
            r == token_is_numeric(*self),
    {
        match self {
            Token::MonthName | Token::MonthNameShort | Token::Weekday | Token::WeekdayShort
            | Token::DayOfYear => false,
            _ => true,
        }
    }

    /// Position of this token's value among the year, month, day, hour, minute, second,
    /// sub-second, offset hours and offset minutes.
    pub fn gregorian_position(&self) -> (r: Option<usize>)
        ensures
            r == token_position(*self),
    {
        match self {
            Token::Year => Some(0),
            Token::Month => Some(1),
            Token::Day => Some(2),
            Token::Hour => Some(3),
            Token::Minute => Some(4),
            Token::Second => Some(5),
            Token::Subsecond => Some(6),
            Token::OffsetHours => Some(7),
            Token::OffsetMinutes => Some(8),
            _ => None,
        }
    }
}

/// A token of a format, with up to two separator characters after it, and whether it is
/// optional.
#[derive(Clone, Copy, Debug, PartialEq, Eq, Structural)]
pub struct Item {
    pub token: Token,
    pub sep_char: Option<char>,
    pub second_sep_char: Option<char>,
    pub optional: bool,
}

/// The item of a token followed by the given characters: a `?` makes the token optional, and
/// the character after it is then its separator.
pub open spec fn item_of(token: Token, sep_char: Option<char>, second_sep_char: Option<char>) -> Item {
    if sep_char == Some('?') {
        Item { token, sep_char: second_sep_char, second_sep_char: None, optional: true }
    } else {
        Item { token, sep_char, second_sep_char, optional: false }
    }
}

impl Item {
    /// Creates an item; a `?` as first separator makes the token optional, and the second
    /// separator becomes its separator.
    pub fn new(token: Token, sep_char: Option<char>, second_sep_char: Option<char>) -> (r: Item)
        ensures
            r == item_of(token, sep_char, second_sep_char),
    {
        let mut me = Item { token, sep_char, second_sep_char, optional: false };
        if let Some(c) = sep_char {
            if c == '?' {
                me.optional = true;
                me.sep_char = second_sep_char;
                me.second_sep_char = None;
            }
        }
        me
    }

    /// Whether the separator is the given character.
    pub fn sep_char_is(&self, c_in: char) -> (r: bool)
        ensures
            r == (self.sep_char == Some(c_in)),
    {
        match self.sep_char {
            Some(c) => c == c_in,
            None => false,
        }
    }

    /// Whether there is a separator and it is not the given character.
    pub fn sep_char_is_not(&self, c_in: char) -> (r: bool)
        ensures
            r == (self.sep_char is Some && self.sep_char != Some(c_in)),
    {
        match self.sep_char {
            Some(c) => c != c_in,
            None => false,
        }
    }

    /// Whether the second separator is the given character.
    pub fn second_sep_char_is(&self, c_in: char) -> (r: bool)
        ensures
            r == (self.second_sep_char == Some(c_in)),
    {
        match self.second_sep_char {
            Some(c) => c == c_in,
            None => false,
        }
    }

    /// Whether there is a second separator and it is not the given character.
    pub fn second_sep_char_is_not(&self, c_in: char) -> (r: bool)
        ensures
            r == (self.second_sep_char is Some && self.second_sep_char != Some(c_in)),
    {
        match self.second_sep_char {
            Some(c) => c != c_in,
            None => false,
        }
    }
}

/// Index of the first `%` at or after `p`, or the length of the text.
pub open spec fn seg_end(s: Seq<char>, p: int) -> int
    decreases s.len() - p,
{
    if p >= s.len() || p < 0 {
        s.len() as int
    } else if s[p] == '%' {
        p
    } else {
        seg_end(s, p + 1)
    }
}

/// The character `k` places after `p` in the segment that starts at `p`, if any.
pub open spec fn seg_nth(s: Seq<char>, p: int, k: int) -> Option<char> {
    if p + k < seg_end(s, p) {
        Some(s[p + k])
    } else {
        None
    }
}

/// The end of the piece that starts at `p` lies at or after `p`, within the text, and is a `%`
/// unless it is the end of the text.
pub proof fn lemma_seg_end(s: Seq<char>, p: int)
    requires
        0 <= p <= s.len(),
    ensures
        p <= seg_end(s, p) <= s.len(),
        seg_end(s, p) < s.len() ==> s[seg_end(s, p)] == '%',
        forall|k: int| p <= k < seg_end(s, p) ==> s[k] != '%',
    decreases s.len() - p,
{
    if p < s.len() && s[p] != '%' {
        lemma_seg_end(s, p + 1);
    }
}

/// The items of the format text from position `p` on, after the items `acc` already read: the
/// text is cut at each `%`, an empty piece is skipped, and each other piece is a token
/// character followed by up to two separators.
pub open spec fn format_items(s: Seq<char>, p: int, acc: Seq<Item>) -> Result<Seq<Item>, ParsingError>
    decreases s.len() - p,
{
    if p < 0 || p > s.len() {
        Ok(acc)
    } else {
        let e = seg_end(s, p);
        proof {
            lemma_seg_end(s, p);
        }
        let next = if e == p {
            Ok(acc)
        } else if acc.len() >= 16 {
            Err(ParsingError::UnknownFormat)
        } else {
            match token_of(s[p]) {
                None => Err(ParsingError::UnknownToken { token: s[p] }),
                Some(t) => Ok(acc.push(item_of(t, seg_nth(s, p, 1), seg_nth(s, p, 2)))),
            }
        };
        match next {
            Err(err) => Err(err),
            Ok(acc2) => if e < s.len() {
                format_items(s, e + 1, acc2)
            } else {
                Ok(acc2)
            },
        }
    }
}


/// The day of year read by a format: an integer (`%j`), or the bytes of a number with a
/// fraction (`%J`), which the caller reads.
#[derive(Clone, Copy, Debug, PartialEq, Eq, Structural)]
pub enum DayOfYearField {
    Integer(i32),
    Fraction(usize, usize),
}

/// What a format reads from a text: the integers of the date (year, month, day, hour, minute,
/// second, nanoseconds, offset hours and minutes), the time scale, the sign of the offset, the
/// day of year and the weekday, if given.
#[derive(Clone, Copy, Debug)]
pub struct FormatFields {
    pub decomposed: [i32; MAX_TOKENS],
    pub time_scale: TimeScale,
    pub offset_sign: i8,
    pub day_of_year: Option<DayOfYearField>,
    pub weekday: Option<Weekday>,
}

/// The error of the format parser when a piece of text cannot be cut at character boundaries
/// or gives more than nine digits of sub-seconds.
pub open spec fn format_text_error() -> HifitimeError {
    HifitimeError::Parse { source: ParsingError::ValueError, details: "could not parse numerical" }
}

/// The error of a weekday in decimal form, which is not read.
pub open spec fn weekday_decimal_error() -> HifitimeError {
    HifitimeError::Parse {
        source: ParsingError::UnknownToken { token: 'w' },
        details: "weekday in decimal form is not supported",
    }
}

/// What the format scanner holds: the integers of the date, the time scale, the offset sign,
/// the day of year and the weekday.
pub type ScanFields = (Seq<i32>, TimeScale, int, Option<DayOfYearField>, Option<Weekday>);

/// The value read for the token `ptok` from the bytes `sub` (from `a` to `e`) into the fields,
/// or the error (`None` when the bytes do not read as an integer).
pub open spec fn format_value(
    ptok: Token,
    sub: Seq<u8>,
    a: int,
    e: int,
    fields: ScanFields,
) -> Result<ScanFields, Option<HifitimeError>> {
    let (dec, ts, sign, doy, wd) = fields;
    match ptok {
        Token::YearShort => match std_i32(decode_utf8(sub)) {
            Some(v) => if v + 2000 <= i32::MAX {
                Ok((dec.update(0, (v + 2000) as i32), ts, sign, doy, wd))
            } else {
                Err(
                    Some(
                        HifitimeError::Parse {
                            source: ParsingError::ValueError,
                            details: "could not parse year as i32",
                        },
                    ),
                )
            },
            None => Err(
                Some(
                    HifitimeError::Parse {
                        source: ParsingError::ValueError,
                        details: "could not parse year as i32",
                    },
                ),
            ),
        },
        Token::DayOfYear => Ok((dec, ts, sign, Some(DayOfYearField::Fraction(a as usize, e as usize)), wd)),
        Token::Weekday | Token::WeekdayShort => match weekday_named(trimmed(decode_utf8(sub))) {
            Some(w) => Ok((dec, ts, sign, doy, Some(w))),
            None => Err(
                Some(
                    HifitimeError::Parse {
                        source: ParsingError::UnknownWeekday,
                        details: "could not parse weekday",
                    },
                ),
            ),
        },
        Token::WeekdayDecimal => Err(Some(weekday_decimal_error())),
        Token::MonthName | Token::MonthNameShort => match month_named(trimmed(decode_utf8(sub))) {
            Some(m) => Ok((dec.update(1, month_number(m) as i32), ts, sign, doy, wd)),
            None => Err(
                Some(
                    HifitimeError::Parse {
                        source: ParsingError::ValueError,
                        details: "could not parse month name",
                    },
                ),
            ),
        },
        _ => match lexical_i32(sub) {
            None => Err(None),
            Some(val) => if !token_value_ok(ptok, val as int) {
                Err(Some(value_error()))
            } else {
                match token_position(ptok) {
                    Some(pos) => match stored_value(ptok, val as int, e - a) {
                        Some(v) => Ok((dec.update(pos as int, v as i32), ts, sign, doy, wd)),
                        None => Err(Some(format_text_error())),
                    },
                    None => Ok((dec, ts, sign, Some(DayOfYearField::Integer(val)), wd)),
                }
            },
        },
    }
}

/// The scan of a text `p` (characters with their byte index, of bytes `b`) by the items of a
/// format, from the character `k` on: each token is read up to a separator (or, for a numeric
/// token, up to a non numeric character, or to the end), then the next item is taken; a time
/// scale or a `Z` ends the text. The outcome is the byte ranges of the numbers with a fraction
/// that were read, in order, and the fields (or the error; `None` when a number does not read
/// as an integer).
pub open spec fn format_scan(
    items: Seq<Option<Item>>,
    num: int,
    p: Seq<(usize, char)>,
    b: Seq<u8>,
    k: int,
    fields: ScanFields,
    prev_idx: int,
    cur_idx: int,
    cur: Item,
    prev: Item,
) -> (Seq<(int, int)>, Result<ScanFields, Option<HifitimeError>>)
    decreases p.len() - k,
{
    if k < 0 || k >= p.len() {
        (seq![], Ok(fields))
    } else {
        let idx = p[k].0 as int;
        let c = p[k].1;
        let n = b.len() as int;
        let last = idx == n - 1;
        let (dec, ts, sign, doy, wd) = fields;
        if !(last || (token_is_numeric(cur.token) && !numeric_char(c)) || (!token_is_numeric(
            cur.token,
        ) && cur.sep_char == Some(c))) {
            format_scan(items, num, p, b, k + 1, fields, prev_idx, cur_idx, cur, prev)
        } else if idx == prev_idx && (prev.second_sep_char is None || prev.second_sep_char == Some(
            c,
        )) {
            format_scan(items, num, p, b, k + 1, fields, prev_idx + 1, cur_idx, cur, prev)
        } else if cur.token == Token::Timescale {
            if last {
                (seq![], Ok(fields))
            } else if !(0 <= idx <= n && is_char_boundary(b, idx)) {
                (seq![], Err(Some(format_text_error())))
            } else {
                match time_scale_named(trimmed(decode_utf8(b.subrange(idx, n)))) {
                    Some(t2) => (seq![], Ok((dec, t2, sign, doy, wd))),
                    None => (
                        seq![],
                        Err(
                            Some(
                                HifitimeError::Parse {
                                    source: ParsingError::TimeSystem,
                                    details: "when parsing from format string",
                                },
                            ),
                        ),
                    ),
                }
            }
        } else if c == 'Z' {
            (seq![], Ok(fields))
        } else {
            let advancing = !last || !numeric_char(c);
            if advancing && (cur.sep_char is Some && cur.sep_char != Some(c)) && (
            cur.second_sep_char is None || (cur.second_sep_char is Some && cur.second_sep_char
                != Some(c))) {
                (
                    seq![],
                    Err(
                        Some(
                            HifitimeError::Parse {
                                source: ParsingError::UnexpectedCharacter {
                                    found: c,
                                    option1: cur.sep_char,
                                    option2: cur.second_sep_char,
                                },
                                details: "when parsing from format string",
                            },
                        ),
                    ),
                )
            } else if advancing && (cur_idx == num || cur_idx + 1 >= MAX_TOKENS || items[cur_idx
                + 1] is None) {
                (seq![], Ok(fields))
            } else {
                let ci2 = if advancing {
                    cur_idx + 1
                } else {
                    cur_idx
                };
                let cur2 = if advancing {
                    items[cur_idx + 1]->Some_0
                } else {
                    cur
                };
                let end = if advancing {
                    idx
                } else {
                    idx + 1
                };
                if !(0 <= prev_idx <= end <= n && is_char_boundary(b, prev_idx)
                    && is_char_boundary(b, end)) {
                    (seq![], Err(Some(format_text_error())))
                } else {
                    let read = if cur.token == Token::DayOfYear {
                        seq![(prev_idx, end)]
                    } else {
                        seq![]
                    };
                    match format_value(cur.token, b.subrange(prev_idx, end), prev_idx, end, fields) {
                        Err(e) => (read, Err(e)),
                        Ok(f2) => if cur2.token == Token::OffsetHours {
                            if !(idx + 1 <= n && is_char_boundary(b, idx) && is_char_boundary(
                                b,
                                idx + 1,
                            )) {
                                (read, Err(Some(format_text_error())))
                            } else {
                                let rest = format_scan(
                                    items,
                                    num,
                                    p,
                                    b,
                                    k + 1,
                                    (f2.0, f2.1, if b[idx] == 45u8 {
                                        -1
                                    } else {
                                        f2.2
                                    }, f2.3, f2.4),
                                    if idx + 1 < n {
                                        idx + 2
                                    } else {
                                        n
                                    },
                                    ci2,
                                    cur2,
                                    cur,
                                );
                                (read + rest.0, rest.1)
                            }
                        } else {
                            let rest = format_scan(items, num, p, b, k + 1, f2, idx + 1, ci2, cur2, cur);
                            (read + rest.0, rest.1)
                        },
                    }
                }
            }
        }
    }
}


/// The fields read by the format scanner at first.
pub open spec fn initial_fields() -> ScanFields {
    (seq![0i32, 0, 0, 0, 0, 0, 0, 0, 0, 0, 0, 0, 0, 0, 0, 0], TimeScale::UTC, 1, None, None)
}

/// The outcome of reading a text with a format: no token at all is an error, otherwise the
/// scan of the trimmed text from its first character with the first item.
pub open spec fn format_read(f: Format, s: Seq<char>) -> (Seq<(int, int)>, Result<ScanFields, Option<HifitimeError>>) {
    if f.spec_num_items() == 0 {
        (
            seq![],
            Err(
                Some(
                    HifitimeError::Parse {
                        source: ParsingError::NothingToParse,
                        details: "format string contains no tokens",
                    },
                ),
            ),
        )
    } else {
        let t = trimmed(s);
        format_scan(
            f.spec_slots(),
            f.spec_num_items(),
            char_pairs(t),
            encode_utf8(t),
            0,
            initial_fields(),
            0,
            0,
            f.spec_slots()[0]->Some_0,
            f.spec_slots()[0]->Some_0,
        )
    }
}

/// The integers of a date fit the integer types of the Gregorian date.
pub open spec fn fields_fit(dec: Seq<i32>) -> bool {
    &&& dec.len() == 16
    &&& 0 <= dec[1] <= 255
    &&& 0 <= dec[2] <= 255
    &&& 0 <= dec[3] <= 255
    &&& 0 <= dec[4] <= 255
    &&& 0 <= dec[5] <= 255
    &&& 0 <= dec[6]
}

/// Whether the fields computed are the fields of the scan.
pub open spec fn fields_are(f: FormatFields, g: ScanFields) -> bool {
    &&& f.decomposed@ == g.0
    &&& f.time_scale == g.1
    &&& f.offset_sign as int == g.2
    &&& f.day_of_year == g.3
    &&& f.weekday == g.4
}

/// Format allows formatting an Epoch with some custom arrangement of the Epoch items.
/// This provides almost all of the options from the 1989 C standard.
///
/// Construct a format with `Format::from_str` (no allocation needed) where the string
/// contains a succession of tokens (each starting with `%`) and up to two separators between
/// tokens. Any token may be followed by `?` to make it optional.
#[derive(Copy, Clone, Debug, PartialEq)]
pub struct Format {
    pub(crate) items: [Option<Item>; MAX_TOKENS],
    pub(crate) num_items: usize,
}

impl Format {
    /// The items of this format, in order.
    pub closed spec fn spec_items(self) -> Seq<Item> {
        Seq::new(self.num_items as nat, |i: int| self.items@[i]->Some_0)
    }

    /// The item slots of this format.
    pub closed spec fn spec_slots(self) -> Seq<Option<Item>> {
        self.items@
    }

    /// The number of items of this format.
    pub closed spec fn spec_num_items(self) -> int {
        self.num_items as int
    }

    /// A format holds its items first, then nothing, and at most `MAX_TOKENS` of them.
    pub closed spec fn wf(self) -> bool {
        &&& self.num_items <= MAX_TOKENS
        &&& forall|i: int| 0 <= i < self.num_items ==> self.items@[i] is Some
        &&& forall|i: int| self.num_items <= i < MAX_TOKENS ==> self.items@[i] is None
    }

    /// A well formed format holds at most `MAX_TOKENS` items, each in the slot of its
    /// position, and no item in the slots after them.
    pub proof fn law_format_wf(self)
        requires
            self.wf(),
        ensures
            self.spec_items().len() == self.spec_num_items(),
            0 <= self.spec_num_items() <= MAX_TOKENS,
            self.spec_slots().len() == MAX_TOKENS,
            forall|i: int|
                0 <= i < self.spec_num_items() ==> #[trigger] self.spec_slots()[i] == Some(
                    self.spec_items()[i],
                ),
            forall|i: int|
                self.spec_num_items() <= i < MAX_TOKENS ==> #[trigger] self.spec_slots()[i]
                    is None,
    {
    }

    /// A format without any item.
    pub fn empty() -> (r: Format)
        ensures
            r.wf(),
            r.spec_items() == Seq::<Item>::empty(),
    {
        let r = Format { items: [None; MAX_TOKENS], num_items: 0 };
        assert(r.spec_items() =~= Seq::<Item>::empty());
        r
    }

    /// A format of the given items.
    fn of_items(items: &Vec<Item>) -> (r: Format)
        requires
            items.len() <= MAX_TOKENS,
        ensures
            r.wf(),
            r.spec_items() == items@,
    {
        let mut arr: [Option<Item>; MAX_TOKENS] = [None; MAX_TOKENS];
        let mut i: usize = 0;
        while i < items.len()
            invariant
                i <= items.len() <= MAX_TOKENS,
                forall|j: int| 0 <= j < i ==> arr@[j] == Some(items@[j]),
                forall|j: int| i <= j < MAX_TOKENS ==> arr@[j] is None,
            decreases items.len() - i,
        {
            arr[i] = Some(items[i]);
            i = i + 1;
        }
        let r = Format { items: arr, num_items: items.len() };
        assert(r.spec_items() =~= items@);
        r
    }

    /// Whether formatting with this format needs the Gregorian date of the epoch.
    pub fn need_gregorian(&self) -> (r: bool)
        requires
            self.wf(),
        ensures
            r == exists|i: int|
                0 <= i < self.spec_items().len() && token_needs_gregorian(
                    #[trigger] self.spec_items()[i].token,
                ),
    {
        let mut i: usize = 0;
        while i < self.num_items
            invariant
                self.wf(),
                i <= self.num_items,
                forall|j: int|
                    0 <= j < i ==> !token_needs_gregorian(#[trigger] self.spec_items()[j].token),
            decreases self.num_items - i,
        {
            let item = match self.items[i] {
                Some(item) => item,
                None => {
                    return false;
                },
            };
            assert(self.spec_items()[i as int] == item);
            match item.token {
                Token::Year | Token::YearShort | Token::Month | Token::MonthName
                | Token::MonthNameShort | Token::Day | Token::Hour | Token::Minute | Token::Second
                | Token::Subsecond | Token::OffsetHours | Token::OffsetMinutes => {
                    return true;
                },
                Token::Timescale | Token::DayOfYearInteger | Token::DayOfYear | Token::Weekday
                | Token::WeekdayShort | Token::WeekdayDecimal => {
                    // These tokens don't need the gregorian, but other tokens in the list of
                    // tokens might.
                },
            }
            i = i + 1;
        }
        false
    }

    /// Reads a format from its text: the text is cut at each `%`, an empty piece is skipped
    /// and each other piece is a token character followed by up to two separators (a `?` as
    /// first separator makes the token optional).
    pub fn from_str(s: &str) -> (r: Result<Format, ParsingError>)
        ensures
            match r {
                Ok(f) => f.wf() && format_items(s@, 0, Seq::empty()) == Ok::<
                    Seq<Item>,
                    ParsingError,
                >(f.spec_items()),
                Err(e) => format_items(s@, 0, Seq::empty()) == Err::<Seq<Item>, ParsingError>(e),
            },
    {
        let chars = chars_of(s);
        let n = chars.len();
        let mut items: Vec<Item> = Vec::new();
        let mut p: usize = 0;
        loop
            invariant
                chars@ == s@,
                n == chars.len(),
                p <= n,
                items.len() <= MAX_TOKENS,
                format_items(s@, p as int, items@) == format_items(s@, 0, Seq::empty()),
            decreases n - p,
        {
            // Find the end of this piece.
            let mut e: usize = p;
            while e < n && chars[e] != '%'
                invariant
                    chars@ == s@,
                    n == chars.len(),
                    p <= e <= n,
                    seg_end(s@, e as int) == seg_end(s@, p as int),
                decreases n - e,
            {
                e = e + 1;
            }
            if e > p {
                if items.len() == MAX_TOKENS {
                    return Err(ParsingError::UnknownFormat);
                }
                let c = chars[p];
                match Token::from_char(c) {
                    None => {
                        return Err(ParsingError::UnknownToken { token: c });
                    },
                    Some(t) => {
                        let first: Option<char> = if e - p > 1 {
                            Some(chars[p + 1])
                        } else {
                            None
                        };
                        let second: Option<char> = if e - p > 2 {
                            Some(chars[p + 2])
                        } else {
                            None
                        };
                        items.push(Item::new(t, first, second));
                    },
                }
            }
            if e >= n {
                return Ok(Format::of_items(&items));
            }
            p = e + 1;
        }
    }
}


impl Format {
    /// Reads the fields of a date from a text with this format: the text is trimmed, then
    /// each token is read up to its separator (or, for a numeric token, up to a non numeric
    /// character, or to the end of the text) and the next item is taken; a time scale or a `Z`
    /// ends the text. Sub-seconds are scaled to nanoseconds.
    ///
    /// The result holds the byte ranges of the numbers with a fraction read for a `%J` token,
    /// in order (each must then read as a number: the first that does not is the error of the
    /// text), and the fields or the first other error. A piece of text that cannot be cut at
    /// character boundaries, or that gives more than nine digits of sub-seconds, is a value
    /// error, as is a short year past the largest year, and a weekday in decimal form is not
    /// read.
    #[verifier::rlimit(40)]
    pub fn parse_fields(&self, s_in: &str) -> (r: (Vec<(usize, usize)>, Result<FormatFields, HifitimeError>))
        requires
            self.wf(),
        ensures
            crate::parse::ranges_view(r.0@) == format_read(*self, s_in@).0,
            match format_read(*self, s_in@).1 {
                Err(None) => r.1 matches Err(HifitimeError::Parse { source, details }) && source
                    is Lexical && details == "could not parse numerical",
                Err(Some(e)) => r.1 == Err::<FormatFields, HifitimeError>(e),
                Ok(g) => r.1 matches Ok(f) && fields_are(f, g) && fields_fit(f.decomposed@),
            },
    {
        let mut fracs: Vec<(usize, usize)> = Vec::new();
        // All of the integers in a date: year, month, day, hour, minute, second, subsecond,
        // offset hours, offset minutes
        let mut decomposed: [i32; MAX_TOKENS] = [0; MAX_TOKENS];
        // The parsed time scale, defaults to UTC
        let mut ts = TimeScale::UTC;
        // The offset sign, defaults to positive.
        let mut offset_sign: i8 = 1;
        let mut day_of_year: Option<DayOfYearField> = None;
        let mut weekday: Option<Weekday> = None;
        // Previous index of interest in the string
        let mut prev_idx: usize = 0;
        let mut cur_item_idx: usize = 0;
        let mut cur_item = match self.items[cur_item_idx] {
            Some(item) => item,
            None => {
                return (
                    fracs,
                    Err(
                        HifitimeError::Parse {
                            source: ParsingError::NothingToParse,
                            details: "format string contains no tokens",
                        },
                    ),
                );
            },
        };
        let mut prev_item = cur_item;
        let s = trim(s_in);
        let pairs = char_indices_of(s);
        let b = s.as_bytes();
        let n = b.len();
        let ghost t = trimmed(s_in@);
        let ghost total = format_read(*self, s_in@);
        proof {
            assert(decomposed@ =~= initial_fields().0);
            vstd::utf8::encode_utf8_valid_utf8(t);
            assert(crate::parse::ranges_view(fracs@) + total.0 =~= total.0);
        }
        let mut k: usize = 0;
        while k < pairs.len()
            invariant_except_break
                self.wf(),
                self.num_items > 0,
                t == trimmed(s_in@),
                total == format_read(*self, s_in@),
                s@ == t,
                pairs@ == char_pairs(t),
                b@ == s.spec_bytes(),
                b@ == encode_utf8(t),
                valid_utf8(b@),
                n == b@.len(),
                k <= pairs.len(),
                cur_item_idx < MAX_TOKENS,
                fields_fit(decomposed@),
                offset_sign == 1 || offset_sign == -1,
                crate::parse::ranges_view(fracs@) + format_scan(
                    self.spec_slots(),
                    self.spec_num_items(),
                    pairs@,
                    b@,
                    k as int,
                    (decomposed@, ts, offset_sign as int, day_of_year, weekday),
                    prev_idx as int,
                    cur_item_idx as int,
                    cur_item,
                    prev_item,
                ).0 == total.0,
                format_scan(
                    self.spec_slots(),
                    self.spec_num_items(),
                    pairs@,
                    b@,
                    k as int,
                    (decomposed@, ts, offset_sign as int, day_of_year, weekday),
                    prev_idx as int,
                    cur_item_idx as int,
                    cur_item,
                    prev_item,
                ).1 == total.1,
            ensures
                fields_fit(decomposed@),
                crate::parse::ranges_view(fracs@) == total.0,
                total.1 == Ok::<ScanFields, Option<HifitimeError>>(
                    (decomposed@, ts, offset_sign as int, day_of_year, weekday),
                ),
            decreases pairs.len() - k,
        {
            let (idx, c) = pairs[k];
            proof {
                crate::text::lemma_prefix_bytes(t, k as int);
            }
            let numeric = is_numeric(c);
            let cur_token = cur_item.token;
            let last = n > 0 && idx == n - 1;
            if !(last || (cur_token.is_numeric() && !numeric) || (!cur_token.is_numeric()
                && cur_item.sep_char_is(c))) {
                k = k + 1;
                continue ;
            }
            // If we've found the second separator of the previous token, let's simply
            // increment the start index of the next substring.
            if idx == prev_idx && (prev_item.second_sep_char.is_none()
                || prev_item.second_sep_char_is(c)) {
                prev_idx = prev_idx + 1;
                k = k + 1;
                continue ;
            }
            if cur_token == Token::Timescale {
                // Then we match the timescale directly.
                if !last {
                    if idx > n || !s.is_char_boundary(idx) {
                        return (
                            fracs,
                            Err(
                                HifitimeError::Parse {
                                    source: ParsingError::ValueError,
                                    details: "could not parse numerical",
                                },
                            ),
                        );
                    }
                    let (_, rest) = s.split_at(idx);
                    proof {
                        vstd::utf8::encode_utf8_decode_utf8(rest@);
                    }
                    match TimeScale::from_text(rest) {
                        Ok(found) => ts = found,
                        Err(source) => {
                            return (
                                fracs,
                                Err(
                                    HifitimeError::Parse {
                                        source,
                                        details: "when parsing from format string",
                                    },
                                ),
                            );
                        },
                    }
                }
                break ;
            } else if c == 'Z' {
                // This is a single character to represent UTC
                break ;
            }
            let ghost cur0 = cur_item;
            let ptok = cur_token;
            let advancing = !last || !numeric;
            let end_idx: usize = if advancing {
                // Only advance the token if we aren't at the end of the string
                if cur_item.sep_char_is_not(c) && (cur_item.second_sep_char.is_none()
                    || cur_item.second_sep_char_is_not(c)) {
                    return (
                        fracs,
                        Err(
                            HifitimeError::Parse {
                                source: ParsingError::UnexpectedCharacter {
                                    found: c,
                                    option1: cur_item.sep_char,
                                    option2: cur_item.second_sep_char,
                                },
                                details: "when parsing from format string",
                            },
                        ),
                    );
                }
                // Advance the token, unless we're at the end of the tokens.
                if cur_item_idx == self.num_items || cur_item_idx + 1 >= MAX_TOKENS {
                    break ;
                }
                match self.items[cur_item_idx + 1] {
                    Some(item) => {
                        prev_item = cur_item;
                        cur_item = item;
                        cur_item_idx = cur_item_idx + 1;
                    },
                    None => {
                        break ;
                    },
                }
                idx
            } else {
                prev_item = cur_item;
                idx + 1
            };
            if prev_idx > end_idx || end_idx > n || !s.is_char_boundary(prev_idx)
                || !s.is_char_boundary(end_idx) {
                return (
                    fracs,
                    Err(
                        HifitimeError::Parse {
                            source: ParsingError::ValueError,
                            details: "could not parse numerical",
                        },
                    ),
                );
            }
            let ghost fracs0 = fracs@;
            if ptok == Token::DayOfYear {
                fracs.push((prev_idx, end_idx));
            }
            let read = read_token_value(
                s,
                b,
                ptok,
                prev_idx,
                end_idx,
                FormatFields { decomposed, time_scale: ts, offset_sign, day_of_year, weekday },
            );
            match read {
                Ok(f) => {
                    decomposed = f.decomposed;
                    ts = f.time_scale;
                    offset_sign = f.offset_sign;
                    day_of_year = f.day_of_year;
                    weekday = f.weekday;
                },
                Err(e) => {
                    return (fracs, Err(e));
                },
            }
            prev_idx = idx + 1;
            // If we are about to parse an hours offset, we need to set the sign now.
            if cur_item.token == Token::OffsetHours {
                if idx + 1 > n || !s.is_char_boundary(idx) || !s.is_char_boundary(idx + 1) {
                    return (
                        fracs,
                        Err(
                            HifitimeError::Parse {
                                source: ParsingError::ValueError,
                                details: "could not parse numerical",
                            },
                        ),
                    );
                }
                if b[idx] == 45u8 {
                    offset_sign = -1;
                }
                prev_idx = if idx + 1 < n {
                    idx + 2
                } else {
                    n
                };
            }
            k = k + 1;
        }
        (
            fracs,
            Ok(
                FormatFields {
                    decomposed,
                    time_scale: ts,
                    offset_sign,
                    day_of_year,
                    weekday,
                },
            ),
        )
    }
}


/// Reads the value of the token `ptok` from the bytes `a` to `e` of the text into the fields.
fn read_token_value(s: &str, b: &[u8], ptok: Token, a: usize, e: usize, fields: FormatFields) -> (r: Result<FormatFields, HifitimeError>)
    requires
        b@ == s.spec_bytes(),
        valid_utf8(b@),
        a <= e <= b@.len(),
        is_char_boundary(b@, a as int),
        is_char_boundary(b@, e as int),
        fields_fit(fields.decomposed@),
        fields.offset_sign == 1 || fields.offset_sign == -1,
    ensures
        match format_value(
            ptok,
            b@.subrange(a as int, e as int),
            a as int,
            e as int,
            (fields.decomposed@, fields.time_scale, fields.offset_sign as int, fields.day_of_year, fields.weekday),
        ) {
            Err(None) => r matches Err(HifitimeError::Parse { source, details }) && source
                is Lexical && details == "could not parse numerical",
            Err(Some(x)) => r == Err::<FormatFields, HifitimeError>(x),
            Ok(g) => r matches Ok(f) && fields_are(f, g) && fields_fit(f.decomposed@) && (
            f.offset_sign == 1 || f.offset_sign == -1),
        },
{
    let mut f = fields;
    let sub = &b[a..e];
    match ptok {
        Token::YearShort | Token::Weekday | Token::WeekdayShort | Token::MonthName
        | Token::MonthNameShort => {
            let (_, tail) = s.split_at(a);
            proof {
                crate::text::lemma_boundary_in_suffix(b@, a as int, e as int);
            }
            let (sub_str, _) = tail.split_at(e - a);
            proof {
                vstd::utf8::encode_utf8_decode_utf8(sub_str@);
                assert(sub_str.spec_bytes() == sub@);
            }
            if ptok == Token::YearShort {
                match parse_std_i32(sub_str) {
                    Some(v) => {
                        if v <= i32::MAX - 2000 {
                            f.decomposed[0] = v + 2000;
                        } else {
                            return Err(
                                HifitimeError::Parse {
                                    source: ParsingError::ValueError,
                                    details: "could not parse year as i32",
                                },
                            );
                        }
                    },
                    None => {
                        return Err(
                            HifitimeError::Parse {
                                source: ParsingError::ValueError,
                                details: "could not parse year as i32",
                            },
                        );
                    },
                }
            } else if ptok == Token::Weekday || ptok == Token::WeekdayShort {
                match Weekday::from_text(sub_str) {
                    Ok(day) => f.weekday = Some(day),
                    Err(source) => {
                        return Err(HifitimeError::Parse { source, details: "could not parse weekday" });
                    },
                }
            } else {
                match MonthName::from_text(sub_str) {
                    Ok(month) => {
                        f.decomposed[1] = month.number() as i32;
                    },
                    Err(_) => {
                        return Err(
                            HifitimeError::Parse {
                                source: ParsingError::ValueError,
                                details: "could not parse month name",
                            },
                        );
                    },
                }
            }
        },
        Token::DayOfYear => {
            // This number has a fraction: the caller reads it.
            f.day_of_year = Some(DayOfYearField::Fraction(a, e));
        },
        Token::WeekdayDecimal => {
            return Err(
                HifitimeError::Parse {
                    source: ParsingError::UnknownToken { token: 'w' },
                    details: "weekday in decimal form is not supported",
                },
            );
        },
        _ => {
            match parse_i32(sub) {
                Ok(val) => {
                    // Check that this valid is OK for the token we're reading it as.
                    match ptok.value_ok(val) {
                        Ok(()) => {},
                        Err(err) => {
                            return Err(err);
                        },
                    }
                    match ptok.gregorian_position() {
                        Some(pos) => {
                            // If these are the subseconds, we must convert them to nanoseconds
                            let stored: i32 = if ptok == Token::Subsecond && e - a != 9 {
                                if e - a > 9 {
                                    return Err(
                                        HifitimeError::Parse {
                                            source: ParsingError::ValueError,
                                            details: "could not parse numerical",
                                        },
                                    );
                                }
                                let scale = crate::epoch_str::pow10_i32(9 - (e - a));
                                match val.checked_mul(scale) {
                                    Some(v) => v,
                                    None => {
                                        return Err(
                                            HifitimeError::Parse {
                                                source: ParsingError::ValueError,
                                                details: "could not parse numerical",
                                            },
                                        );
                                    },
                                }
                            } else {
                                val
                            };
                            proof {
                                lemma_position_fits(ptok, val as int, (e - a) as int, stored as int);
                            }
                            f.decomposed[pos] = stored;
                        },
                        None => {
                            f.day_of_year = Some(DayOfYearField::Integer(val));
                        },
                    }
                },
                Err(err) => {
                    return Err(
                        HifitimeError::Parse {
                            source: ParsingError::Lexical { err },
                            details: "could not parse numerical",
                        },
                    );
                },
            }
        },
    }
    Ok(f)
}


/// The value of the time of day read (hours, minutes, seconds and nanoseconds), each term and
/// each sum saturated.
pub open spec fn elapsed_value(h: int, m: int, sec: int, ns: int) -> int {
    add_value(
        Duration::of_ns(
            add_value(
                Duration::of_ns(
                    add_value(
                        Duration::of_ns(clamp_ns(h * 3_600_000_000_000)),
                        Duration::of_ns(clamp_ns(m * 60_000_000_000)),
                    ),
                ),
                Duration::of_ns(clamp_ns(sec * 1_000_000_000)),
            ),
        ),
        Duration::of_ns(clamp_ns(ns)),
    )
}

impl FormatFields {
    /// The epoch of the Gregorian date and time read, in the time scale read, before the
    /// offset is undone.
    pub fn gregorian_epoch(&self) -> (r: Result<Epoch, HifitimeError>)
        requires
            fields_fit(self.decomposed@),
        ensures
            r == Epoch::gregorian_outcome(
                self.decomposed@[0],
                self.decomposed@[1] as u8,
                self.decomposed@[2] as u8,
                self.decomposed@[3] as u8,
                self.decomposed@[4] as u8,
                self.decomposed@[5] as u8,
                self.decomposed@[6] as u32,
                self.time_scale,
            ),
    {
        let r = Epoch::maybe_from_gregorian(
            self.decomposed[0],
            self.decomposed[1] as u8,
            self.decomposed[2] as u8,
            self.decomposed[3] as u8,
            self.decomposed[4] as u8,
            self.decomposed[5] as u8,
            self.decomposed[6] as u32,
            self.time_scale,
        );
        proof {
            if let Ok(e) = r {
                lemma_of_ns_wf(e.duration);
            }
        }
        r
    }

    /// The duration that undoes the time zone offset read: the offset's hours and minutes,
    /// negated unless the offset was negative.
    pub fn offset_duration(&self) -> (d: Duration)
        ensures
            d.wf(),
            d@ == tz_value(self.decomposed@[7] as int, self.decomposed@[8] as int, self.offset_sign as int),
    {
        let tz_h = (self.decomposed[7] as i64) * Unit::Hour;
        let tz_m = (self.decomposed[8] as i64) * Unit::Minute;
        proof {
            lemma_of_ns_wf(tz_h);
            lemma_of_ns_wf(tz_m);
        }
        let tz = tz_h + tz_m;
        proof {
            tz.lemma_range();
        }
        if self.offset_sign > 0 {
            // We oppose the sign in the string to undo the offset
            core::ops::Neg::neg(tz)
        } else {
            tz
        }
    }

    /// The epoch of a whole day of the year (the first of January being day 1) in the year and
    /// the time scale read, with the time of day read: midnight at the start of the year, plus
    /// the days after the first one, plus the time of day. A year whose first of January is
    /// not a Gregorian date that an epoch holds gives the error of that date.
    pub fn ordinal_epoch(&self, day_of_year: i32) -> (r: Result<Epoch, HifitimeError>)
        requires
            fields_fit(self.decomposed@),
        ensures
            match Epoch::gregorian_outcome(self.decomposed@[0], 1, 1, 0, 0, 0, 0, self.time_scale) {
                Ok(start) => r matches Ok(e) && e.wf() && e.time_scale == self.time_scale
                    && e.duration@ == add_value(
                    Duration::of_ns(
                        add_value(start.duration, Duration::of_ns(clamp_ns((day_of_year - 1) * 86_400_000_000_000))),
                    ),
                    Duration::of_ns(
                        elapsed_value(
                            self.decomposed@[3] as int,
                            self.decomposed@[4] as int,
                            self.decomposed@[5] as int,
                            self.decomposed@[6] as int,
                        ),
                    ),
                ),
                Err(err) => r == Err::<Epoch, HifitimeError>(err),
            },
    {
        let start = Epoch::maybe_from_gregorian(self.decomposed[0], 1, 1, 0, 0, 0, 0, self.time_scale)?;
        proof {
            lemma_of_ns_wf(start.duration);
        }
        let days = ((day_of_year as i64) - 1) * Unit::Day;
        proof {
            lemma_of_ns_wf(days);
        }
        let day_start = start + days;
        let elapsed = self.elapsed_in_day();
        proof {
            lemma_of_ns_wf(day_start.duration);
            lemma_of_ns_wf(elapsed);
        }
        Ok(day_start + elapsed)
    }

    /// The outcome of `ordinal_epoch` for a whole day of the year.
    pub open spec fn ordinal_outcome(self, day_of_year: i32) -> Result<Epoch, HifitimeError> {
        match Epoch::gregorian_outcome(self.decomposed@[0], 1, 1, 0, 0, 0, 0, self.time_scale) {
            Ok(start) => Ok(
                Epoch {
                    duration: Duration::of_ns(
                        add_value(
                            Duration::of_ns(
                                add_value(
                                    start.duration,
                                    Duration::of_ns(clamp_ns((day_of_year - 1) * 86_400_000_000_000)),
                                ),
                            ),
                            Duration::of_ns(
                                elapsed_value(
                                    self.decomposed@[3] as int,
                                    self.decomposed@[4] as int,
                                    self.decomposed@[5] as int,
                                    self.decomposed@[6] as int,
                                ),
                            ),
                        ),
                    ),
                    time_scale: self.time_scale,
                },
            ),
            Err(err) => Err(err),
        }
    }

    /// The epoch of the date read, before the offset is undone, when the date holds no
    /// fraction of a day of the year: the Gregorian date and time read, or the whole day of
    /// the year read with the time of day. `None` when the day of the year has a fraction,
    /// whose number is read apart.
    pub fn integer_epoch(&self) -> (r: Option<Result<Epoch, HifitimeError>>)
        requires
            fields_fit(self.decomposed@),
        ensures
            match self.day_of_year {
                None => r == Some(
                    Epoch::gregorian_outcome(
                        self.decomposed@[0],
                        self.decomposed@[1] as u8,
                        self.decomposed@[2] as u8,
                        self.decomposed@[3] as u8,
                        self.decomposed@[4] as u8,
                        self.decomposed@[5] as u8,
                        self.decomposed@[6] as u32,
                        self.time_scale,
                    ),
                ),
                Some(DayOfYearField::Integer(day)) => r == Some(self.ordinal_outcome(day)),
                Some(DayOfYearField::Fraction(_, _)) => r is None,
            },
    {
        match self.day_of_year {
            None => Some(self.gregorian_epoch()),
            Some(DayOfYearField::Integer(day)) => {
                let r = self.ordinal_epoch(day);
                proof {
                    if let Ok(e) = r {
                        e.duration.lemma_range();
                        Duration::lemma_of_ns(e.duration@);
                        Duration::lemma_unique(e.duration, Duration::of_ns(e.duration@));
                    }
                }
                Some(r)
            },
            Some(DayOfYearField::Fraction(_, _)) => None,
        }
    }

    /// The time of day read: hours, minutes, seconds and nanoseconds.
    pub fn elapsed_in_day(&self) -> (d: Duration)
        ensures
            d.wf(),
            d@ == elapsed_value(
                self.decomposed@[3] as int,
                self.decomposed@[4] as int,
                self.decomposed@[5] as int,
                self.decomposed@[6] as int,
            ),
    {
        let h = (self.decomposed[3] as i64) * Unit::Hour;
        let m = (self.decomposed[4] as i64) * Unit::Minute;
        let sec = (self.decomposed[5] as i64) * Unit::Second;
        let ns = (self.decomposed[6] as i64) * Unit::Nanosecond;
        proof {
            lemma_of_ns_wf(h);
            lemma_of_ns_wf(m);
            lemma_of_ns_wf(sec);
            lemma_of_ns_wf(ns);
        }
        let hm = h + m;
        proof {
            lemma_of_ns_wf(hm);
        }
        let hms = hm + sec;
        proof {
            lemma_of_ns_wf(hms);
        }
        hms + ns
    }
}

/// A sub-second field of a format (`%f`) holds nanoseconds: its `k` digits (one to nine), of
/// value `v`, are a fraction of a second, stored at the sub-second position as `v` times ten
/// to the power `9 - k` (so `.811` is 811000000 nanoseconds and `.000000811` is 811), which is
/// less than a second.
pub proof fn law_subsecond_nanoseconds(sub: Seq<u8>, a: int, fields: ScanFields)
    requires
        1 <= sub.len() <= 9,
        ascii_digits(sub),
        fields.0.len() == 16,
    ensures
        0 <= ascii_digits_value(sub) * pow10((9 - sub.len()) as nat) < 1_000_000_000,
        format_value(Token::Subsecond, sub, a, a + sub.len(), fields) == Ok::<
            ScanFields,
            Option<HifitimeError>,
        >(
            (
                fields.0.update(
                    6,
                    (ascii_digits_value(sub) * pow10((9 - sub.len()) as nat)) as i32,
                ),
                fields.1,
                fields.2,
                fields.3,
                fields.4,
            ),
        ),
{
    let k = sub.len() as nat;
    let v = ascii_digits_value(sub);
    crate::numeric::lemma_lexical_i32_digits(sub);
    lemma_digits_value_below(sub);
    crate::epoch_str::lemma_pow10_add(k, (9 - k) as nat);
    crate::epoch_str::lemma_pow10_positive((9 - k) as nat);
    assert(pow10(9) == 1_000_000_000) by {
        reveal_with_fuel(pow10, 10);
    }
    assert(0 <= v * pow10((9 - k) as nat) < pow10(k) * pow10((9 - k) as nat)) by (nonlinear_arith)
        requires
            0 <= v < pow10(k),
            pow10((9 - k) as nat) >= 1,
    ;
    assert(v <= v * pow10((9 - k) as nat)) by (nonlinear_arith)
        requires
            0 <= v,
            pow10((9 - k) as nat) >= 1,
    ;
    if k == 9 {
        assert(pow10(0) == 1);
    }
}

/// The value of ASCII digits is below ten to the power of their number.
proof fn lemma_digits_value_below(b: Seq<u8>)
    requires
        ascii_digits(b),
    ensures
        0 <= ascii_digits_value(b) < pow10(b.len()),
    decreases b.len(),
{
    if b.len() > 0 {
        let c = b.drop_last();
        assert(ascii_digits(c)) by {
            assert forall|i: int| 0 <= i < c.len() implies 48 <= #[trigger] c[i] <= 57 by {
                assert(c[i] == b[i]);
            }
        }
        lemma_digits_value_below(c);
        assert(48 <= b[b.len() - 1] <= 57);
        let w = ascii_digits_value(c);
        let d = b.last() - 48;
        assert(w * 10 + d < pow10(c.len()) * 10) by (nonlinear_arith)
            requires
                0 <= w < pow10(c.len()),
                0 <= d <= 9,
        ;
        assert(pow10(b.len()) == 10 * pow10(c.len()));
    }
}

/// A value read for a token fits the integer type of its position in the date.
pub proof fn lemma_position_fits(t: Token, val: int, len: int, v: int)
    requires
        token_value_ok(t, val),
        token_position(t) is Some,
        stored_value(t, val, len) == Some(v),
    ensures
        token_position(t)->Some_0 < 9,
        1 <= token_position(t)->Some_0 <= 5 ==> 0 <= v <= 255,
        token_position(t)->Some_0 == 6 ==> v >= 0,
{
    if t == Token::Subsecond {
        lemma_stored_fits(t, val, len, v);
    }
}

/// The ISO8601 format: `%Y-%m-%dT%H:%M:%S.%f %T`.
pub fn iso8601() -> (r: Format)
    ensures
        r.wf(),
        r.spec_items() == seq![
            item_of(Token::Year, Some('-'), None),
            item_of(Token::Month, Some('-'), None),
            item_of(Token::Day, Some('T'), None),
            item_of(Token::Hour, Some(':'), None),
            item_of(Token::Minute, Some(':'), None),
            item_of(Token::Second, Some('.'), None),
            item_of(Token::Subsecond, Some(' '), None),
            item_of(Token::Timescale, None, None),
        ],
{
    let mut v: Vec<Item> = Vec::new();
    v.push(Item::new(Token::Year, Some('-'), None));
    v.push(Item::new(Token::Month, Some('-'), None));
    v.push(Item::new(Token::Day, Some('T'), None));
    v.push(Item::new(Token::Hour, Some(':'), None));
    v.push(Item::new(Token::Minute, Some(':'), None));
    v.push(Item::new(Token::Second, Some('.'), None));
    v.push(Item::new(Token::Subsecond, Some(' '), None));
    v.push(Item::new(Token::Timescale, None, None));
    Format::of_items(&v)
}


/// The ISO8601 format unless the subseconds are zero, then they are not printed; the time scale is only printed if it is not UTC: `%Y-%m-%dT%H:%M:%S.%f? %T?`.
pub fn iso8601_flex() -> (r: Format)
    ensures
        r.wf(),
        r.spec_items() == seq![
            item_of(Token::Year, Some('-'), None),
            item_of(Token::Month, Some('-'), None),
            item_of(Token::Day, Some('T'), None),
            item_of(Token::Hour, Some(':'), None),
            item_of(Token::Minute, Some(':'), None),
            item_of(Token::Second, Some('.'), None),
            item_of(Token::Subsecond, Some('?'), Some(' ')),
            item_of(Token::Timescale, Some('?'), None),
        ],
{
    let mut v: Vec<Item> = Vec::new();
    v.push(Item::new(Token::Year, Some('-'), None));
    v.push(Item::new(Token::Month, Some('-'), None));
    v.push(Item::new(Token::Day, Some('T'), None));
    v.push(Item::new(Token::Hour, Some(':'), None));
    v.push(Item::new(Token::Minute, Some(':'), None));
    v.push(Item::new(Token::Second, Some('.'), None));
    v.push(Item::new(Token::Subsecond, Some('?'), Some(' ')));
    v.push(Item::new(Token::Timescale, Some('?'), None));
    Format::of_items(&v)
}

/// The RFC3339 format: `%Y-%m-%dT%H:%M:%S.%f%z`.
pub fn rfc3339() -> (r: Format)
    ensures
        r.wf(),
        r.spec_items() == seq![
            item_of(Token::Year, Some('-'), None),
            item_of(Token::Month, Some('-'), None),
            item_of(Token::Day, Some('T'), None),
            item_of(Token::Hour, Some(':'), None),
            item_of(Token::Minute, Some(':'), None),
            item_of(Token::Second, Some('.'), None),
            item_of(Token::Subsecond, None, None),
            item_of(Token::OffsetHours, None, None),
        ],
{
    let mut v: Vec<Item> = Vec::new();
    v.push(Item::new(Token::Year, Some('-'), None));
    v.push(Item::new(Token::Month, Some('-'), None));
    v.push(Item::new(Token::Day, Some('T'), None));
    v.push(Item::new(Token::Hour, Some(':'), None));
    v.push(Item::new(Token::Minute, Some(':'), None));
    v.push(Item::new(Token::Second, Some('.'), None));
    v.push(Item::new(Token::Subsecond, None, None));
    v.push(Item::new(Token::OffsetHours, None, None));
    Format::of_items(&v)
}

/// The RFC3339 format unless the subseconds are zero, then they are not printed: `%Y-%m-%dT%H:%M:%S.%f?%z`.
pub fn rfc3339_flex() -> (r: Format)
    ensures
        r.wf(),
        r.spec_items() == seq![
            item_of(Token::Year, Some('-'), None),
            item_of(Token::Month, Some('-'), None),
            item_of(Token::Day, Some('T'), None),
            item_of(Token::Hour, Some(':'), None),
            item_of(Token::Minute, Some(':'), None),
            item_of(Token::Second, Some('.'), None),
            item_of(Token::Subsecond, Some('?'), None),
            item_of(Token::OffsetHours, None, None),
        ],
{
    let mut v: Vec<Item> = Vec::new();
    v.push(Item::new(Token::Year, Some('-'), None));
    v.push(Item::new(Token::Month, Some('-'), None));
    v.push(Item::new(Token::Day, Some('T'), None));
    v.push(Item::new(Token::Hour, Some(':'), None));
    v.push(Item::new(Token::Minute, Some(':'), None));
    v.push(Item::new(Token::Second, Some('.'), None));
    v.push(Item::new(Token::Subsecond, Some('?'), None));
    v.push(Item::new(Token::OffsetHours, None, None));
    Format::of_items(&v)
}

/// The ISO8601 date format: `%Y-%m-%d`.
pub fn iso8601_date() -> (r: Format)
    ensures
        r.wf(),
        r.spec_items() == seq![
            item_of(Token::Year, Some('-'), None),
            item_of(Token::Month, Some('-'), None),
            item_of(Token::Day, None, None),
        ],
{
    let mut v: Vec<Item> = Vec::new();
    v.push(Item::new(Token::Year, Some('-'), None));
    v.push(Item::new(Token::Month, Some('-'), None));
    v.push(Item::new(Token::Day, None, None));
    Format::of_items(&v)
}

/// The ISO8601 ordinal date format: `%Y-%j`.
pub fn iso8601_ordinal() -> (r: Format)
    ensures
        r.wf(),
        r.spec_items() == seq![
            item_of(Token::Year, Some('-'), None),
            item_of(Token::DayOfYearInteger, None, None),
        ],
{
    let mut v: Vec<Item> = Vec::new();
    v.push(Item::new(Token::Year, Some('-'), None));
    v.push(Item::new(Token::DayOfYearInteger, None, None));
    Format::of_items(&v)
}

/// The RFC 2822 date time format: `%a, %d %b %Y %H:%M:%S`.
pub fn rfc2822() -> (r: Format)
    ensures
        r.wf(),
        r.spec_items() == seq![
            item_of(Token::WeekdayShort, Some(','), Some(' ')),
            item_of(Token::Day, Some(' '), None),
            item_of(Token::MonthNameShort, Some(' '), None),
            item_of(Token::Year, Some(' '), None),
            item_of(Token::Hour, Some(':'), None),
            item_of(Token::Minute, Some(':'), None),
            item_of(Token::Second, None, None),
        ],
{
    let mut v: Vec<Item> = Vec::new();
    v.push(Item::new(Token::WeekdayShort, Some(','), Some(' ')));
    v.push(Item::new(Token::Day, Some(' '), None));
    v.push(Item::new(Token::MonthNameShort, Some(' '), None));
    v.push(Item::new(Token::Year, Some(' '), None));
    v.push(Item::new(Token::Hour, Some(':'), None));
    v.push(Item::new(Token::Minute, Some(':'), None));
    v.push(Item::new(Token::Second, None, None));
    Format::of_items(&v)
}

/// The RFC 2822 date time format with the weekday and month in long form: `%A, %d %B %Y %H:%M:%S`.
pub fn rfc2822_long() -> (r: Format)
    ensures
        r.wf(),
        r.spec_items() == seq![
            item_of(Token::Weekday, Some(','), Some(' ')),
            item_of(Token::Day, Some(' '), None),
            item_of(Token::MonthName, Some(' '), None),
            item_of(Token::Year, Some(' '), None),
            item_of(Token::Hour, Some(':'), None),
            item_of(Token::Minute, Some(':'), None),
            item_of(Token::Second, None, None),
        ],
{
    let mut v: Vec<Item> = Vec::new();
    v.push(Item::new(Token::Weekday, Some(','), Some(' ')));
    v.push(Item::new(Token::Day, Some(' '), None));
    v.push(Item::new(Token::MonthName, Some(' '), None));
    v.push(Item::new(Token::Year, Some(' '), None));
    v.push(Item::new(Token::Hour, Some(':'), None));
    v.push(Item::new(Token::Minute, Some(':'), None));
    v.push(Item::new(Token::Second, None, None));
    Format::of_items(&v)
}

} // verus!
