use vstd::prelude::*;
use vstd::string::StringSliceAdditionalSpecFns;
use vstd::utf8::{decode_utf8, encode_utf8, is_char_boundary};

use crate::epoch::Epoch;
use crate::errors::{HifitimeError, ParsingError};
use crate::parse::parse_error;
use crate::text::{trim, trimmed};
use crate::timescale::{name_length, time_scale_named, TimeScale};

verus! {

/// The numeric formats an epoch can be read from: Julian days (`JD`), modified Julian days
/// (`MJD`) and seconds past the reference of a time scale (`SEC`).
#[derive(Clone, Copy, Debug, PartialEq, Eq, Structural)]
pub enum NumericFormat {
    JulianDays,
    ModifiedJulianDays,
    Seconds,
}

/// How an epoch text is made: a Gregorian date, or a number in a numeric format and a time
/// scale, the number lying (with white space around it) between the bytes `start` and `end`
/// of the trimmed text.
#[derive(Clone, Copy, Debug, PartialEq, Eq, Structural)]
pub enum EpochText {
    Gregorian,
    Numeric { format: NumericFormat, time_scale: TimeScale, start: usize, end: usize },
}

/// Whether the bytes start with the characters of an ASCII text.
pub open spec fn starts_with_ascii(b: Seq<u8>, p: Seq<char>) -> bool {
    b.len() >= p.len() && forall|i: int| 0 <= i < p.len() ==> b[i] as int == #[trigger] p[i] as int
}

/// The identifiers of the numeric formats, byte by byte.
proof fn lemma_identifiers(b: Seq<u8>)
    ensures
        starts_with_ascii(b, "JD"@) <==> (b.len() >= 2 && b[0] == 74 && b[1] == 68),
        starts_with_ascii(b, "MJD"@) <==> (b.len() >= 3 && b[0] == 77 && b[1] == 74 && b[2]
            == 68),
        starts_with_ascii(b, "SEC"@) <==> (b.len() >= 3 && b[0] == 83 && b[1] == 69 && b[2]
            == 67),
{
    reveal_strlit("JD");
    reveal_strlit("MJD");
    reveal_strlit("SEC");
    let (jd, mjd, sec) = ("JD"@, "MJD"@, "SEC"@);
    assert(jd[0] as int == 74 && jd[1] as int == 68);
    assert(mjd[0] as int == 77 && mjd[1] as int == 74 && mjd[2] as int == 68);
    assert(sec[0] as int == 83 && sec[1] as int == 69 && sec[2] as int == 67);
}

/// The numeric format that a text starts with, and the length of its identifier.
pub open spec fn numeric_prefix(b: Seq<u8>) -> Option<(NumericFormat, int)> {
    if starts_with_ascii(b, "JD"@) {
        Some((NumericFormat::JulianDays, 2))
    } else if starts_with_ascii(b, "MJD"@) {
        Some((NumericFormat::ModifiedJulianDays, 3))
    } else if starts_with_ascii(b, "SEC"@) {
        Some((NumericFormat::Seconds, 3))
    } else {
        None
    }
}

/// How a trimmed epoch text is read: a text of fewer than seven bytes is refused; one that
/// starts with `JD`, `MJD` or `SEC` is a number followed by a time scale, named by its last
/// three bytes, whose name is then cut off; any other is a Gregorian date.
pub open spec fn epoch_text(t: Seq<char>) -> Result<EpochText, HifitimeError> {
    let b = encode_utf8(t);
    let n = b.len() as int;
    if n < 7 {
        Err(parse_error(ParsingError::UnknownFormat, "less than 7 characters"))
    } else {
        match numeric_prefix(b) {
            None => Ok(EpochText::Gregorian),
            Some((format, start)) => {
                if !is_char_boundary(b, n - 3) {
                    Err(parse_error(ParsingError::TimeSystem, "parsing from string"))
                } else {
                    match time_scale_named(trimmed(decode_utf8(b.subrange(n - 3, n)))) {
                        None => Err(parse_error(ParsingError::TimeSystem, "parsing from string")),
                        Some(ts) => {
                            let end = n - name_length(ts);
                            if !is_char_boundary(b, end) {
                                Err(parse_error(ParsingError::ValueError, "parsing as JD, MJD, or SEC"))
                            } else {
                                Ok(
                                    EpochText::Numeric {
                                        format,
                                        time_scale: ts,
                                        start: start as usize,
                                        end: end as usize,
                                    },
                                )
                            }
                        },
                    }
                }
            },
        }
    }
}

/// Whether epochs are read in a numeric format in a time scale: Julian days in ET, TAI, TDB
/// and UTC, modified Julian days in TAI, UTC, GPST, BDT and GST, seconds in any.
pub open spec fn numeric_support(format: NumericFormat, ts: TimeScale) -> Result<(), HifitimeError> {
    match format {
        NumericFormat::JulianDays => if ts == TimeScale::ET || ts == TimeScale::TAI || ts
            == TimeScale::TDB || ts == TimeScale::UTC {
            Ok(())
        } else {
            Err(parse_error(ParsingError::UnsupportedTimeSystem, "for Julian Date"))
        },
        NumericFormat::ModifiedJulianDays => if ts == TimeScale::TAI || ts == TimeScale::UTC || ts
            == TimeScale::GPST || ts == TimeScale::BDT || ts == TimeScale::GST {
            Ok(())
        } else {
            Err(parse_error(ParsingError::UnsupportedTimeSystem, "for Modified Julian Date"))
        },
        NumericFormat::Seconds => Ok(()),
    }
}

impl NumericFormat {
    /// Whether epochs can be read in this format in the given time scale, or the error of
    /// a time scale that the format does not support.
    pub fn check_time_scale(&self, ts: TimeScale) -> (r: Result<(), HifitimeError>)
        ensures
            r == numeric_support(*self, ts),
    {
        match self {
            NumericFormat::JulianDays => match ts {
                TimeScale::ET | TimeScale::TAI | TimeScale::TDB | TimeScale::UTC => Ok(()),
                _ => Err(
                    HifitimeError::Parse {
                        source: ParsingError::UnsupportedTimeSystem,
                        details: "for Julian Date",
                    },
                ),
            },
            NumericFormat::ModifiedJulianDays => match ts {
                TimeScale::TAI | TimeScale::UTC | TimeScale::GPST | TimeScale::BDT
                | TimeScale::GST => Ok(()),
                _ => Err(
                    HifitimeError::Parse {
                        source: ParsingError::UnsupportedTimeSystem,
                        details: "for Modified Julian Date",
                    },
                ),
            },
            NumericFormat::Seconds => Ok(()),
        }
    }
}

impl Epoch {
    /// Reads how an epoch text is made (see `epoch_text`), after trimming it. The number of a
    /// numeric format, which may have a fraction, is left to the caller.
    ///
    /// Where a byte that the format identifier or the time scale is read from lies inside a
    /// character, the text is not of that kind: no identifier, or no time scale.
    pub fn read_epoch_text(s_in: &str) -> (r: Result<EpochText, HifitimeError>)
        ensures
            r == epoch_text(trimmed(s_in@)),
    {
        let s = trim(s_in);
        let b = s.as_bytes();
        let n = b.len();
        let ghost t = trimmed(s_in@);
        proof {
            vstd::utf8::encode_utf8_valid_utf8(t);
        }
        if n < 7 {
            return Err(
                HifitimeError::Parse {
                    source: ParsingError::UnknownFormat,
                    details: "less than 7 characters",
                },
            );
        }
        proof {
            lemma_identifiers(b@);
        }
        let (format, start): (NumericFormat, usize) = if b[0] == 74u8 && b[1] == 68u8 {
            (NumericFormat::JulianDays, 2)
        } else if b[0] == 77u8 && b[1] == 74u8 && b[2] == 68u8 {
            (NumericFormat::ModifiedJulianDays, 3)
        } else if b[0] == 83u8 && b[1] == 69u8 && b[2] == 67u8 {
            (NumericFormat::Seconds, 3)
        } else {
            return Ok(EpochText::Gregorian);
        };
        if !s.is_char_boundary(n - 3) {
            return Err(
                HifitimeError::Parse { source: ParsingError::TimeSystem, details: "parsing from string" },
            );
        }
        let (_, tail) = s.split_at(n - 3);
        proof {
            vstd::utf8::encode_utf8_decode_utf8(tail@);
        }
        let ts = match TimeScale::from_text(tail) {
            Ok(ts) => ts,
            Err(source) => {
                return Err(HifitimeError::Parse { source, details: "parsing from string" });
            },
        };
        let end: usize = n - ts.formatted_len();
        if !s.is_char_boundary(end) {
            return Err(
                HifitimeError::Parse {
                    source: ParsingError::ValueError,
                    details: "parsing as JD, MJD, or SEC",
                },
            );
        }
        Ok(EpochText::Numeric { format, time_scale: ts, start, end })
    }
}

} // verus!
