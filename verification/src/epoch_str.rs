use vstd::prelude::*;
use vstd::string::StringSliceAdditionalSpecFns;
use vstd::utf8::{decode_utf8, encode_utf8, is_char_boundary};

use crate::duration::{add_value, clamp_ns, lemma_of_ns_wf, Duration};
use crate::efmt::{
    token_advance, token_error, token_position, token_value_ok, value_error, Token,
};
use crate::epoch::Epoch;
use crate::errors::{HifitimeError, ParsingError};
use crate::numeric::{is_numeric, lexical_i32, numeric_char, parse_i32};
use crate::text::{chars_of, trim, trimmed};
use crate::timescale::{time_scale_named, TimeScale};
use crate::unit::Unit;

verus! {

/// The error of a text that is not an ISO8601 date.
pub open spec fn iso_error() -> HifitimeError {
    HifitimeError::Parse { source: ParsingError::ISO8601, details: "parsing as Gregorian" }
}

/// Whether the token is one of those read in an ISO8601 date.
pub open spec fn iso_token(t: Token) -> bool {
    match t {
        Token::Year | Token::Month | Token::Day | Token::Hour | Token::Minute | Token::Second
        | Token::Subsecond | Token::OffsetHours | Token::OffsetMinutes | Token::Timescale => true,
        _ => false,
    }
}

/// Ten to the power `k`.
pub open spec fn pow10(k: nat) -> int
    decreases k,
{
    if k == 0 {
        1
    } else {
        10 * pow10((k - 1) as nat)
    }
}

/// The value stored for a token read from `len` characters: sub-seconds of fewer than nine
/// digits are scaled to nanoseconds; `None` when more than nine digits of sub-seconds were
/// given or when the scaled value does not fit.
pub open spec fn stored_value(t: Token, val: int, len: int) -> Option<int> {
    if t == Token::Subsecond && len != 9 {
        if len > 9 || len < 0 {
            None
        } else {
            let v = val * pow10((9 - len) as nat);
            if i32::MIN <= v <= i32::MAX {
                Some(v)
            } else {
                None
            }
        }
    } else {
        Some(val)
    }
}

/// The scan of an ISO8601 date text `t` (of bytes `b`) from the character of index `idx` on:
/// the numbers of the date are read between the separators, in the order of the tokens, and
/// a time scale may end the text. The outcome is the numbers (year, month, day, hour, minute,
/// second, nanoseconds, offset hours and minutes), the time scale and the sign of the offset,
/// or the error (`None` when a number does not read as an integer).
pub open spec fn iso_scan(
    t: Seq<char>,
    b: Seq<u8>,
    idx: int,
    dec: Seq<i32>,
    ts: TimeScale,
    sign: int,
    prev: int,
    tok: Token,
) -> Result<(Seq<i32>, TimeScale, int), Option<HifitimeError>>
    decreases t.len() - idx,
{
    if idx < 0 || idx >= t.len() {
        Ok((dec, ts, sign))
    } else {
        let c = t[idx];
        let n = b.len() as int;
        let last = idx == n - 1;
        if numeric_char(c) && !last {
            iso_scan(t, b, idx + 1, dec, ts, sign, prev, tok)
        } else if tok == Token::Timescale {
            if last {
                Ok((dec, ts, sign))
            } else if !(idx <= n && is_char_boundary(b, idx)) {
                Err(Some(iso_error()))
            } else {
                match time_scale_named(trimmed(decode_utf8(b.subrange(idx, n)))) {
                    Some(t2) => Ok((dec, t2, sign)),
                    None => Err(
                        Some(
                            HifitimeError::Parse {
                                source: ParsingError::TimeSystem,
                                details: "parsing as Gregorian date with time scale",
                            },
                        ),
                    ),
                }
            }
        } else {
            let advancing = !last || !numeric_char(c);
            let adv = token_advance(tok, c);
            if advancing && adv is None {
                Err(Some(token_error()))
            } else {
                let tok2 = if advancing {
                    adv->Some_0
                } else {
                    tok
                };
                let end = if advancing {
                    idx
                } else {
                    idx + 1
                };
                if prev > end {
                    Err(Some(iso_error()))
                } else if !(end <= n && is_char_boundary(b, prev) && is_char_boundary(b, end)) {
                    Err(Some(iso_error()))
                } else {
                    match lexical_i32(b.subrange(prev, end)) {
                        None => Err(None),
                        Some(val) => if !token_value_ok(tok, val as int) {
                            Err(Some(value_error()))
                        } else {
                            match stored_value(tok, val as int, end - prev) {
                                None => Err(Some(iso_error())),
                                Some(v) => {
                                    let dec2 = dec.update(
                                        token_position(tok)->Some_0 as int,
                                        v as i32,
                                    );
                                    if tok2 == Token::OffsetHours {
                                        if !(idx + 1 <= n && is_char_boundary(b, idx)
                                            && is_char_boundary(b, idx + 1)) {
                                            Err(Some(iso_error()))
                                        } else {
                                            iso_scan(
                                                t,
                                                b,
                                                idx + 1,
                                                dec2,
                                                ts,
                                                if b[idx] == 45u8 {
                                                    -1
                                                } else {
                                                    sign
                                                },
                                                if idx + 1 < n {
                                                    idx + 2
                                                } else {
                                                    n
                                                },
                                                tok2,
                                            )
                                        }
                                    } else {
                                        iso_scan(t, b, idx + 1, dec2, ts, sign, idx + 1, tok2)
                                    }
                                },
                            }
                        },
                    }
                }
            }
        }
    }
}


/// Ten to any power is positive.
pub proof fn lemma_pow10_positive(k: nat)
    ensures
        pow10(k) >= 1,
    decreases k,
{
    if k > 0 {
        lemma_pow10_positive((k - 1) as nat);
    }
}

/// Ten to the power of a sum is the product of the powers.
pub proof fn lemma_pow10_add(j: nat, k: nat)
    ensures
        pow10(j) * pow10(k) == pow10(j + k),
    decreases j,
{
    if j > 0 {
        lemma_pow10_add((j - 1) as nat, k);
        assert(pow10(j) * pow10(k) == 10 * (pow10((j - 1) as nat) * pow10(k))) by (nonlinear_arith)
            requires
                pow10(j) == 10 * pow10((j - 1) as nat),
        ;
        assert(pow10(j + k) == 10 * pow10((j + k - 1) as nat));
    }
}

/// A value acceptable for a token of the date fits the integer type of its position.
pub proof fn lemma_stored_fits(t: Token, val: int, len: int, v: int)
    requires
        iso_token(t),
        t != Token::Timescale,
        token_value_ok(t, val),
        stored_value(t, val, len) == Some(v),
    ensures
        token_position(t) is Some,
        token_position(t)->Some_0 < 9,
        1 <= token_position(t)->Some_0 <= 5 ==> 0 <= v <= 255,
        token_position(t)->Some_0 == 6 ==> v >= 0,
{
    if t == Token::Subsecond && len != 9 && 0 <= len <= 9 {
        lemma_pow10_positive((9 - len) as nat);
        assert(val * pow10((9 - len) as nat) >= 0) by (nonlinear_arith)
            requires
                val >= 0,
                pow10((9 - len) as nat) >= 1,
        ;
    }
}

/// The scan of a whole ISO8601 date text.
pub open spec fn iso_date_scan(t: Seq<char>) -> Result<
    (Seq<i32>, TimeScale, int),
    Option<HifitimeError>,
> {
    iso_scan(
        t,
        encode_utf8(t),
        0,
        seq![0i32, 0, 0, 0, 0, 0, 0, 0, 0],
        TimeScale::UTC,
        1,
        0,
        Token::Year,
    )
}

/// The value of the duration that undoes a time zone offset of the given hours and minutes:
/// the offset is negated unless its sign was negative.
pub open spec fn tz_value(h: int, m: int, sign: int) -> int {
    let v = add_value(
        Duration::of_ns(clamp_ns(h * 3_600_000_000_000)),
        Duration::of_ns(clamp_ns(m * 60_000_000_000)),
    );
    if sign > 0 {
        -v
    } else {
        v
    }
}

/// The duration that undoes a time zone offset of `h` hours and `m` minutes (zero to
/// twenty-three hours, zero to fifty-nine minutes): an offset with a positive sign is ahead
/// of UTC, so it is taken away; one with a negative sign is behind, so it is added.
pub proof fn law_offset_undone(h: int, m: int, sign: int)
    requires
        0 <= h <= 23,
        0 <= m <= 59,
    ensures
        sign > 0 ==> tz_value(h, m, sign) == -(h * 3_600_000_000_000 + m * 60_000_000_000),
        sign <= 0 ==> tz_value(h, m, sign) == h * 3_600_000_000_000 + m * 60_000_000_000,
{
    let hv = h * 3_600_000_000_000;
    let mv = m * 60_000_000_000;
    Duration::lemma_of_ns(hv);
    crate::duration::lemma_shift(Duration::of_ns(hv), mv);
}

/// The epoch of the numbers, time scale and offset sign read from an ISO8601 date text.
pub open spec fn iso_epoch(dec: Seq<i32>, ts: TimeScale, sign: int) -> Result<Epoch, HifitimeError> {
    match Epoch::gregorian_outcome(
        dec[0],
        dec[1] as u8,
        dec[2] as u8,
        dec[3] as u8,
        dec[4] as u8,
        dec[5] as u8,
        dec[6] as u32,
        ts,
    ) {
        Err(e) => Err(e),
        Ok(ep) => Ok(
            Epoch {
                duration: Duration::of_ns(
                    add_value(ep.duration, Duration::of_ns(tz_value(dec[7] as int, dec[8] as int, sign))),
                ),
                time_scale: ts,
            },
        ),
    }
}

/// The numbers read so far fit the integer types of the Gregorian date.
pub open spec fn iso_numbers_fit(dec: Seq<i32>) -> bool {
    &&& dec.len() == 9
    &&& 0 <= dec[1] <= 255
    &&& 0 <= dec[2] <= 255
    &&& 0 <= dec[3] <= 255
    &&& 0 <= dec[4] <= 255
    &&& 0 <= dec[5] <= 255
    &&& 0 <= dec[6]
}

/// Ten to the power `k`, for `k` up to 9.
pub(crate) fn pow10_i32(k: usize) -> (r: i32)
    requires
        k <= 9,
    ensures
        r == pow10(k as nat),
{
    proof {
        reveal_with_fuel(pow10, 10);
    }
    match k {
        0 => 1,
        1 => 10,
        2 => 100,
        3 => 1_000,
        4 => 10_000,
        5 => 100_000,
        6 => 1_000_000,
        7 => 10_000_000,
        8 => 100_000_000,
        _ => 1_000_000_000,
    }
}

impl Epoch {
    /// Initialize an Epoch from a Gregorian date in the ISO8601 format (e.g.
    /// `2017-01-14T00:31:55.811 UTC`, `1994-11-05T08:15:30-05:00`): year, month, day, hour,
    /// minute and second, then optionally sub-seconds, a time zone offset and a time scale.
    ///
    /// The text is read by character; the numbers are read from the bytes at the same
    /// indexes, and a text whose numbers would not start and end on character boundaries, or
    /// that gives more than nine digits of sub-seconds, is not an ISO8601 date.
    pub fn from_gregorian_str(s_in: &str) -> (r: Result<Self, HifitimeError>)
        ensures
            match iso_date_scan(trimmed(s_in@)) {
                Err(None) => r matches Err(HifitimeError::Parse { source, details }) && source
                    is Lexical && details == "parsing as Gregorian",
                Err(Some(e)) => r == Err::<Self, HifitimeError>(e),
                Ok((dec, ts, sign)) => r == iso_epoch(dec, ts, sign),
            },
    {
        // All of the integers in a date: year, month, day, hour, minute, second, subsecond,
        // offset hours, offset minutes
        let mut decomposed: [i32; 9] = [0; 9];
        // The parsed time scale, defaults to UTC
        let mut ts = TimeScale::UTC;
        // The offset sign, defaults to positive.
        let mut offset_sign: i8 = 1;
        // Previous index of interest in the string
        let mut prev_idx: usize = 0;
        let mut cur_token = Token::Year;
        let s = trim(s_in);
        let chars = chars_of(s);
        let b = s.as_bytes();
        let n = b.len();
        let ghost t = trimmed(s_in@);
        proof {
            assert(decomposed@ =~= seq![0i32, 0, 0, 0, 0, 0, 0, 0, 0]);
            vstd::utf8::encode_utf8_decode_utf8(t);
            vstd::utf8::encode_utf8_valid_utf8(t);
            lemma_chars_fit_bytes(t);
        }
        let mut idx: usize = 0;
        while idx < chars.len()
            invariant_except_break
                t == trimmed(s_in@),
                chars@ == t,
                s@ == t,
                b@ == s.spec_bytes(),
                b@ == encode_utf8(t),
                vstd::utf8::valid_utf8(b@),
                n == b@.len(),
                chars.len() <= n,
                idx <= chars.len(),
                iso_token(cur_token),
                iso_numbers_fit(decomposed@),
                offset_sign == 1 || offset_sign == -1,
                iso_scan(
                    t,
                    b@,
                    idx as int,
                    decomposed@,
                    ts,
                    offset_sign as int,
                    prev_idx as int,
                    cur_token,
                ) == iso_date_scan(t),
            ensures
                iso_numbers_fit(decomposed@),
                offset_sign == 1 || offset_sign == -1,
                iso_date_scan(t) == Ok::<(Seq<i32>, TimeScale, int), Option<HifitimeError>>(
                    (decomposed@, ts, offset_sign as int),
                ),
            decreases chars.len() - idx,
        {
            let c = chars[idx];
            let numeric = is_numeric(c);
            let ghost dec0 = decomposed@;
            let ghost tok0 = cur_token;
            let ghost prev0 = prev_idx as int;
            let ghost sign0 = offset_sign as int;
            let ghost ts0 = ts;
            if !numeric || idx == n - 1 {
                if cur_token == Token::Timescale {
                    if idx != n - 1 {
                        // We have some remaining characters, so let's parse those in the only
                        // formats we know.
                        if !s.is_char_boundary(idx) {
                            return Err(
                                HifitimeError::Parse {
                                    source: ParsingError::ISO8601,
                                    details: "parsing as Gregorian",
                                },
                            );
                        }
                        let (_, rest) = s.split_at(idx);
                        proof {
                            vstd::utf8::encode_utf8_decode_utf8(rest@);
                        }
                        match TimeScale::from_text(rest) {
                            Ok(found) => ts = found,
                            Err(source) => {
                                return Err(
                                    HifitimeError::Parse {
                                        source,
                                        details: "parsing as Gregorian date with time scale",
                                    },
                                );
                            },
                        }
                    }
                    break ;
                }
                let prev_token = cur_token;
                let pos: usize = match cur_token.gregorian_position() {
                    Some(p) => p,
                    None => 0,
                };
                let end_idx: usize = if idx != n - 1 || !numeric {
                    // Only advance the token if we aren't at the end of the string
                    match cur_token.advance_with(c) {
                        Ok(()) => {},
                        Err(e) => {
                            return Err(e);
                        },
                    }
                    idx
                } else {
                    idx + 1
                };
                if prev_idx > end_idx {
                    return Err(
                        HifitimeError::Parse {
                            source: ParsingError::ISO8601,
                            details: "parsing as Gregorian",
                        },
                    );
                }
                if end_idx > n || !s.is_char_boundary(prev_idx) || !s.is_char_boundary(end_idx) {
                    return Err(
                        HifitimeError::Parse {
                            source: ParsingError::ISO8601,
                            details: "parsing as Gregorian",
                        },
                    );
                }
                match parse_i32(&b[prev_idx..end_idx]) {
                    Ok(val) => {
                        // Check that this valid is OK for the token we're reading it as.
                        match prev_token.value_ok(val) {
                            Ok(()) => {},
                            Err(e) => {
                                return Err(e);
                            },
                        }
                        // If these are the subseconds, we must convert them to nanoseconds
                        let stored: i32 = if prev_token == Token::Subsecond && end_idx - prev_idx
                            != 9 {
                            if end_idx - prev_idx > 9 {
                                return Err(
                                    HifitimeError::Parse {
                                        source: ParsingError::ISO8601,
                                        details: "parsing as Gregorian",
                                    },
                                );
                            }
                            let scale = pow10_i32(9 - (end_idx - prev_idx));
                            match val.checked_mul(scale) {
                                Some(v) => v,
                                None => {
                                    return Err(
                                        HifitimeError::Parse {
                                            source: ParsingError::ISO8601,
                                            details: "parsing as Gregorian",
                                        },
                                    );
                                },
                            }
                        } else {
                            val
                        };
                        decomposed[pos] = stored;
                        proof {
                            assert(decomposed@ == dec0.update(pos as int, stored));
                            lemma_stored_fits(
                                prev_token,
                                val as int,
                                end_idx - prev_idx,
                                stored as int,
                            );
                        }
                    },
                    Err(err) => {
                        return Err(
                            HifitimeError::Parse {
                                source: ParsingError::Lexical { err },
                                details: "parsing as Gregorian",
                            },
                        );
                    },
                }
                prev_idx = idx + 1;
                // If we are about to parse an hours offset, we need to set the sign now.
                if cur_token == Token::OffsetHours {
                    if idx + 1 > n || !s.is_char_boundary(idx) || !s.is_char_boundary(idx + 1) {
                        return Err(
                            HifitimeError::Parse {
                                source: ParsingError::ISO8601,
                                details: "parsing as Gregorian",
                            },
                        );
                    }
                    if b[idx] == 45u8 {
                        offset_sign = -1;
                    }
                    prev_idx = if idx + 1 < n {
                        idx + 2
                    } else {
                        n
                    };
                }
            }
            proof {
                if !numeric || idx == n - 1 {
                    assert(iso_scan(t, b@, idx as int, dec0, ts0, sign0, prev0, tok0) == iso_scan(
                        t,
                        b@,
                        idx + 1,
                        decomposed@,
                        ts,
                        offset_sign as int,
                        prev_idx as int,
                        cur_token,
                    ));
                }
            }
            idx = idx + 1;
        }
        let tz_h = (decomposed[7] as i64) * Unit::Hour;
        let tz_m = (decomposed[8] as i64) * Unit::Minute;
        proof {
            lemma_of_ns_wf(tz_h);
            lemma_of_ns_wf(tz_m);
        }
        let tz_hm = tz_h + tz_m;
        proof {
            tz_hm.lemma_range();
            assert(tz_hm@ == add_value(
                Duration::of_ns(clamp_ns(decomposed@[7] as int * 3_600_000_000_000)),
                Duration::of_ns(clamp_ns(decomposed@[8] as int * 60_000_000_000)),
            ));
        }
        let tz = if offset_sign > 0 {
            // We oppose the sign in the string to undo the offset
            core::ops::Neg::neg(tz_hm)
        } else {
            tz_hm
        };
        assert(tz@ == tz_value(decomposed@[7] as int, decomposed@[8] as int, offset_sign as int));
        match Epoch::maybe_from_gregorian(
            decomposed[0],
            decomposed[1] as u8,
            decomposed[2] as u8,
            decomposed[3] as u8,
            decomposed[4] as u8,
            decomposed[5] as u8,
            decomposed[6] as u32,
            ts,
        ) {
            Ok(epoch) => {
                let e = epoch + tz;
                proof {
                    lemma_of_ns_wf(e.duration);
                    lemma_of_ns_wf(epoch.duration);
                    lemma_of_ns_wf(tz);
                }
                Ok(e)
            },
            Err(e) => Err(e),
        }
    }
}

/// A text has at most as many characters as bytes.
pub proof fn lemma_chars_fit_bytes(t: Seq<char>)
    ensures
        t.len() <= encode_utf8(t).len(),
    decreases t.len(),
{
    if t.len() > 0 {
        lemma_chars_fit_bytes(t.drop_first());
        vstd::utf8::encode_utf8_first_scalar(t);
    }
}

} // verus!
