use vstd::prelude::*;
use vstd::string::StringSliceAdditionalSpecFns;

use crate::errors::{HifitimeError, ParsingError};
use crate::numeric::{lexical_u64, lexical_u8, parse_u64, parse_u8};
use crate::ut1::{content_end, find_line_end, lemma_line_end, line_end};

verus! {

/// The number of bytes of the white space character that starts at `i` before `end` (zero
/// when none does): the UTF-8 encodings of the characters of the Unicode property
/// `White_Space`, by which `str::split_whitespace` splits a text.
pub open spec fn white_len(b: Seq<u8>, i: int, end: int) -> int {
    if i < 0 || i >= end {
        0
    } else if (9 <= b[i] <= 13) || b[i] == 32 {
        1
    } else if i + 1 < end && b[i] == 0xC2 && (b[i + 1] == 0x85 || b[i + 1] == 0xA0) {
        2
    } else if i + 2 < end && b[i] == 0xE1 && b[i + 1] == 0x9A && b[i + 2] == 0x80 {
        3
    } else if i + 2 < end && b[i] == 0xE2 && b[i + 1] == 0x80 && ((0x80 <= b[i + 2] <= 0x8A)
        || b[i + 2] == 0xA8 || b[i + 2] == 0xA9 || b[i + 2] == 0xAF) {
        3
    } else if i + 2 < end && b[i] == 0xE2 && b[i + 1] == 0x81 && b[i + 2] == 0x9F {
        3
    } else if i + 2 < end && b[i] == 0xE3 && b[i + 1] == 0x80 && b[i + 2] == 0x80 {
        3
    } else {
        0
    }
}

/// The first index from `i` on, before `end`, where no white space starts.
pub open spec fn skip_white(b: Seq<u8>, i: int, end: int) -> int
    decreases end - i,
{
    if i < end && white_len(b, i, end) > 0 {
        skip_white(b, i + white_len(b, i, end), end)
    } else {
        i
    }
}

/// The end of the word that starts at `i`: the first index from `i` on where white space
/// starts, or `end`.
pub open spec fn word_end(b: Seq<u8>, i: int, end: int) -> int
    decreases end - i,
{
    if i >= end || white_len(b, i, end) > 0 {
        i
    } else {
        word_end(b, i + 1, end)
    }
}

/// The error of a data line with fewer than two columns.
pub open spec fn columns_error() -> HifitimeError {
    HifitimeError::Parse {
        source: ParsingError::UnknownFormat,
        details: "leap seconds file should have two columns exactly",
    }
}

/// The error of a first column that does not read as an integer.
pub open spec fn first_column_error() -> HifitimeError {
    HifitimeError::Parse { source: ParsingError::ValueError, details: "first column value is not numeric" }
}

/// The error of a second column that does not read as an integer.
pub open spec fn second_column_error() -> HifitimeError {
    HifitimeError::Parse {
        source: ParsingError::ValueError,
        details: "second column value is not numeric",
    }
}

/// The row of a data line from `i` to `end`: its first two white space separated words, read
/// as the TAI timestamp in seconds (`u64`) and the number of leap seconds (`u8`).
pub open spec fn leap_row(b: Seq<u8>, i: int, end: int) -> Result<(u64, u8), HifitimeError> {
    let s0 = skip_white(b, i, end);
    let e0 = word_end(b, s0, end);
    let s1 = skip_white(b, e0, end);
    let e1 = word_end(b, s1, end);
    if s0 >= end || s1 >= end {
        Err(columns_error())
    } else {
        match lexical_u64(b.subrange(s0, e0)) {
            None => Err(first_column_error()),
            Some(t) => match lexical_u8(b.subrange(s1, e1)) {
                None => Err(second_column_error()),
                Some(d) => Ok((t, d)),
            },
        }
    }
}

/// The rows of a leap seconds file from the line starting at `i` on: empty lines and lines
/// that start with `#` are skipped, and each other line gives its row, or the first error.
pub open spec fn leap_from(b: Seq<u8>, i: int) -> Result<Seq<(u64, u8)>, HifitimeError>
    decreases b.len() - i,
{
    if i >= b.len() || i < 0 {
        Ok(seq![])
    } else {
        proof {
            lemma_line_end(b, i);
        }
        let e = line_end(b, i);
        let next = if e < b.len() {
            e + 1
        } else {
            b.len() as int
        };
        let ce = content_end(b, i);
        if ce == i || b[i] == 35 {
            leap_from(b, next)
        } else {
            match leap_row(b, i, ce) {
                Err(x) => Err(x),
                Ok(row) => match leap_from(b, next) {
                    Ok(rest) => Ok(seq![row] + rest),
                    Err(x) => Err(x),
                },
            }
        }
    }
}

/// The rows of a whole leap seconds file in the IERS format.
pub open spec fn leap_file_scan(b: Seq<u8>) -> Result<Seq<(u64, u8)>, HifitimeError> {
    leap_from(b, 0)
}

/// The number of bytes of the white space character at `i`, before `end`.
fn white_len_at(b: &[u8], i: usize, end: usize) -> (r: usize)
    requires
        end <= b@.len(),
    ensures
        r == white_len(b@, i as int, end as int),
        r <= 3,
{
    if i >= end {
        return 0;
    }
    let c = b[i];
    if (9 <= c && c <= 13) || c == 32 {
        1
    } else if end - i > 1 && c == 0xC2 && (b[i + 1] == 0x85 || b[i + 1] == 0xA0) {
        2
    } else if end - i > 2 && c == 0xE1 && b[i + 1] == 0x9A && b[i + 2] == 0x80 {
        3
    } else if end - i > 2 && c == 0xE2 && b[i + 1] == 0x80 && ((0x80 <= b[i + 2] && b[i + 2]
        <= 0x8A) || b[i + 2] == 0xA8 || b[i + 2] == 0xA9 || b[i + 2] == 0xAF) {
        3
    } else if end - i > 2 && c == 0xE2 && b[i + 1] == 0x81 && b[i + 2] == 0x9F {
        3
    } else if end - i > 2 && c == 0xE3 && b[i + 1] == 0x80 && b[i + 2] == 0x80 {
        3
    } else {
        0
    }
}

/// The first index from `i` on where no white space starts.
fn skip_white_at(b: &[u8], i: usize, end: usize) -> (r: usize)
    requires
        i <= end <= b@.len(),
    ensures
        r == skip_white(b@, i as int, end as int),
        i <= r <= end,
{
    let mut j: usize = i;
    loop
        invariant
            i <= j <= end <= b@.len(),
            skip_white(b@, j as int, end as int) == skip_white(b@, i as int, end as int),
        decreases end - j,
    {
        let w = white_len_at(b, j, end);
        if w == 0 {
            return j;
        }
        j = j + w;
    }
}

/// The end of the word that starts at `i`.
fn word_end_at(b: &[u8], i: usize, end: usize) -> (r: usize)
    requires
        i <= end <= b@.len(),
    ensures
        r == word_end(b@, i as int, end as int),
        i <= r <= end,
{
    let mut j: usize = i;
    while j < end && white_len_at(b, j, end) == 0
        invariant
            i <= j <= end <= b@.len(),
            word_end(b@, j as int, end as int) == word_end(b@, i as int, end as int),
        decreases end - j,
    {
        j = j + 1;
    }
    j
}

/// The row of the data line from `i` to `end`.
fn row_of(b: &[u8], i: usize, end: usize) -> (r: Result<(u64, u8), HifitimeError>)
    requires
        i <= end <= b@.len(),
    ensures
        r == leap_row(b@, i as int, end as int),
{
    let s0 = skip_white_at(b, i, end);
    let e0 = word_end_at(b, s0, end);
    let s1 = skip_white_at(b, e0, end);
    let e1 = word_end_at(b, s1, end);
    if s0 >= end || s1 >= end {
        return Err(
            HifitimeError::Parse {
                source: ParsingError::UnknownFormat,
                details: "leap seconds file should have two columns exactly",
            },
        );
    }
    let timestamp_tai_s: u64 = match parse_u64(&b[s0..e0]) {
        Ok(v) => v,
        Err(_) => {
            return Err(
                HifitimeError::Parse {
                    source: ParsingError::ValueError,
                    details: "first column value is not numeric",
                },
            );
        },
    };
    let delta_at: u8 = match parse_u8(&b[s1..e1]) {
        Ok(v) => v,
        Err(_) => {
            return Err(
                HifitimeError::Parse {
                    source: ParsingError::ValueError,
                    details: "second column value is not numeric",
                },
            );
        },
    };
    Ok((timestamp_tai_s, delta_at))
}

/// Reads the rows of a leap seconds file in the IERS format: the lines (`str::lines`) that are
/// empty or start with `#` are skipped, and each other line is split on white space
/// (`str::split_whitespace`); its first two columns are the TAI timestamp in seconds since
/// 1900 (`lexical_core::parse::<u64>`) and the number of leap seconds
/// (`lexical_core::parse::<u8>`). A line with fewer than two columns is an `UnknownFormat`
/// error, and a column that does not read as an integer is a `ValueError`.
pub fn leap_second_rows(contents: &str) -> (r: Result<Vec<(u64, u8)>, HifitimeError>)
    ensures
        match leap_file_scan(contents.spec_bytes()) {
            Ok(rows) => r matches Ok(v) && v@ == rows,
            Err(e) => r == Err::<Vec<(u64, u8)>, HifitimeError>(e),
        },
{
    let b = contents.as_bytes();
    let n = b.len();
    let mut i: usize = 0;
    let mut rows: Vec<(u64, u8)> = Vec::new();
    proof {
        match leap_from(b@, 0) {
            Ok(r) => {
                assert(rows@ + r =~= r);
            },
            Err(x) => {},
        }
    }
    while i < n
        invariant
            n == b@.len(),
            b@ == contents.spec_bytes(),
            i <= n,
            match leap_from(b@, i as int) {
                Ok(rest) => leap_file_scan(b@) == Ok::<Seq<(u64, u8)>, HifitimeError>(rows@ + rest),
                Err(x) => leap_file_scan(b@) == Err::<Seq<(u64, u8)>, HifitimeError>(x),
            },
        decreases n - i,
    {
        let e = find_line_end(b, i);
        let ce: usize = if e < n && e > i && b[e - 1] == 13 {
            e - 1
        } else {
            e
        };
        let next: usize = if e < n {
            e + 1
        } else {
            n
        };
        let ghost old_rows = rows@;
        proof {
            lemma_line_end(b@, i as int);
        }
        if ce > i && b[i] != 35 {
            match row_of(b, i, ce) {
                Err(x) => {
                    return Err(x);
                },
                Ok(row) => {
                    rows.push(row);
                    proof {
                        assert(rows@ =~= old_rows + seq![row]);
                        match leap_from(b@, next as int) {
                            Ok(rest) => {
                                assert(old_rows + (seq![row] + rest) =~= (old_rows + seq![row])
                                    + rest);
                            },
                            Err(x) => {},
                        }
                    }
                },
            }
        }
        i = next;
    }
    proof {
        assert(rows@ + seq![] =~= rows@);
    }
    Ok(rows)
}

} // verus!
