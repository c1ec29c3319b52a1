use vstd::prelude::*;
use vstd::utf8::{decode_utf8, encode_utf8, is_ascii_chars, is_char_boundary, valid_utf8};

use crate::display::{decimal, digit_char};
use crate::efmt::{
    format_read, format_scan, format_value, initial_fields, item_of, law_subsecond_nanoseconds,
    token_advance, token_is_numeric, token_position, token_value_ok, Format, Item, ScanFields,
    Token, MAX_TOKENS,
};
use crate::duration::{add_value, lemma_shift, max_ns, Duration};
use crate::epoch::{gregorian_parts, Epoch};
use crate::epoch_display::{
    date_time_text, gregorian_text, lemma_decimal_len_le, padded_int, padded_nat, pow10, sep_padded,
    time_scale_name, zeros,
};
use crate::errors::HifitimeError;
use crate::gregorian_laws::law_gregorian_parts_rebuild;
use crate::epoch_str::{iso_date_scan, iso_epoch, iso_scan, stored_value};
use crate::numeric::{ascii_digits, ascii_digits_value, lexical_i32, numeric_char};
use crate::text::{char_pairs, digits_value, trimmed};
use crate::timescale::{gregorian_offset_seconds, time_scale_named, TimeScale};

verus! {

/// The encoding of an ASCII text is its characters byte for byte: valid, with a character
/// boundary at every index, and each of its ends decodes to the same end of the text.
proof fn lemma_ascii_text(t: Seq<char>)
    requires
        is_ascii_chars(t),
    ensures
        encode_utf8(t).len() == t.len(),
        valid_utf8(encode_utf8(t)),
        forall|i: int| 0 <= i < t.len() ==> #[trigger] encode_utf8(t)[i] == t[i] as u8,
        forall|i: int| 0 <= i <= t.len() ==> is_char_boundary(encode_utf8(t), i),
        forall|i: int|
            0 <= i <= t.len() ==> decode_utf8(#[trigger] encode_utf8(t).subrange(i, t.len() as int))
                == t.subrange(i, t.len() as int),
{
    let b = encode_utf8(t);
    vstd::utf8::is_ascii_chars_encode_utf8(t);
    vstd::utf8::encode_utf8_valid_utf8(t);
    vstd::utf8::is_char_boundary_start_end_of_seq(b);
    assert forall|i: int| 0 <= i <= t.len() implies is_char_boundary(b, i) by {
        if i < t.len() {
            vstd::utf8::is_char_boundary_iff_not_is_continuation_byte(b, i);
            assert(t[i] as u32 <= 0x7f);
        }
    }
    assert forall|i: int| 0 <= i <= t.len() implies decode_utf8(
        #[trigger] b.subrange(i, t.len() as int),
    ) == t.subrange(i, t.len() as int) by {
        let u = t.subrange(i, t.len() as int);
        assert(is_ascii_chars(u));
        vstd::utf8::is_ascii_chars_encode_utf8(u);
        assert(b.subrange(i, t.len() as int) =~= encode_utf8(u));
        vstd::utf8::encode_utf8_decode_utf8(u);
    }
}

/// The character of a digit is `0` plus the digit.
proof fn lemma_digit_char(d: int)
    requires
        0 <= d <= 9,
    ensures
        digit_char(d) as int == '0' as int + d,
        '0' <= digit_char(d) <= '9',
{
}

/// The decimal writing of a number is made of digits and reads back as the number.
proof fn lemma_decimal_reads(v: nat)
    ensures
        decimal(v).len() >= 1,
        forall|i: int| 0 <= i < decimal(v).len() ==> '0' <= #[trigger] decimal(v)[i] <= '9',
        digits_value(decimal(v)) == v,
    decreases v,
{
    if v >= 10 {
        lemma_decimal_reads(v / 10);
        let d = decimal(v);
        assert(d.drop_last() =~= decimal(v / 10));
        assert(d.last() == digit_char((v % 10) as int));
        lemma_digit_char((v % 10) as int);
        vstd::arithmetic::div_mod::lemma_fundamental_div_mod(v as int, 10);
        assert(digits_value(d) == digits_value(d.drop_last()) * 10 + (d.last() as int - '0' as int));
        assert forall|i: int| 0 <= i < d.len() implies '0' <= #[trigger] d[i] <= '9' by {
            if i < d.len() - 1 {
                assert(d[i] == decimal(v / 10)[i]);
            }
        }
    } else {
        lemma_digit_char(v as int);
        let d = decimal(v);
        assert(d.drop_last() =~= Seq::<char>::empty());
        assert(digits_value(d) == digits_value(d.drop_last()) * 10 + (d.last() as int - '0' as int));
    }
}

/// Leading zeros do not change the value of digits.
proof fn lemma_zeros_read(k: int, x: Seq<char>)
    ensures
        digits_value(zeros(k) + x) == digits_value(x),
        forall|i: int| 0 <= i < zeros(k).len() ==> #[trigger] zeros(k)[i] == '0',
    decreases x.len(), k,
{
    if x.len() > 0 {
        lemma_zeros_read(k, x.drop_last());
        assert((zeros(k) + x).drop_last() =~= zeros(k) + x.drop_last());
    } else if k > 0 {
        lemma_zeros_read(k - 1, x);
        assert(zeros(k) + x =~= zeros(k));
        assert((zeros(k) + x).drop_last() =~= zeros(k - 1) + x);
    } else {
        assert(zeros(k) + x =~= Seq::<char>::empty());
    }
}

/// The bytes of decimal digits read as the digits do.
proof fn lemma_bytes_read(c: Seq<char>, b: Seq<u8>)
    requires
        b.len() == c.len(),
        forall|i: int| 0 <= i < c.len() ==> '0' <= #[trigger] c[i] <= '9',
        forall|i: int| 0 <= i < c.len() ==> #[trigger] b[i] == c[i] as u8,
    ensures
        ascii_digits(b),
        ascii_digits_value(b) == digits_value(c),
    decreases c.len(),
{
    assert forall|i: int| 0 <= i < b.len() implies 48 <= #[trigger] b[i] <= 57 by {
        assert('0' <= c[i] <= '9');
        assert(b[i] == c[i] as u8);
    }
    if c.len() > 0 {
        lemma_bytes_read(c.drop_last(), b.drop_last());
        assert(b.last() == c.last() as u8);
    }
}

/// A number padded with zeros to a width it fits is that many digits, which read back as it.
proof fn lemma_padded_reads(v: nat, w: nat)
    requires
        1 <= w,
        v < pow10(w),
    ensures
        padded_nat(v, w as int).len() == w,
        forall|i: int| 0 <= i < w ==> '0' <= #[trigger] padded_nat(v, w as int)[i] <= '9',
        digits_value(padded_nat(v, w as int)) == v,
{
    lemma_decimal_len_le(v, w);
    lemma_decimal_reads(v);
    let k = w - decimal(v).len();
    lemma_zeros_read(k, decimal(v));
    let p = padded_nat(v, w as int);
    assert forall|i: int| 0 <= i < w implies '0' <= #[trigger] p[i] <= '9' by {
        if i < k {
            assert(p[i] == zeros(k)[i]);
        } else {
            assert(p[i] == decimal(v)[i - k]);
        }
    }
}

/// From a digit of a number on, the scan goes on from the character after the number.
proof fn lemma_scan_skip(
    t: Seq<char>,
    b: Seq<u8>,
    idx: int,
    k: int,
    dec: Seq<i32>,
    ts: TimeScale,
    sign: int,
    prev: int,
    tok: Token,
)
    requires
        b.len() == t.len(),
        0 <= idx <= k < t.len(),
        forall|i: int| idx <= i < k ==> '0' <= #[trigger] t[i] <= '9',
    ensures
        iso_scan(t, b, idx, dec, ts, sign, prev, tok) == iso_scan(t, b, k, dec, ts, sign, prev, tok),
    decreases k - idx,
{
    reveal(numeric_char);
    if idx < k {
        assert('0' <= t[idx] <= '9');
        assert(numeric_char(t[idx]));
        lemma_scan_skip(t, b, idx + 1, k, dec, ts, sign, prev, tok);
    }
}

/// The scan of a number of one to nine digits that ends with a character that moves to the
/// next token (other than the offset hours) stores the number and goes on after that character.
proof fn lemma_scan_field(
    t: Seq<char>,
    b: Seq<u8>,
    start: int,
    len: int,
    dec: Seq<i32>,
    ts: TimeScale,
    sign: int,
    tok: Token,
    tok2: Token,
    w: int,
)
    requires
        b.len() == t.len(),
        forall|i: int| 0 <= i < t.len() ==> #[trigger] b[i] == t[i] as u8,
        forall|i: int| 0 <= i <= t.len() ==> is_char_boundary(b, i),
        1 <= len <= 9,
        0 <= start,
        start + len < t.len() - 1,
        forall|i: int| start <= i < start + len ==> '0' <= #[trigger] t[i] <= '9',
        (t[start + len] as u32) < 128,
        !('0' <= t[start + len] <= '9'),
        tok != Token::Timescale,
        token_advance(tok, t[start + len]) == Some(tok2),
        tok2 != Token::OffsetHours,
        token_value_ok(tok, digits_value(t.subrange(start, start + len))),
        stored_value(tok, digits_value(t.subrange(start, start + len)), len) == Some(w),
        token_position(tok) is Some,
        i32::MIN <= w <= i32::MAX,
    ensures
        iso_scan(t, b, start, dec, ts, sign, start, tok) == iso_scan(
            t,
            b,
            start + len + 1,
            dec.update(token_position(tok)->Some_0 as int, w as i32),
            ts,
            sign,
            start + len + 1,
            tok2,
        ),
{
    reveal(numeric_char);
    let end = start + len;
    lemma_scan_skip(t, b, start, end, dec, ts, sign, start, tok);
    let c = t[end];
    assert(!numeric_char(c));
    let digits = t.subrange(start, end);
    let bytes = b.subrange(start, end);
    assert forall|i: int| 0 <= i < digits.len() implies '0' <= #[trigger] digits[i] <= '9' by {
        assert(digits[i] == t[start + i]);
    }
    assert forall|i: int| 0 <= i < digits.len() implies #[trigger] bytes[i] == digits[i] as u8 by {
        assert(bytes[i] == b[start + i]);
    }
    lemma_bytes_read(digits, bytes);
    // The value of at most nine digits fits.
    assert(digits_value(digits) < 1_000_000_000) by {
        lemma_digits_value_bound(digits);
        assert(pow10(len as nat) <= 1_000_000_000) by {
            lemma_pow10_mono(len as nat, 9);
            reveal_with_fuel(pow10, 10);
        }
    }
    assert(ascii_digits(bytes));
    crate::numeric::lemma_lexical_i32_digits(bytes);
    assert(lexical_i32(bytes) == Some(digits_value(digits) as i32));
}

/// Ten to a larger power is larger.
proof fn lemma_pow10_mono(j: nat, k: nat)
    requires
        j <= k,
    ensures
        pow10(j) <= pow10(k),
    decreases k,
{
    if j < k {
        lemma_pow10_mono(j, (k - 1) as nat);
    }
}

/// The value of digits is below ten to the power of their number.
proof fn lemma_digits_value_bound(d: Seq<char>)
    requires
        forall|i: int| 0 <= i < d.len() ==> '0' <= #[trigger] d[i] <= '9',
    ensures
        0 <= digits_value(d) < pow10(d.len()),
    decreases d.len(),
{
    if d.len() > 0 {
        assert forall|i: int| 0 <= i < d.len() - 1 implies '0' <= #[trigger] d.drop_last()[i] <= '9' by {
            assert(d.drop_last()[i] == d[i]);
        }
        lemma_digits_value_bound(d.drop_last());
        assert('0' <= d[d.len() - 1] <= '9');
    }
}

/// A number padded with zeros to a width is its digits, at least as many as the width, which
/// read back as it.
proof fn lemma_padded_general(v: nat, w: int)
    ensures
        padded_nat(v, w).len() == if decimal(v).len() < w {
            w
        } else {
            decimal(v).len() as int
        },
        padded_nat(v, w).len() >= 1,
        forall|i: int| 0 <= i < padded_nat(v, w).len() ==> '0' <= #[trigger] padded_nat(v, w)[i] <= '9',
        digits_value(padded_nat(v, w)) == v,
{
    lemma_decimal_reads(v);
    let k = w - decimal(v).len();
    lemma_zeros_read(k, decimal(v));
    let p = padded_nat(v, w);
    assert forall|i: int| 0 <= i < p.len() implies '0' <= #[trigger] p[i] <= '9' by {
        if i < zeros(k).len() {
            assert(p[i] == zeros(k)[i]);
        } else {
            assert(p[i] == decimal(v)[i - zeros(k).len()]);
        }
    }
}

/// The name of each time scale names it, and is made of two to five capital letters.
proof fn lemma_time_scale_name(ts: TimeScale)
    ensures
        2 <= time_scale_name(ts).len() <= 5,
        forall|i: int|
            0 <= i < time_scale_name(ts).len() ==> 'A' <= #[trigger] time_scale_name(ts)[i] <= 'Z',
        time_scale_named(time_scale_name(ts)) == Some(ts),
{
    reveal_strlit("TAI");
    reveal_strlit("TT");
    reveal_strlit("ET");
    reveal_strlit("TDB");
    reveal_strlit("UTC");
    reveal_strlit("GPST");
    reveal_strlit("GPS");
    reveal_strlit("GST");
    reveal_strlit("GAL");
    reveal_strlit("BDT");
    reveal_strlit("BDS");
    reveal_strlit("QZSST");
    reveal_strlit("QZSS");
    let n = time_scale_name(ts);
    assert forall|i: int| 0 <= i < n.len() implies 'A' <= #[trigger] n[i] <= 'Z' by {
    }
    let (utc, tt, tai, tdb, et) = ("UTC"@, "TT"@, "TAI"@, "TDB"@, "ET"@);
    let (gpst, gps, qzsst, qzss, gst, gal) = ("GPST"@, "GPS"@, "QZSST"@, "QZSS"@, "GST"@, "GAL"@);
    if ts != TimeScale::UTC {
        assert(n[0] != utc[0] || n.len() != 3);
    }
    if ts != TimeScale::TT {
        assert(n[0] != tt[0] || n.len() != 2);
    }
    if ts != TimeScale::TAI {
        assert(n[1] != tai[1] || n[0] != tai[0] || n.len() != 3);
    }
    if ts != TimeScale::TDB {
        assert(n[1] != tdb[1] || n[0] != tdb[0] || n.len() != 3);
    }
    if ts != TimeScale::ET {
        assert(n[0] != et[0] || n.len() != 2);
    }
    if ts != TimeScale::GPST {
        assert(n[1] != gpst[1] || n.len() != 4);
        assert(n[1] != gps[1] || n[0] != gps[0] || n.len() != 3);
    }
    if ts != TimeScale::QZSST {
        assert(n[0] != qzsst[0] || n.len() != 5);
        assert(n[0] != qzss[0] || n.len() != 4);
    }
    if ts != TimeScale::GST {
        assert(n[1] != gst[1] || n[0] != gst[0] || n.len() != 3);
        assert(n[1] != gal[1] || n[0] != gal[0] || n.len() != 3);
    }
}

/// The scan of a time scale name at the end of the text gives the numbers read so far with
/// that time scale.
proof fn lemma_scan_time_scale(
    t: Seq<char>,
    b: Seq<u8>,
    idx: int,
    dec: Seq<i32>,
    ts0: TimeScale,
    sign: int,
    prev: int,
    ts: TimeScale,
)
    requires
        b.len() == t.len(),
        0 <= idx < t.len() - 1,
        t.subrange(idx, t.len() as int) == time_scale_name(ts),
        forall|i: int| 0 <= i <= t.len() ==> is_char_boundary(b, i),
        decode_utf8(b.subrange(idx, t.len() as int)) == t.subrange(idx, t.len() as int),
    ensures
        iso_scan(t, b, idx, dec, ts0, sign, prev, Token::Timescale) == Ok::<
            (Seq<i32>, TimeScale, int),
            Option<crate::errors::HifitimeError>,
        >((dec, ts, sign)),
{
    reveal(numeric_char);
    reveal(trimmed);
    lemma_time_scale_name(ts);
    let name = time_scale_name(ts);
    assert(t[idx] == name[0]);
    assert('A' <= t[idx] <= 'Z');
    assert(!numeric_char(t[idx]));
    assert(trimmed(name) == name) by {
        assert(name[0] == name[0]);
        assert('A' <= name.last() <= 'Z');
    }
}

/// Every character of a text of digits is ASCII.
proof fn lemma_digits_ascii(d: Seq<char>)
    requires
        forall|i: int| 0 <= i < d.len() ==> '0' <= #[trigger] d[i] <= '9',
    ensures
        is_ascii_chars(d),
{
    assert forall|i: int| 0 <= i < d.len() implies '\0' <= #[trigger] d[i] <= '\u{7f}' by {
        assert('0' <= d[i] <= '9');
    }
}

/// Two ASCII texts make an ASCII text.
proof fn lemma_ascii_concat(a: Seq<char>, b: Seq<char>)
    requires
        is_ascii_chars(a),
        is_ascii_chars(b),
    ensures
        is_ascii_chars(a + b),
{
    assert forall|i: int| 0 <= i < (a + b).len() implies '\0' <= #[trigger] (a + b)[i] <= '\u{7f}' by {
        if i < a.len() {
            assert((a + b)[i] == a[i]);
        } else {
            assert((a + b)[i] == b[i - a.len()]);
        }
    }
}

/// A separator followed by a padded number is ASCII.
proof fn lemma_sep_padded_ascii(sep: Seq<char>, v: nat, w: int)
    requires
        is_ascii_chars(sep),
    ensures
        is_ascii_chars(sep_padded(sep, v as int, w)),
{
    lemma_padded_general(v, w);
    lemma_digits_ascii(padded_nat(v, w));
    lemma_ascii_concat(sep, padded_nat(v, w));
}

/// The text of Gregorian parts and a time scale name.
pub open spec fn parts_text(p: (int, int, int, int, int, int, int), name: Seq<char>) -> Seq<char> {
    date_time_text(p) + " "@ + name
}

/// Whether Gregorian parts are those of a date and time that the text writes with two digits
/// for each of the month, day, hour, minute and second, and at most nine for the year.
pub open spec fn parts_in_range(p: (int, int, int, int, int, int, int)) -> bool {
    &&& 0 <= p.0 < 1_000_000_000
    &&& 0 <= p.1 < 100
    &&& 0 <= p.2 < 100
    &&& 0 <= p.3 < 100
    &&& 0 <= p.4 < 100
    &&& 0 <= p.5 < 100
    &&& 0 <= p.6 < 1_000_000_000
}

/// The year of the text: the year padded with zeros to four digits.
spec fn year_text(p: (int, int, int, int, int, int, int)) -> Seq<char> {
    padded_nat(p.0 as nat, 4)
}

/// The fraction of a second of the text: none for zero nanoseconds.
spec fn frac_text(p: (int, int, int, int, int, int, int)) -> Seq<char> {
    if p.6 == 0 {
        Seq::<char>::empty()
    } else {
        sep_padded("."@, p.6, 9)
    }
}

/// Where each piece of the text of Gregorian parts lies.
proof fn lemma_text_layout(p: (int, int, int, int, int, int, int), name: Seq<char>)
    requires
        parts_in_range(p),
    ensures
        ({
            let t = parts_text(p, name);
            let ly = year_text(p).len() as int;
            let fl = frac_text(p).len() as int;
            &&& 1 <= ly <= 9
            &&& fl == if p.6 == 0 {
                0int
            } else {
                10int
            }
            &&& t.len() == ly + 16 + fl + name.len()
            &&& t.subrange(0, ly) == year_text(p)
            &&& t[ly] == '-'
            &&& t.subrange(ly + 1, ly + 3) == padded_nat(p.1 as nat, 2)
            &&& t[ly + 3] == '-'
            &&& t.subrange(ly + 4, ly + 6) == padded_nat(p.2 as nat, 2)
            &&& t[ly + 6] == 'T'
            &&& t.subrange(ly + 7, ly + 9) == padded_nat(p.3 as nat, 2)
            &&& t[ly + 9] == ':'
            &&& t.subrange(ly + 10, ly + 12) == padded_nat(p.4 as nat, 2)
            &&& t[ly + 12] == ':'
            &&& t.subrange(ly + 13, ly + 15) == padded_nat(p.5 as nat, 2)
            &&& p.6 != 0 ==> t[ly + 15] == '.' && t.subrange(ly + 16, ly + 25) == padded_nat(
                p.6 as nat,
                9,
            )
            &&& t[ly + 15 + fl] == ' '
            &&& t.subrange(ly + 16 + fl, t.len() as int) == name
        }),
{
    reveal_with_fuel(pow10, 10);
    lemma_padded_general(p.0 as nat, 4);
    lemma_decimal_len_le(p.0 as nat, 9);
    lemma_padded_reads(p.1 as nat, 2);
    lemma_padded_reads(p.2 as nat, 2);
    lemma_padded_reads(p.3 as nat, 2);
    lemma_padded_reads(p.4 as nat, 2);
    lemma_padded_reads(p.5 as nat, 2);
    lemma_padded_reads(p.6 as nat, 9);
    reveal_strlit("-");
    reveal_strlit("T");
    reveal_strlit(":");
    reveal_strlit(".");
    reveal_strlit(" ");
    assert(padded_int(p.0, 4) == year_text(p));
    let ly = year_text(p).len() as int;
    let q0 = year_text(p);
    let q1 = q0 + sep_padded("-"@, p.1, 2);
    let q2 = q1 + sep_padded("-"@, p.2, 2);
    let q3 = q2 + sep_padded("T"@, p.3, 2);
    let q4 = q3 + sep_padded(":"@, p.4, 2);
    let q5 = q4 + sep_padded(":"@, p.5, 2);
    let q6 = q5 + frac_text(p);
    let t = q6 + " "@ + name;
    assert(q6 == date_time_text(p));
    assert(t == parts_text(p, name));
    assert(t.subrange(0, ly) =~= q0) by {
        assert(t.subrange(0, q6.len() as int) =~= q6);
        assert(q6.subrange(0, q5.len() as int) =~= q5);
        assert(q5.subrange(0, q4.len() as int) =~= q4);
        assert(q4.subrange(0, q3.len() as int) =~= q3);
        assert(q3.subrange(0, q2.len() as int) =~= q2);
        assert(q2.subrange(0, q1.len() as int) =~= q1);
        assert(q1.subrange(0, ly) =~= q0);
    }
    assert(t.subrange(ly + 1, ly + 3) =~= padded_nat(p.1 as nat, 2));
    assert(t.subrange(ly + 4, ly + 6) =~= padded_nat(p.2 as nat, 2));
    assert(t.subrange(ly + 7, ly + 9) =~= padded_nat(p.3 as nat, 2));
    assert(t.subrange(ly + 10, ly + 12) =~= padded_nat(p.4 as nat, 2));
    assert(t.subrange(ly + 13, ly + 15) =~= padded_nat(p.5 as nat, 2));
    if p.6 != 0 {
        assert(t.subrange(ly + 16, ly + 25) =~= padded_nat(p.6 as nat, 9));
    }
    assert(t.subrange(ly + 16 + frac_text(p).len(), t.len() as int) =~= name);
}

/// The text of Gregorian parts and a time scale name is ASCII, and begins with a digit and
/// ends with a capital letter, so that trimming keeps it whole.
#[verifier::rlimit(50)]
proof fn lemma_text_ascii(p: (int, int, int, int, int, int, int), ts: TimeScale)
    requires
        parts_in_range(p),
    ensures
        is_ascii_chars(parts_text(p, time_scale_name(ts))),
        trimmed(parts_text(p, time_scale_name(ts))) == parts_text(p, time_scale_name(ts)),
{
    let name = time_scale_name(ts);
    reveal_strlit(" ");
    lemma_date_time_ascii(p);
    lemma_time_scale_name(ts);
    assert(is_ascii_chars(name));
    assert(is_ascii_chars(" "@));
    lemma_ascii_concat(date_time_text(p), " "@);
    lemma_ascii_concat(date_time_text(p) + " "@, name);
    let t = parts_text(p, name);
    assert(t == date_time_text(p) + " "@ + name);
    reveal(trimmed);
    assert(t[0] == date_time_text(p)[0]);
    assert('A' <= t.last() <= 'Z') by {
        assert(t.last() == name[name.len() - 1]);
    }
}

/// The scan of a text from an index, as an opaque step for chaining the scans of the pieces.
#[verifier::opaque]
spec fn scan_at(
    t: Seq<char>,
    b: Seq<u8>,
    idx: int,
    dec: Seq<i32>,
    prev: int,
    tok: Token,
) -> Result<(Seq<i32>, TimeScale, int), Option<HifitimeError>> {
    iso_scan(t, b, idx, dec, TimeScale::UTC, 1, prev, tok)
}

/// The scan of a number of one to nine digits within a text: see `lemma_scan_field`.
proof fn lemma_scan_piece(
    t: Seq<char>,
    b: Seq<u8>,
    start: int,
    len: int,
    dec: Seq<i32>,
    tok: Token,
    tok2: Token,
    piece: Seq<char>,
    v: int,
)
    requires
        b.len() == t.len(),
        forall|i: int| 0 <= i < t.len() ==> #[trigger] b[i] == t[i] as u8,
        forall|i: int| 0 <= i <= t.len() ==> is_char_boundary(b, i),
        1 <= len <= 9,
        0 <= start,
        start + len < t.len() - 1,
        t.subrange(start, start + len) == piece,
        forall|i: int| 0 <= i < len ==> '0' <= #[trigger] piece[i] <= '9',
        digits_value(piece) == v,
        (t[start + len] as u32) < 128,
        !('0' <= t[start + len] <= '9'),
        tok != Token::Timescale,
        token_advance(tok, t[start + len]) == Some(tok2),
        tok2 != Token::OffsetHours,
        token_value_ok(tok, v),
        stored_value(tok, v, len) == Some(v),
        token_position(tok) is Some,
        0 <= v < 1_000_000_000,
    ensures
        scan_at(t, b, start, dec, start, tok) == scan_at(
            t,
            b,
            start + len + 1,
            dec.update(token_position(tok)->Some_0 as int, v as i32),
            start + len + 1,
            tok2,
        ),
{
    assert forall|i: int| start <= i < start + len implies '0' <= #[trigger] t[i] <= '9' by {
        assert(t[i] == piece[i - start]);
    }
    lemma_scan_field(t, b, start, len, dec, TimeScale::UTC, 1, tok, tok2, v);
    reveal(scan_at);
}

/// The scan of the text of Gregorian parts and the name of a time scale reads the parts and
/// the time scale, with no offset.
#[verifier::rlimit(50)]
proof fn lemma_text_scan(p: (int, int, int, int, int, int, int), ts: TimeScale)
    requires
        parts_in_range(p),
        1 <= p.1 <= 12,
        1 <= p.2 <= 31,
        p.3 <= 23,
        p.4 <= 59,
        p.5 <= 59,
    ensures
        iso_date_scan(parts_text(p, time_scale_name(ts))) == Ok::<
            (Seq<i32>, TimeScale, int),
            Option<HifitimeError>,
        >(
            (
                seq![
                    p.0 as i32,
                    p.1 as i32,
                    p.2 as i32,
                    p.3 as i32,
                    p.4 as i32,
                    p.5 as i32,
                    p.6 as i32,
                    0i32,
                    0i32,
                ],
                ts,
                1,
            ),
        ),
{
    let name = time_scale_name(ts);
    lemma_time_scale_name(ts);
    lemma_text_layout(p, name);
    lemma_text_ascii(p, ts);
    let t = parts_text(p, name);
    lemma_ascii_text(t);
    let b = encode_utf8(t);
    let ly = year_text(p).len() as int;
    let fl = frac_text(p).len() as int;
    reveal_with_fuel(pow10, 10);
    let (y, m, day, h, mi, sec, ns) = (p.0, p.1, p.2, p.3, p.4, p.5, p.6);
    let dec0 = seq![0i32, 0, 0, 0, 0, 0, 0, 0, 0];
    let dec1 = dec0.update(0, y as i32);
    let dec2 = dec1.update(1, m as i32);
    let dec3 = dec2.update(2, day as i32);
    let dec4 = dec3.update(3, h as i32);
    let dec5 = dec4.update(4, mi as i32);
    let dec6 = dec5.update(5, sec as i32);
    let dec = seq![y as i32, m as i32, day as i32, h as i32, mi as i32, sec as i32, ns as i32, 0i32, 0i32];
    let s0 = scan_at(t, b, 0, dec0, 0, Token::Year);
    let s1 = scan_at(t, b, ly + 1, dec1, ly + 1, Token::Month);
    let s2 = scan_at(t, b, ly + 4, dec2, ly + 4, Token::Day);
    let s3 = scan_at(t, b, ly + 7, dec3, ly + 7, Token::Hour);
    let s4 = scan_at(t, b, ly + 10, dec4, ly + 10, Token::Minute);
    let s5 = scan_at(t, b, ly + 13, dec5, ly + 13, Token::Second);
    assert(s0 == s1) by {
        lemma_padded_general(y as nat, 4);
        lemma_scan_piece(t, b, 0, ly, dec0, Token::Year, Token::Month, year_text(p), y);
    }
    assert(s1 == s2) by {
        lemma_padded_reads(m as nat, 2);
        lemma_scan_piece(t, b, ly + 1, 2, dec1, Token::Month, Token::Day, padded_nat(m as nat, 2), m);
    }
    assert(s2 == s3) by {
        lemma_padded_reads(day as nat, 2);
        lemma_scan_piece(t, b, ly + 4, 2, dec2, Token::Day, Token::Hour, padded_nat(day as nat, 2), day);
    }
    assert(s3 == s4) by {
        lemma_padded_reads(h as nat, 2);
        lemma_scan_piece(t, b, ly + 7, 2, dec3, Token::Hour, Token::Minute, padded_nat(h as nat, 2), h);
    }
    assert(s4 == s5) by {
        lemma_padded_reads(mi as nat, 2);
        lemma_scan_piece(t, b, ly + 10, 2, dec4, Token::Minute, Token::Second, padded_nat(mi as nat, 2), mi);
    }
    if ns != 0 {
        let s6 = scan_at(t, b, ly + 16, dec6, ly + 16, Token::Subsecond);
        assert(s5 == s6) by {
            lemma_padded_reads(sec as nat, 2);
            lemma_scan_piece(t, b, ly + 13, 2, dec5, Token::Second, Token::Subsecond, padded_nat(sec as nat, 2), sec);
        }
        assert(dec6.update(6, ns as i32) =~= dec);
        assert(s6 == scan_at(t, b, ly + 26, dec, ly + 26, Token::Timescale)) by {
            lemma_padded_reads(ns as nat, 9);
            lemma_scan_piece(t, b, ly + 16, 9, dec6, Token::Subsecond, Token::Timescale, padded_nat(ns as nat, 9), ns);
        }
        assert(scan_at(t, b, ly + 26, dec, ly + 26, Token::Timescale) == Ok::<
            (Seq<i32>, TimeScale, int),
            Option<HifitimeError>,
        >((dec, ts, 1))) by {
            lemma_scan_time_scale(t, b, ly + 26, dec, TimeScale::UTC, 1, ly + 26, ts);
            reveal(scan_at);
        }
    } else {
        assert(dec6 =~= dec);
        assert(s5 == scan_at(t, b, ly + 16, dec, ly + 16, Token::Timescale)) by {
            lemma_padded_reads(sec as nat, 2);
            lemma_scan_piece(t, b, ly + 13, 2, dec5, Token::Second, Token::Timescale, padded_nat(sec as nat, 2), sec);
        }
        assert(scan_at(t, b, ly + 16, dec, ly + 16, Token::Timescale) == Ok::<
            (Seq<i32>, TimeScale, int),
            Option<HifitimeError>,
        >((dec, ts, 1))) by {
            lemma_scan_time_scale(t, b, ly + 16, dec, TimeScale::UTC, 1, ly + 16, ts);
            reveal(scan_at);
        }
    }
    assert(iso_date_scan(t) == s0) by {
        reveal(scan_at);
    }
}

/// Writing the Gregorian date and time of an epoch (`Epoch::to_text`, which writes
/// `gregorian_text`), then reading that text as an ISO8601 date (`Epoch::from_gregorian_str`,
/// which reads through `iso_date_scan` and `iso_epoch`), gives the epoch back, in every time
/// scale: the text reads as the numbers of the date and
/// time and the time scale of the epoch, which make the epoch again. This holds on the
/// durations where computing the Gregorian date and time then building the epoch of that
/// date does (see `law_gregorian_parts_rebuild`).
pub proof fn law_gregorian_text_round_trip(d: Duration, ts: TimeScale)
    requires
        d.wf(),
        0 <= d@ + gregorian_offset_seconds(ts) * 1_000_000_000 < max_ns(),
    ensures
        ({
            let p = gregorian_parts(d, ts);
            let dec = seq![
                p.0 as i32,
                p.1 as i32,
                p.2 as i32,
                p.3 as i32,
                p.4 as i32,
                p.5 as i32,
                p.6 as i32,
                0i32,
                0i32,
            ];
            &&& iso_date_scan(trimmed(gregorian_text(d, ts))) == Ok::<
                (Seq<i32>, TimeScale, int),
                Option<HifitimeError>,
            >((dec, ts, 1))
            &&& iso_epoch(dec, ts, 1) == Ok::<Epoch, HifitimeError>(
                Epoch { duration: d, time_scale: ts },
            )
        }),
{
    let p = gregorian_parts(d, ts);
    assert(crate::duration::min_ns() <= crate::epoch::year_start_ns(p.0)) by {
        d.lemma_range();
        lemma_shift(d, gregorian_offset_seconds(ts) * 1_000_000_000);
        crate::gregorian_laws::lemma_year_fits(d, ts);
        crate::gregorian::lemma_leaps_nonneg(p.0);
        vstd::arithmetic::mul::lemma_mul_nonnegative(crate::gregorian::year_start_days(p.0), crate::epoch::npd());
    }
    law_gregorian_parts_rebuild(d, ts);
    assert(p.0 < 1_000_000_000);
    let dec = seq![
        p.0 as i32,
        p.1 as i32,
        p.2 as i32,
        p.3 as i32,
        p.4 as i32,
        p.5 as i32,
        p.6 as i32,
        0i32,
        0i32,
    ];
    assert(iso_date_scan(trimmed(gregorian_text(d, ts))) == Ok::<
        (Seq<i32>, TimeScale, int),
        Option<HifitimeError>,
    >((dec, ts, 1))) by {
        lemma_text_ascii(p, ts);
        lemma_text_scan(p, ts);
        assert(gregorian_text(d, ts) == parts_text(p, time_scale_name(ts)));
    }
    // The numbers make the epoch again, and the offset read is none.
    assert(iso_epoch(dec, ts, 1) == Ok::<Epoch, HifitimeError>(Epoch { duration: d, time_scale: ts }))
        by {
        Duration::lemma_of_ns(0);
        lemma_shift(Duration::of_ns(0), 0);
        lemma_shift(d, 0);
        Duration::lemma_of_ns(d@);
        Duration::lemma_unique(d, Duration::of_ns(d@));
    }
}


/// The scan of a number of one to nine digits that ends with the sign of a time zone offset
/// stores the number, takes the sign (negative exactly for a `-`) and goes on with the offset
/// hours, which are read from the second character after the sign.
proof fn lemma_scan_field_signed(
    t: Seq<char>,
    b: Seq<u8>,
    start: int,
    len: int,
    dec: Seq<i32>,
    ts: TimeScale,
    sign: int,
    tok: Token,
    w: int,
)
    requires
        b.len() == t.len(),
        forall|i: int| 0 <= i < t.len() ==> #[trigger] b[i] == t[i] as u8,
        forall|i: int| 0 <= i <= t.len() ==> is_char_boundary(b, i),
        1 <= len <= 9,
        0 <= start,
        start + len + 1 < t.len() - 1,
        forall|i: int| start <= i < start + len ==> '0' <= #[trigger] t[i] <= '9',
        t[start + len] == '+' || t[start + len] == '-',
        tok != Token::Timescale,
        token_advance(tok, t[start + len]) == Some(Token::OffsetHours),
        token_value_ok(tok, digits_value(t.subrange(start, start + len))),
        stored_value(tok, digits_value(t.subrange(start, start + len)), len) == Some(w),
        token_position(tok) is Some,
        i32::MIN <= w <= i32::MAX,
    ensures
        iso_scan(t, b, start, dec, ts, sign, start, tok) == iso_scan(
            t,
            b,
            start + len + 1,
            dec.update(token_position(tok)->Some_0 as int, w as i32),
            ts,
            if t[start + len] == '-' {
                -1
            } else {
                sign
            },
            start + len + 2,
            Token::OffsetHours,
        ),
{
    reveal(numeric_char);
    let end = start + len;
    lemma_scan_skip(t, b, start, end, dec, ts, sign, start, tok);
    let c = t[end];
    assert(!numeric_char(c));
    assert(b[end] == c as u8);
    assert(('-' as u8) == 45u8 && ('+' as u8) == 43u8);
    let digits = t.subrange(start, end);
    let bytes = b.subrange(start, end);
    assert forall|i: int| 0 <= i < digits.len() implies '0' <= #[trigger] digits[i] <= '9' by {
        assert(digits[i] == t[start + i]);
    }
    assert forall|i: int| 0 <= i < digits.len() implies #[trigger] bytes[i] == digits[i] as u8 by {
        assert(bytes[i] == b[start + i]);
    }
    lemma_bytes_read(digits, bytes);
    assert(digits_value(digits) < 1_000_000_000) by {
        lemma_digits_value_bound(digits);
        assert(pow10(len as nat) <= 1_000_000_000) by {
            lemma_pow10_mono(len as nat, 9);
            reveal_with_fuel(pow10, 10);
        }
    }
    crate::numeric::lemma_lexical_i32_digits(bytes);
    assert(lexical_i32(bytes) == Some(digits_value(digits) as i32));
}

/// The scan of a number of one to nine digits that ends the text stores the number and ends.
proof fn lemma_scan_last_field(
    t: Seq<char>,
    b: Seq<u8>,
    start: int,
    dec: Seq<i32>,
    ts: TimeScale,
    sign: int,
    tok: Token,
    w: int,
)
    requires
        b.len() == t.len(),
        forall|i: int| 0 <= i < t.len() ==> #[trigger] b[i] == t[i] as u8,
        forall|i: int| 0 <= i <= t.len() ==> is_char_boundary(b, i),
        0 <= start,
        1 <= t.len() - start <= 9,
        forall|i: int| start <= i < t.len() ==> '0' <= #[trigger] t[i] <= '9',
        tok != Token::Timescale,
        tok != Token::OffsetHours,
        token_value_ok(tok, digits_value(t.subrange(start, t.len() as int))),
        stored_value(tok, digits_value(t.subrange(start, t.len() as int)), t.len() - start)
            == Some(w),
        token_position(tok) is Some,
        i32::MIN <= w <= i32::MAX,
    ensures
        iso_scan(t, b, start, dec, ts, sign, start, tok) == Ok::<
            (Seq<i32>, TimeScale, int),
            Option<HifitimeError>,
        >((dec.update(token_position(tok)->Some_0 as int, w as i32), ts, sign)),
{
    reveal(numeric_char);
    let n = t.len() as int;
    lemma_scan_skip(t, b, start, n - 1, dec, ts, sign, start, tok);
    assert(numeric_char(t[n - 1]));
    let digits = t.subrange(start, n);
    let bytes = b.subrange(start, n);
    assert forall|i: int| 0 <= i < digits.len() implies '0' <= #[trigger] digits[i] <= '9' by {
        assert(digits[i] == t[start + i]);
    }
    assert forall|i: int| 0 <= i < digits.len() implies #[trigger] bytes[i] == digits[i] as u8 by {
        assert(bytes[i] == b[start + i]);
    }
    lemma_bytes_read(digits, bytes);
    assert(digits_value(digits) < 1_000_000_000) by {
        lemma_digits_value_bound(digits);
        assert(pow10((n - start) as nat) <= 1_000_000_000) by {
            lemma_pow10_mono((n - start) as nat, 9);
            reveal_with_fuel(pow10, 10);
        }
    }
    crate::numeric::lemma_lexical_i32_digits(bytes);
    assert(lexical_i32(bytes) == Some(digits_value(digits) as i32));
    let dec2 = dec.update(token_position(tok)->Some_0 as int, w as i32);
    assert(iso_scan(t, b, n, dec2, ts, sign, n, tok) == Ok::<
        (Seq<i32>, TimeScale, int),
        Option<HifitimeError>,
    >((dec2, ts, sign)));
    assert(iso_scan(t, b, n - 1, dec, ts, sign, start, tok) == iso_scan(t, b, n, dec2, ts, sign, n, tok));
}

/// Where each piece of a date and time lies in a text that begins with it.
proof fn lemma_date_time_layout(p: (int, int, int, int, int, int, int), rest: Seq<char>)
    requires
        parts_in_range(p),
    ensures
        ({
            let t = date_time_text(p) + rest;
            let ly = year_text(p).len() as int;
            let fl = frac_text(p).len() as int;
            &&& 1 <= ly <= 9
            &&& fl == if p.6 == 0 {
                0int
            } else {
                10int
            }
            &&& date_time_text(p).len() == ly + 15 + fl
            &&& t.len() == ly + 15 + fl + rest.len()
            &&& t.subrange(0, ly) == year_text(p)
            &&& t[ly] == '-'
            &&& t.subrange(ly + 1, ly + 3) == padded_nat(p.1 as nat, 2)
            &&& t[ly + 3] == '-'
            &&& t.subrange(ly + 4, ly + 6) == padded_nat(p.2 as nat, 2)
            &&& t[ly + 6] == 'T'
            &&& t.subrange(ly + 7, ly + 9) == padded_nat(p.3 as nat, 2)
            &&& t[ly + 9] == ':'
            &&& t.subrange(ly + 10, ly + 12) == padded_nat(p.4 as nat, 2)
            &&& t[ly + 12] == ':'
            &&& t.subrange(ly + 13, ly + 15) == padded_nat(p.5 as nat, 2)
            &&& p.6 != 0 ==> t[ly + 15] == '.' && t.subrange(ly + 16, ly + 25) == padded_nat(
                p.6 as nat,
                9,
            )
            &&& t.subrange(ly + 15 + fl, t.len() as int) == rest
        }),
{
    reveal_with_fuel(pow10, 10);
    lemma_padded_general(p.0 as nat, 4);
    lemma_decimal_len_le(p.0 as nat, 9);
    lemma_padded_reads(p.1 as nat, 2);
    lemma_padded_reads(p.2 as nat, 2);
    lemma_padded_reads(p.3 as nat, 2);
    lemma_padded_reads(p.4 as nat, 2);
    lemma_padded_reads(p.5 as nat, 2);
    lemma_padded_reads(p.6 as nat, 9);
    reveal_strlit("-");
    reveal_strlit("T");
    reveal_strlit(":");
    reveal_strlit(".");
    assert(padded_int(p.0, 4) == year_text(p));
    let ly = year_text(p).len() as int;
    let q0 = year_text(p);
    let q1 = q0 + sep_padded("-"@, p.1, 2);
    let q2 = q1 + sep_padded("-"@, p.2, 2);
    let q3 = q2 + sep_padded("T"@, p.3, 2);
    let q4 = q3 + sep_padded(":"@, p.4, 2);
    let q5 = q4 + sep_padded(":"@, p.5, 2);
    let q6 = q5 + frac_text(p);
    let t = q6 + rest;
    assert(q6 == date_time_text(p));
    assert(t.subrange(0, ly) =~= q0) by {
        assert(t.subrange(0, q6.len() as int) =~= q6);
        assert(q6.subrange(0, q5.len() as int) =~= q5);
        assert(q5.subrange(0, q4.len() as int) =~= q4);
        assert(q4.subrange(0, q3.len() as int) =~= q3);
        assert(q3.subrange(0, q2.len() as int) =~= q2);
        assert(q2.subrange(0, q1.len() as int) =~= q1);
        assert(q1.subrange(0, ly) =~= q0);
    }
    assert(t.subrange(ly + 1, ly + 3) =~= padded_nat(p.1 as nat, 2));
    assert(t.subrange(ly + 4, ly + 6) =~= padded_nat(p.2 as nat, 2));
    assert(t.subrange(ly + 7, ly + 9) =~= padded_nat(p.3 as nat, 2));
    assert(t.subrange(ly + 10, ly + 12) =~= padded_nat(p.4 as nat, 2));
    assert(t.subrange(ly + 13, ly + 15) =~= padded_nat(p.5 as nat, 2));
    if p.6 != 0 {
        assert(t.subrange(ly + 16, ly + 25) =~= padded_nat(p.6 as nat, 9));
    }
    assert(t.subrange(ly + 15 + frac_text(p).len(), t.len() as int) =~= rest);
}

/// The text of a date and time is ASCII and begins with a digit.
#[verifier::rlimit(50)]
proof fn lemma_date_time_ascii(p: (int, int, int, int, int, int, int))
    requires
        parts_in_range(p),
    ensures
        is_ascii_chars(date_time_text(p)),
        '0' <= date_time_text(p)[0] <= '9',
{
    reveal_strlit("-");
    reveal_strlit("T");
    reveal_strlit(":");
    reveal_strlit(".");
    let q0 = year_text(p);
    assert(is_ascii_chars(q0)) by {
        lemma_padded_general(p.0 as nat, 4);
        lemma_digits_ascii(q0);
    }
    lemma_sep_padded_ascii("-"@, p.1 as nat, 2);
    lemma_sep_padded_ascii("-"@, p.2 as nat, 2);
    lemma_sep_padded_ascii("T"@, p.3 as nat, 2);
    lemma_sep_padded_ascii(":"@, p.4 as nat, 2);
    lemma_sep_padded_ascii(":"@, p.5 as nat, 2);
    lemma_sep_padded_ascii("."@, p.6 as nat, 9);
    let q1 = q0 + sep_padded("-"@, p.1, 2);
    let q2 = q1 + sep_padded("-"@, p.2, 2);
    let q3 = q2 + sep_padded("T"@, p.3, 2);
    let q4 = q3 + sep_padded(":"@, p.4, 2);
    let q5 = q4 + sep_padded(":"@, p.5, 2);
    let q6 = q5 + frac_text(p);
    lemma_ascii_concat(q0, sep_padded("-"@, p.1, 2));
    lemma_ascii_concat(q1, sep_padded("-"@, p.2, 2));
    lemma_ascii_concat(q2, sep_padded("T"@, p.3, 2));
    lemma_ascii_concat(q3, sep_padded(":"@, p.4, 2));
    lemma_ascii_concat(q4, sep_padded(":"@, p.5, 2));
    assert(is_ascii_chars(frac_text(p)));
    lemma_ascii_concat(q5, frac_text(p));
    assert(q6 == date_time_text(p));
    assert('0' <= q6[0] <= '9') by {
        lemma_padded_general(p.0 as nat, 4);
        assert(q6[0] == q0[0]);
    }
}

/// The scan of a text from an index with a given sign of the offset, as an opaque step for
/// chaining the scans of the pieces.
#[verifier::opaque]
spec fn signed_scan_at(
    t: Seq<char>,
    b: Seq<u8>,
    idx: int,
    dec: Seq<i32>,
    sign: int,
    prev: int,
    tok: Token,
) -> Result<(Seq<i32>, TimeScale, int), Option<HifitimeError>> {
    iso_scan(t, b, idx, dec, TimeScale::UTC, sign, prev, tok)
}

/// A time zone offset as it follows a date and time: a sign (`+` or `-`), the hours on two
/// digits, a colon and the minutes on two digits (e.g. `+05:00`).
pub open spec fn offset_suffix(plus: bool, h: int, m: int) -> Seq<char> {
    sep_padded(
        if plus {
            "+"@
        } else {
            "-"@
        },
        h,
        2,
    ) + sep_padded(":"@, m, 2)
}

/// Where each piece of a time zone offset lies, and that it is ASCII.
proof fn lemma_offset_layout(plus: bool, h: int, m: int)
    requires
        0 <= h <= 9,
        0 <= m <= 59,
    ensures
        ({
            let o = offset_suffix(plus, h, m);
            &&& o.len() == 6
            &&& o[0] == if plus {
                '+'
            } else {
                '-'
            }
            &&& o[1] == '0'
            &&& o.subrange(2, 3) == decimal(h as nat)
            &&& o[3] == ':'
            &&& o.subrange(4, 6) == padded_nat(m as nat, 2)
            &&& is_ascii_chars(o)
        }),
{
    reveal_strlit("+");
    reveal_strlit("-");
    reveal_strlit(":");
    reveal_with_fuel(pow10, 3);
    lemma_padded_reads(h as nat, 2);
    lemma_padded_reads(m as nat, 2);
    let sg = if plus {
        "+"@
    } else {
        "-"@
    };
    assert(decimal(h as nat) == seq![digit_char(h)]);
    assert(padded_nat(h as nat, 2) =~= seq!['0'] + decimal(h as nat));
    let o = offset_suffix(plus, h, m);
    assert(o.subrange(2, 3) =~= decimal(h as nat));
    assert(o.subrange(4, 6) =~= padded_nat(m as nat, 2));
    lemma_sep_padded_ascii(sg, h as nat, 2);
    lemma_sep_padded_ascii(":"@, m as nat, 2);
    lemma_ascii_concat(sep_padded(sg, h, 2), sep_padded(":"@, m, 2));
}

/// The decimal numbers of a date and time and an offset of hours and minutes.
spec fn offset_numbers(p: (int, int, int, int, int, int, int), h: int, m: int) -> Seq<i32> {
    seq![
        p.0 as i32,
        p.1 as i32,
        p.2 as i32,
        p.3 as i32,
        p.4 as i32,
        p.5 as i32,
        p.6 as i32,
        h as i32,
        m as i32,
    ]
}

/// The sign of an offset as the scan holds it.
spec fn offset_sign(plus: bool) -> int {
    if plus {
        1
    } else {
        -1
    }
}

/// A date and time followed by a time zone offset is ASCII, so that its bytes are its
/// characters.
proof fn lemma_offset_ascii(p: (int, int, int, int, int, int, int), plus: bool, h: int, m: int)
    requires
        parts_in_range(p),
        0 <= h <= 9,
        0 <= m <= 59,
    ensures
        is_ascii_chars(date_time_text(p) + offset_suffix(plus, h, m)),
{
    lemma_offset_layout(plus, h, m);
    lemma_date_time_ascii(p);
    lemma_ascii_concat(date_time_text(p), offset_suffix(plus, h, m));
}

/// The bytes of an ASCII text are its characters, with a character boundary at every index.
proof fn lemma_ascii_bytes(t: Seq<char>)
    requires
        is_ascii_chars(t),
    ensures
        encode_utf8(t).len() == t.len(),
        forall|i: int| 0 <= i < t.len() ==> #[trigger] encode_utf8(t)[i] == t[i] as u8,
        forall|i: int| 0 <= i <= t.len() ==> is_char_boundary(encode_utf8(t), i),
{
    lemma_ascii_text(t);
}

/// The scan of a date and time followed by more ASCII text reads the year, month, day, hour
/// and minute.
#[verifier::rlimit(100)]
proof fn lemma_date_scan(p: (int, int, int, int, int, int, int), rest: Seq<char>)
    requires
        parts_in_range(p),
        1 <= p.1 <= 12,
        1 <= p.2 <= 31,
        p.3 <= 23,
        p.4 <= 59,
        is_ascii_chars(rest),
    ensures
        ({
            let t = date_time_text(p) + rest;
            let ly = year_text(p).len() as int;
            scan_at(t, encode_utf8(t), 0, seq![0i32, 0, 0, 0, 0, 0, 0, 0, 0], 0, Token::Year)
                == scan_at(
                t,
                encode_utf8(t),
                ly + 13,
                seq![p.0 as i32, p.1 as i32, p.2 as i32, p.3 as i32, p.4 as i32, 0i32, 0, 0, 0],
                ly + 13,
                Token::Second,
            )
        }),
{
    let t = date_time_text(p) + rest;
    lemma_date_time_layout(p, rest);
    assert(is_ascii_chars(t)) by {
        lemma_date_time_ascii(p);
        lemma_ascii_concat(date_time_text(p), rest);
    }
    lemma_ascii_bytes(t);
    let b = encode_utf8(t);
    let ly = year_text(p).len() as int;
    reveal_with_fuel(pow10, 3);
    let (y, mo, day, hr, mi) = (p.0, p.1, p.2, p.3, p.4);
    let dec0 = seq![0i32, 0, 0, 0, 0, 0, 0, 0, 0];
    let dec1 = dec0.update(0, y as i32);
    let dec2 = dec1.update(1, mo as i32);
    let dec3 = dec2.update(2, day as i32);
    let dec4 = dec3.update(3, hr as i32);
    let dec5 = dec4.update(4, mi as i32);
    assert(dec5 =~= seq![y as i32, mo as i32, day as i32, hr as i32, mi as i32, 0i32, 0, 0, 0]);
    let s0 = scan_at(t, b, 0, dec0, 0, Token::Year);
    let s1 = scan_at(t, b, ly + 1, dec1, ly + 1, Token::Month);
    let s2 = scan_at(t, b, ly + 4, dec2, ly + 4, Token::Day);
    let s3 = scan_at(t, b, ly + 7, dec3, ly + 7, Token::Hour);
    let s4 = scan_at(t, b, ly + 10, dec4, ly + 10, Token::Minute);
    let s5 = scan_at(t, b, ly + 13, dec5, ly + 13, Token::Second);
    assert(s0 == s1) by {
        lemma_padded_general(y as nat, 4);
        lemma_scan_piece(t, b, 0, ly, dec0, Token::Year, Token::Month, year_text(p), y);
    }
    assert(s1 == s2) by {
        lemma_padded_reads(mo as nat, 2);
        lemma_scan_piece(t, b, ly + 1, 2, dec1, Token::Month, Token::Day, padded_nat(mo as nat, 2), mo);
    }
    assert(s2 == s3) by {
        lemma_padded_reads(day as nat, 2);
        lemma_scan_piece(t, b, ly + 4, 2, dec2, Token::Day, Token::Hour, padded_nat(day as nat, 2), day);
    }
    assert(s3 == s4) by {
        lemma_padded_reads(hr as nat, 2);
        lemma_scan_piece(t, b, ly + 7, 2, dec3, Token::Hour, Token::Minute, padded_nat(hr as nat, 2), hr);
    }
    assert(s4 == s5) by {
        lemma_padded_reads(mi as nat, 2);
        lemma_scan_piece(t, b, ly + 10, 2, dec4, Token::Minute, Token::Second, padded_nat(mi as nat, 2), mi);
    }
}

/// The scan of a number of one to nine digits within a text, ended by the sign of a time
/// zone offset: see `lemma_scan_field_signed`.
proof fn lemma_signed_piece(
    t: Seq<char>,
    b: Seq<u8>,
    start: int,
    len: int,
    dec: Seq<i32>,
    tok: Token,
    piece: Seq<char>,
    v: int,
    plus: bool,
)
    requires
        b.len() == t.len(),
        forall|i: int| 0 <= i < t.len() ==> #[trigger] b[i] == t[i] as u8,
        forall|i: int| 0 <= i <= t.len() ==> is_char_boundary(b, i),
        1 <= len <= 9,
        0 <= start,
        start + len + 1 < t.len() - 1,
        t.subrange(start, start + len) == piece,
        forall|i: int| 0 <= i < len ==> '0' <= #[trigger] piece[i] <= '9',
        digits_value(piece) == v,
        t[start + len] == if plus {
            '+'
        } else {
            '-'
        },
        tok == Token::Second || tok == Token::Subsecond,
        token_value_ok(tok, v),
        stored_value(tok, v, len) == Some(v),
        0 <= v < 1_000_000_000,
    ensures
        scan_at(t, b, start, dec, start, tok) == signed_scan_at(
            t,
            b,
            start + len + 1,
            dec.update(token_position(tok)->Some_0 as int, v as i32),
            offset_sign(plus),
            start + len + 2,
            Token::OffsetHours,
        ),
{
    assert forall|i: int| start <= i < start + len implies '0' <= #[trigger] t[i] <= '9' by {
        assert(t[i] == piece[i - start]);
    }
    lemma_scan_field_signed(t, b, start, len, dec, TimeScale::UTC, 1, tok, v);
    reveal(scan_at);
    reveal(signed_scan_at);
}

/// The scan of a date and time followed by a time zone offset reads the second and its
/// fraction, up to the sign of the offset.
#[verifier::rlimit(100)]
proof fn lemma_offset_second_scan(p: (int, int, int, int, int, int, int), plus: bool, h: int, m: int)
    requires
        parts_in_range(p),
        p.5 <= 59,
        0 <= h <= 9,
        0 <= m <= 59,
    ensures
        ({
            let t = date_time_text(p) + offset_suffix(plus, h, m);
            let ly = year_text(p).len() as int;
            let d = date_time_text(p).len() as int;
            scan_at(
                t,
                encode_utf8(t),
                ly + 13,
                seq![p.0 as i32, p.1 as i32, p.2 as i32, p.3 as i32, p.4 as i32, 0i32, 0, 0, 0],
                ly + 13,
                Token::Second,
            ) == signed_scan_at(
                t,
                encode_utf8(t),
                d + 1,
                offset_numbers(p, 0, 0),
                offset_sign(plus),
                d + 2,
                Token::OffsetHours,
            )
        }),
{
    let o = offset_suffix(plus, h, m);
    let t = date_time_text(p) + o;
    lemma_date_time_layout(p, o);
    assert(is_ascii_chars(t)) by {
        lemma_offset_ascii(p, plus, h, m);
    }
    lemma_ascii_bytes(t);
    let b = encode_utf8(t);
    let ly = year_text(p).len() as int;
    let fl = frac_text(p).len() as int;
    let d = ly + 15 + fl;
    assert(t[d] == if plus {
        '+'
    } else {
        '-'
    }) by {
        lemma_offset_layout(plus, h, m);
        assert(t[d] == o[0]);
    }
    reveal_with_fuel(pow10, 10);
    let (sec, ns) = (p.5, p.6);
    let dec5 = seq![p.0 as i32, p.1 as i32, p.2 as i32, p.3 as i32, p.4 as i32, 0i32, 0, 0, 0];
    let dec6 = dec5.update(5, sec as i32);
    let deca = dec6.update(6, ns as i32);
    assert(deca =~= offset_numbers(p, 0, 0));
    let s5 = scan_at(t, b, ly + 13, dec5, ly + 13, Token::Second);
    let sa = signed_scan_at(t, b, d + 1, deca, offset_sign(plus), d + 2, Token::OffsetHours);
    if ns != 0 {
        let s6 = scan_at(t, b, ly + 16, dec6, ly + 16, Token::Subsecond);
        assert(s5 == s6) by {
            lemma_padded_reads(sec as nat, 2);
            lemma_scan_piece(t, b, ly + 13, 2, dec5, Token::Second, Token::Subsecond, padded_nat(sec as nat, 2), sec);
        }
        assert(s6 == sa) by {
            lemma_padded_reads(ns as nat, 9);
            lemma_signed_piece(t, b, ly + 16, 9, dec6, Token::Subsecond, padded_nat(ns as nat, 9), ns, plus);
        }
    } else {
        assert(dec6 =~= deca);
        assert(s5 == sa) by {
            lemma_padded_reads(sec as nat, 2);
            lemma_signed_piece(t, b, ly + 13, 2, dec5, Token::Second, padded_nat(sec as nat, 2), sec, plus);
        }
    }
}

/// The scan of a time zone offset after a date and time reads its hours and minutes and ends.
#[verifier::rlimit(60)]
proof fn lemma_offset_tail_scan(p: (int, int, int, int, int, int, int), plus: bool, h: int, m: int)
    requires
        parts_in_range(p),
        0 <= h <= 9,
        0 <= m <= 59,
    ensures
        ({
            let t = date_time_text(p) + offset_suffix(plus, h, m);
            let d = date_time_text(p).len() as int;
            signed_scan_at(
                t,
                encode_utf8(t),
                d + 1,
                offset_numbers(p, 0, 0),
                offset_sign(plus),
                d + 2,
                Token::OffsetHours,
            ) == Ok::<(Seq<i32>, TimeScale, int), Option<HifitimeError>>(
                (offset_numbers(p, h, m), TimeScale::UTC, offset_sign(plus)),
            )
        }),
{
    let o = offset_suffix(plus, h, m);
    let dt = date_time_text(p);
    let t = dt + o;
    lemma_offset_layout(plus, h, m);
    lemma_offset_ascii(p, plus, h, m);
    lemma_ascii_bytes(t);
    let b = encode_utf8(t);
    let d = dt.len() as int;
    reveal_with_fuel(pow10, 3);
    let sg = offset_sign(plus);
    let deca = offset_numbers(p, 0, 0);
    let decb = deca.update(7, h as i32);
    assert(decb.update(8, m as i32) =~= offset_numbers(p, h, m));
    assert(t.len() == d + 6);
    assert(t[d + 1] == o[1] && t[d + 3] == o[3]);
    assert(t.subrange(d + 2, d + 3) =~= o.subrange(2, 3));
    assert(t.subrange(d + 4, d + 6) =~= o.subrange(4, 6));
    let sa = signed_scan_at(t, b, d + 1, deca, sg, d + 2, Token::OffsetHours);
    let sb = signed_scan_at(t, b, d + 4, decb, sg, d + 4, Token::OffsetMinutes);
    assert(sa == sb) by {
        lemma_decimal_reads(h as nat);
        assert('0' <= t[d + 2] <= '9') by {
            assert(t[d + 2] == decimal(h as nat)[0]);
        }
        lemma_scan_skip(t, b, d + 1, d + 2, deca, TimeScale::UTC, sg, d + 2, Token::OffsetHours);
        lemma_scan_field(t, b, d + 2, 1, deca, TimeScale::UTC, sg, Token::OffsetHours, Token::OffsetMinutes, h);
        reveal(signed_scan_at);
    }
    assert(sb == Ok::<(Seq<i32>, TimeScale, int), Option<HifitimeError>>((offset_numbers(p, h, m), TimeScale::UTC, sg))) by {
        lemma_padded_reads(m as nat, 2);
        let piece = padded_nat(m as nat, 2);
        assert forall|i: int| d + 4 <= i < d + 6 implies '0' <= #[trigger] t[i] <= '9' by {
            assert(t[i] == piece[i - (d + 4)]);
        }
        lemma_scan_last_field(t, b, d + 4, decb, TimeScale::UTC, sg, Token::OffsetMinutes, m);
        reveal(signed_scan_at);
    }
}

/// The scan of a date and time followed by a time zone offset reads the numbers of the date
/// and time, then the offset hours and minutes with the sign of the offset.
proof fn lemma_offset_scan(p: (int, int, int, int, int, int, int), plus: bool, h: int, m: int)
    requires
        parts_in_range(p),
        1 <= p.1 <= 12,
        1 <= p.2 <= 31,
        p.3 <= 23,
        p.4 <= 59,
        p.5 <= 59,
        0 <= h <= 9,
        0 <= m <= 59,
    ensures
        trimmed(date_time_text(p) + offset_suffix(plus, h, m)) == date_time_text(p)
            + offset_suffix(plus, h, m),
        iso_date_scan(date_time_text(p) + offset_suffix(plus, h, m)) == Ok::<
            (Seq<i32>, TimeScale, int),
            Option<HifitimeError>,
        >((offset_numbers(p, h, m), TimeScale::UTC, offset_sign(plus))),
{
    let o = offset_suffix(plus, h, m);
    let dt = date_time_text(p);
    let t = dt + o;
    assert(is_ascii_chars(o)) by {
        lemma_offset_layout(plus, h, m);
    }
    lemma_date_scan(p, o);
    lemma_offset_second_scan(p, plus, h, m);
    lemma_offset_tail_scan(p, plus, h, m);
    assert(iso_date_scan(t) == scan_at(t, encode_utf8(t), 0, seq![0i32, 0, 0, 0, 0, 0, 0, 0, 0], 0, Token::Year)) by {
        reveal(scan_at);
    }
    lemma_offset_layout(plus, h, m);
    lemma_date_time_ascii(p);
    reveal(trimmed);
    assert(t[0] == dt[0]);
    assert(t.last() == o[5]);
    assert('0' <= o[5] <= '9') by {
        reveal_with_fuel(pow10, 3);
        lemma_padded_reads(m as nat, 2);
        assert(o[5] == o.subrange(4, 6)[1]);
    }
}

/// Reading a date and time followed by a time zone offset `+HH:MM` or `-HH:MM` as an ISO8601
/// date (`Epoch::from_gregorian_str`, which reads through `iso_date_scan` and `iso_epoch`):
/// the offset is read with its sign, which is negative exactly when the offset starts with a
/// `-`, and the epoch is the epoch of the same date and time read without an offset (with the
/// `UTC` time scale), shifted back by the offset. An offset of `+HH:MM` is HH hours and MM
/// minutes ahead of UTC, so these are taken away (`1994-11-05T18:15:30+05:00` is
/// `1994-11-05T13:15:30 UTC`); for `-HH:MM` they are added. This holds for offsets of zero to
/// nine hours, written `00` to `09`, and zero to fifty-nine minutes.
pub proof fn law_iso_offset(p: (int, int, int, int, int, int, int), plus: bool, h: int, m: int)
    requires
        parts_in_range(p),
        1 <= p.1 <= 12,
        1 <= p.2 <= 31,
        p.3 <= 23,
        p.4 <= 59,
        p.5 <= 59,
        0 <= h <= 9,
        0 <= m <= 59,
    ensures
        ({
            let t = date_time_text(p) + offset_suffix(plus, h, m);
            let dec0 = seq![
                p.0 as i32,
                p.1 as i32,
                p.2 as i32,
                p.3 as i32,
                p.4 as i32,
                p.5 as i32,
                p.6 as i32,
                0i32,
                0i32,
            ];
            let dec = seq![
                p.0 as i32,
                p.1 as i32,
                p.2 as i32,
                p.3 as i32,
                p.4 as i32,
                p.5 as i32,
                p.6 as i32,
                h as i32,
                m as i32,
            ];
            let sign: int = if plus {
                1
            } else {
                -1
            };
            let offset = h * 3_600_000_000_000 + m * 60_000_000_000;
            &&& trimmed(t) == t
            &&& iso_date_scan(t) == Ok::<(Seq<i32>, TimeScale, int), Option<HifitimeError>>(
                (dec, TimeScale::UTC, sign),
            )
            &&& iso_date_scan(parts_text(p, time_scale_name(TimeScale::UTC))) == Ok::<
                (Seq<i32>, TimeScale, int),
                Option<HifitimeError>,
            >((dec0, TimeScale::UTC, 1))
            &&& match iso_epoch(dec0, TimeScale::UTC, 1) {
                Ok(e0) => iso_epoch(dec, TimeScale::UTC, sign) == Ok::<Epoch, HifitimeError>(
                    Epoch {
                        duration: Duration::of_ns(
                            add_value(
                                e0.duration,
                                Duration::of_ns(
                                    if plus {
                                        -offset
                                    } else {
                                        offset
                                    },
                                ),
                            ),
                        ),
                        time_scale: TimeScale::UTC,
                    },
                ),
                Err(e) => iso_epoch(dec, TimeScale::UTC, sign) == Err::<Epoch, HifitimeError>(e),
            }
        }),
{
    lemma_offset_scan(p, plus, h, m);
    assert(offset_numbers(p, h, m) =~= seq![
        p.0 as i32,
        p.1 as i32,
        p.2 as i32,
        p.3 as i32,
        p.4 as i32,
        p.5 as i32,
        p.6 as i32,
        h as i32,
        m as i32,
    ]);
    lemma_text_scan(p, TimeScale::UTC);
    // The offset read is `h` hours and `m` minutes, and no offset is none.
    let hv = h * 3_600_000_000_000;
    let mv = m * 60_000_000_000;
    Duration::lemma_of_ns(hv);
    Duration::lemma_of_ns(mv);
    Duration::lemma_of_ns(0);
    lemma_shift(Duration::of_ns(hv), mv);
    lemma_shift(Duration::of_ns(0), 0);
    assert(crate::duration::clamp_ns(hv) == hv);
    assert(crate::duration::clamp_ns(mv) == mv);
    let dec0 = seq![p.0 as i32, p.1 as i32, p.2 as i32, p.3 as i32, p.4 as i32, p.5 as i32, p.6 as i32, 0i32, 0i32];
    match Epoch::gregorian_outcome(
        dec0[0],
        dec0[1] as u8,
        dec0[2] as u8,
        dec0[3] as u8,
        dec0[4] as u8,
        dec0[5] as u8,
        dec0[6] as u32,
        TimeScale::UTC,
    ) {
        Ok(ep) => {
            crate::duration::lemma_of_ns_any_wf(
                crate::epoch::gregorian_ns(
                    dec0[0] as int,
                    dec0[1] as u8 as int,
                    dec0[2] as u8 as int,
                    dec0[3] as u8 as int,
                    dec0[4] as u8 as int,
                    dec0[5] as u8 as int,
                    dec0[6] as u32 as int,
                    TimeScale::UTC,
                ),
            );
            assert(ep.duration.wf());
            ep.duration.lemma_range();
            lemma_shift(ep.duration, 0);
            crate::duration::lemma_of_ns_wf(ep.duration);
        },
        Err(_) => {},
    }
}

/// The two writings of ten to a power agree.
proof fn lemma_pow10_agree(k: nat)
    ensures
        crate::epoch_str::pow10(k) == pow10(k),
    decreases k,
{
    if k > 0 {
        lemma_pow10_agree((k - 1) as nat);
    }
}

/// The scan of a date and time whose seconds are followed by a fraction of one to nine
/// digits reads the fraction scaled to nanoseconds: see `law_iso_subsecond`.
#[verifier::rlimit(100)]
proof fn lemma_subsecond_scan(p: (int, int, int, int, int, int, int), frac: Seq<char>, ns: int)
    requires
        parts_in_range(p),
        1 <= p.1 <= 12,
        1 <= p.2 <= 31,
        p.3 <= 23,
        p.4 <= 59,
        p.5 <= 59,
        p.6 == 0,
        1 <= frac.len() <= 9,
        forall|i: int| 0 <= i < frac.len() ==> '0' <= #[trigger] frac[i] <= '9',
        0 <= digits_value(frac) < 1_000_000_000,
        ns == digits_value(frac) * crate::epoch_str::pow10((9 - frac.len()) as nat),
        0 <= ns < 1_000_000_000,
    ensures
        ({
            let t = date_time_text(p) + "."@ + frac;
            &&& trimmed(t) == t
            &&& iso_date_scan(t) == Ok::<(Seq<i32>, TimeScale, int), Option<HifitimeError>>(
                (
                    seq![
                        p.0 as i32,
                        p.1 as i32,
                        p.2 as i32,
                        p.3 as i32,
                        p.4 as i32,
                        p.5 as i32,
                        ns as i32,
                        0i32,
                        0i32,
                    ],
                    TimeScale::UTC,
                    1,
                ),
            )
        }),
{
    reveal_strlit(".");
    let rest = "."@ + frac;
    let t = date_time_text(p) + rest;
    assert(t == date_time_text(p) + "."@ + frac);
    let k = frac.len() as nat;
    let v = digits_value(frac);
    assert(is_ascii_chars(rest)) by {
        lemma_digits_ascii(frac);
        lemma_ascii_concat("."@, frac);
    }
    lemma_date_scan(p, rest);
    lemma_date_time_layout(p, rest);
    assert(is_ascii_chars(t)) by {
        lemma_date_time_ascii(p);
        lemma_ascii_concat(date_time_text(p), rest);
    }
    lemma_ascii_bytes(t);
    let b = encode_utf8(t);
    let ly = year_text(p).len() as int;
    let sec = p.5;
    reveal_with_fuel(pow10, 3);
    assert(t[ly + 15] == '.') by {
        assert(t.subrange(ly + 15, t.len() as int)[0] == t[ly + 15]);
    }
    assert(t.subrange(ly + 16, t.len() as int) =~= frac);
    let dec5 = seq![p.0 as i32, p.1 as i32, p.2 as i32, p.3 as i32, p.4 as i32, 0i32, 0, 0, 0];
    let dec6 = dec5.update(5, sec as i32);
    assert(dec6.update(6, ns as i32) =~= seq![
        p.0 as i32,
        p.1 as i32,
        p.2 as i32,
        p.3 as i32,
        p.4 as i32,
        p.5 as i32,
        ns as i32,
        0i32,
        0i32,
    ]);
    let s5 = scan_at(t, b, ly + 13, dec5, ly + 13, Token::Second);
    let s6 = scan_at(t, b, ly + 16, dec6, ly + 16, Token::Subsecond);
    assert(s5 == s6) by {
        lemma_padded_reads(sec as nat, 2);
        lemma_scan_piece(t, b, ly + 13, 2, dec5, Token::Second, Token::Subsecond, padded_nat(sec as nat, 2), sec);
    }
    assert(s6 == Ok::<(Seq<i32>, TimeScale, int), Option<HifitimeError>>(
        (dec6.update(6, ns as i32), TimeScale::UTC, 1),
    )) by {
        assert forall|i: int| ly + 16 <= i < t.len() implies '0' <= #[trigger] t[i] <= '9' by {
            assert(t[i] == frac[i - (ly + 16)]);
        }
        if k == 9 {
            assert(crate::epoch_str::pow10(0) == 1);
        }
        assert(digits_value(t.subrange(ly + 16, t.len() as int)) == v);
        lemma_scan_last_field(t, b, ly + 16, dec6, TimeScale::UTC, 1, Token::Subsecond, ns);
        reveal(scan_at);
    }
    assert(iso_date_scan(t) == scan_at(t, b, 0, seq![0i32, 0, 0, 0, 0, 0, 0, 0, 0], 0, Token::Year)) by {
        reveal(scan_at);
    }
    reveal(trimmed);
    assert('0' <= t[0] <= '9') by {
        lemma_date_time_ascii(p);
        assert(t[0] == date_time_text(p)[0]);
    }
    assert(t.last() == frac.last());
}

/// Reading a date and time whose seconds are followed by a fraction of one to nine digits as
/// an ISO8601 date (`Epoch::from_gregorian_str`): the fraction is read as nanoseconds, its
/// value `v` of `k` digits stored as `v` times ten to the power `9 - k`, less than a second
/// (`.811` is 811000000 nanoseconds and `.000000811` is 811).
pub proof fn law_iso_subsecond(p: (int, int, int, int, int, int, int), frac: Seq<char>)
    requires
        parts_in_range(p),
        1 <= p.1 <= 12,
        1 <= p.2 <= 31,
        p.3 <= 23,
        p.4 <= 59,
        p.5 <= 59,
        p.6 == 0,
        1 <= frac.len() <= 9,
        forall|i: int| 0 <= i < frac.len() ==> '0' <= #[trigger] frac[i] <= '9',
    ensures
        ({
            let t = date_time_text(p) + "."@ + frac;
            let ns = digits_value(frac) * crate::epoch_str::pow10((9 - frac.len()) as nat);
            &&& 0 <= ns < 1_000_000_000
            &&& trimmed(t) == t
            &&& iso_date_scan(t) == Ok::<(Seq<i32>, TimeScale, int), Option<HifitimeError>>(
                (
                    seq![
                        p.0 as i32,
                        p.1 as i32,
                        p.2 as i32,
                        p.3 as i32,
                        p.4 as i32,
                        p.5 as i32,
                        ns as i32,
                        0i32,
                        0i32,
                    ],
                    TimeScale::UTC,
                    1,
                ),
            )
        }),
{
    let k = frac.len() as nat;
    let v = digits_value(frac);
    let ns = v * crate::epoch_str::pow10((9 - k) as nat);
    // The value of the fraction scaled to nanoseconds is less than a second.
    assert(0 <= ns < 1_000_000_000) by {
        lemma_digits_value_bound(frac);
        lemma_pow10_agree(k);
        crate::epoch_str::lemma_pow10_add(k, (9 - k) as nat);
        crate::epoch_str::lemma_pow10_positive((9 - k) as nat);
        assert(crate::epoch_str::pow10(9) == 1_000_000_000) by {
            reveal_with_fuel(crate::epoch_str::pow10, 10);
        }
        assert(0 <= v * crate::epoch_str::pow10((9 - k) as nat) < crate::epoch_str::pow10(k)
            * crate::epoch_str::pow10((9 - k) as nat)) by (nonlinear_arith)
            requires
                0 <= v < crate::epoch_str::pow10(k),
                crate::epoch_str::pow10((9 - k) as nat) >= 1,
        ;
    }
    assert(0 <= v < 1_000_000_000) by {
        lemma_digits_value_bound(frac);
        lemma_pow10_mono(k, 9);
        reveal_with_fuel(pow10, 10);
    }
    lemma_subsecond_scan(p, frac, ns);
}

/// The characters of an ASCII text each start at their own index.
proof fn lemma_ascii_pairs(t: Seq<char>)
    requires
        is_ascii_chars(t),
        t.len() <= usize::MAX,
    ensures
        char_pairs(t).len() == t.len(),
        forall|k: int|
            0 <= k < t.len() ==> (#[trigger] char_pairs(t)[k]).0 == k && char_pairs(t)[k].1 == t[k],
{
    assert forall|k: int| 0 <= k < t.len() implies (#[trigger] char_pairs(t)[k]).0 == k
        && char_pairs(t)[k].1 == t[k] by {
        let u = t.take(k);
        assert(is_ascii_chars(u)) by {
            assert forall|i: int| 0 <= i < u.len() implies '\0' <= #[trigger] u[i] <= '\u{7f}' by {
                assert(u[i] == t[i]);
            }
        }
        vstd::utf8::is_ascii_chars_encode_utf8(u);
        assert(encode_utf8(u).len() == k);
    }
}

/// Whether the pairs and bytes are those of an ASCII text: each character at its own index,
/// its byte the character, a character boundary at every index.
spec fn ascii_scan_input(p: Seq<(usize, char)>, b: Seq<u8>) -> bool {
    &&& p.len() == b.len()
    &&& forall|i: int| 0 <= i < p.len() ==> (#[trigger] p[i]).0 == i
    &&& forall|i: int| 0 <= i < p.len() ==> #[trigger] b[i] == p[i].1 as u8
    &&& forall|i: int| 0 <= i <= b.len() ==> is_char_boundary(b, i)
}

/// An ASCII text is an ASCII scan input.
proof fn lemma_ascii_scan_input(t: Seq<char>)
    requires
        is_ascii_chars(t),
        t.len() <= usize::MAX,
    ensures
        ascii_scan_input(char_pairs(t), encode_utf8(t)),
{
    lemma_ascii_pairs(t);
    lemma_ascii_bytes(t);
    let p = char_pairs(t);
    assert forall|i: int| 0 <= i < p.len() implies #[trigger] encode_utf8(t)[i] == p[i].1 as u8 by {
        assert(p[i].1 == t[i]);
    }
}

/// The format scan passes over the digits of a numeric token.
proof fn lemma_fscan_skip(
    items: Seq<Option<Item>>,
    num: int,
    p: Seq<(usize, char)>,
    b: Seq<u8>,
    k: int,
    j: int,
    fields: ScanFields,
    prev_idx: int,
    cur_idx: int,
    cur: Item,
    prev: Item,
)
    requires
        ascii_scan_input(p, b),
        0 <= k <= j < p.len() - 1,
        forall|i: int| k <= i < j ==> '0' <= (#[trigger] p[i]).1 <= '9',
        token_is_numeric(cur.token),
    ensures
        format_scan(items, num, p, b, k, fields, prev_idx, cur_idx, cur, prev) == format_scan(
            items,
            num,
            p,
            b,
            j,
            fields,
            prev_idx,
            cur_idx,
            cur,
            prev,
        ),
    decreases j - k,
{
    reveal(numeric_char);
    if k < j {
        assert('0' <= p[k].1 <= '9');
        assert(p[k].0 == k);
        lemma_fscan_skip(items, num, p, b, k + 1, j, fields, prev_idx, cur_idx, cur, prev);
    }
}

/// The format scan of a number of one to nine digits ended by the separator of its item
/// reads the number and goes on with the next item after the separator.
proof fn lemma_fscan_field(
    items: Seq<Option<Item>>,
    num: int,
    p: Seq<(usize, char)>,
    b: Seq<u8>,
    start: int,
    len: int,
    fields: ScanFields,
    f2: ScanFields,
    ci: int,
    cur: Item,
    prev: Item,
    next: Item,
)
    requires
        ascii_scan_input(p, b),
        1 <= len <= 9,
        0 <= start,
        start + len < p.len() - 1,
        forall|i: int| start <= i < start + len ==> '0' <= (#[trigger] p[i]).1 <= '9',
        (p[start + len].1 as u32) < 128,
        !('0' <= p[start + len].1 <= '9'),
        p[start + len].1 != 'Z',
        cur.sep_char == Some(p[start + len].1),
        token_is_numeric(cur.token),
        cur.token != Token::Timescale,
        0 <= ci < num,
        ci + 1 < MAX_TOKENS,
        items.len() == MAX_TOKENS,
        items[ci + 1] == Some(next),
        next.token != Token::OffsetHours,
        format_value(cur.token, b.subrange(start, start + len), start, start + len, fields)
            == Ok::<ScanFields, Option<HifitimeError>>(f2),
    ensures
        format_scan(items, num, p, b, start, fields, start, ci, cur, prev) == format_scan(
            items,
            num,
            p,
            b,
            start + len + 1,
            f2,
            start + len + 1,
            ci + 1,
            next,
            cur,
        ),
{
    reveal(numeric_char);
    lemma_fscan_skip(items, num, p, b, start, start + len, fields, start, ci, cur, prev);
    assert(p[start + len].0 == start + len);
    assert(!numeric_char(p[start + len].1));
}

/// The format scan of the rest of a text made of letters, after a time scale item has
/// begun, ends with the fields read so far.
proof fn lemma_fscan_tail(
    items: Seq<Option<Item>>,
    num: int,
    p: Seq<(usize, char)>,
    b: Seq<u8>,
    k: int,
    fields: ScanFields,
    cur_idx: int,
    cur: Item,
    prev: Item,
)
    requires
        ascii_scan_input(p, b),
        0 <= k <= p.len(),
        forall|i: int| k <= i < p.len() ==> 'A' <= (#[trigger] p[i]).1 <= 'Z',
        cur.token == Token::Timescale,
        prev.second_sep_char is None,
    ensures
        format_scan(items, num, p, b, k, fields, k, cur_idx, cur, prev).1 == Ok::<
            ScanFields,
            Option<HifitimeError>,
        >(fields),
    decreases p.len() - k,
{
    reveal(numeric_char);
    if k < p.len() {
        assert('A' <= p[k].1 <= 'Z');
        assert(p[k].0 == k);
        assert(!numeric_char(p[k].1));
        lemma_fscan_tail(items, num, p, b, k + 1, fields, cur_idx, cur, prev);
    }
}

/// Reading an integer field of one to nine digits with a format stores its value.
proof fn lemma_format_value_int(
    tok: Token,
    c: Seq<char>,
    sub: Seq<u8>,
    a: int,
    fields: ScanFields,
)
    requires
        tok == Token::Year || tok == Token::Month || tok == Token::Day || tok == Token::Hour
            || tok == Token::Minute || tok == Token::Second,
        1 <= c.len() <= 9,
        sub.len() == c.len(),
        forall|i: int| 0 <= i < c.len() ==> '0' <= #[trigger] c[i] <= '9',
        forall|i: int| 0 <= i < c.len() ==> #[trigger] sub[i] == c[i] as u8,
        token_value_ok(tok, digits_value(c)),
    ensures
        format_value(tok, sub, a, a + c.len(), fields) == Ok::<ScanFields, Option<HifitimeError>>(
            (
                fields.0.update(token_position(tok)->Some_0 as int, digits_value(c) as i32),
                fields.1,
                fields.2,
                fields.3,
                fields.4,
            ),
        ),
{
    lemma_bytes_read(c, sub);
    assert(digits_value(c) < 1_000_000_000) by {
        lemma_digits_value_bound(c);
        lemma_pow10_mono(c.len(), 9);
        reveal_with_fuel(pow10, 10);
    }
    crate::numeric::lemma_lexical_i32_digits(sub);
}

/// The items of the ISO8601 format (`iso8601()`): `%Y-%m-%dT%H:%M:%S.%f %T`.
pub open spec fn iso8601_items() -> Seq<Item> {
    seq![
        item_of(Token::Year, Some('-'), None),
        item_of(Token::Month, Some('-'), None),
        item_of(Token::Day, Some('T'), None),
        item_of(Token::Hour, Some(':'), None),
        item_of(Token::Minute, Some(':'), None),
        item_of(Token::Second, Some('.'), None),
        item_of(Token::Subsecond, Some(' '), None),
        item_of(Token::Timescale, None, None),
    ]
}

/// The fields after an integer of a date is read into its position.
spec fn with_number(f: ScanFields, pos: int, v: int) -> ScanFields {
    (f.0.update(pos, v as i32), f.1, f.2, f.3, f.4)
}

/// The format scan of an integer field of a date (year to second) of one to nine digits
/// ended by its separator, in an ASCII text.
proof fn lemma_fscan_int_field(
    items: Seq<Option<Item>>,
    num: int,
    t: Seq<char>,
    start: int,
    len: int,
    fields: ScanFields,
    ci: int,
    cur: Item,
    prev: Item,
    next: Item,
)
    requires
        ascii_scan_input(char_pairs(t), encode_utf8(t)),
        forall|i: int| 0 <= i < t.len() ==> (#[trigger] char_pairs(t)[i]).1 == t[i],
        1 <= len <= 9,
        0 <= start,
        start + len < t.len() - 1,
        forall|i: int| start <= i < start + len ==> '0' <= #[trigger] t[i] <= '9',
        (t[start + len] as u32) < 128,
        !('0' <= t[start + len] <= '9'),
        t[start + len] != 'Z',
        cur.sep_char == Some(t[start + len]),
        cur.token == Token::Year || cur.token == Token::Month || cur.token == Token::Day
            || cur.token == Token::Hour || cur.token == Token::Minute || cur.token
            == Token::Second,
        token_value_ok(cur.token, digits_value(t.subrange(start, start + len))),
        0 <= ci < num,
        ci + 1 < MAX_TOKENS,
        items.len() == MAX_TOKENS,
        items[ci + 1] == Some(next),
        next.token != Token::OffsetHours,
    ensures
        format_scan(items, num, char_pairs(t), encode_utf8(t), start, fields, start, ci, cur, prev)
            == format_scan(
            items,
            num,
            char_pairs(t),
            encode_utf8(t),
            start + len + 1,
            with_number(
                fields,
                token_position(cur.token)->Some_0 as int,
                digits_value(t.subrange(start, start + len)),
            ),
            start + len + 1,
            ci + 1,
            next,
            cur,
        ),
{
    let pr = char_pairs(t);
    let b = encode_utf8(t);
    let c = t.subrange(start, start + len);
    let sub = b.subrange(start, start + len);
    assert forall|i: int| 0 <= i < c.len() implies '0' <= #[trigger] c[i] <= '9' by {
        assert(c[i] == t[start + i]);
    }
    assert forall|i: int| 0 <= i < c.len() implies #[trigger] sub[i] == c[i] as u8 by {
        assert(sub[i] == b[start + i]);
        assert(pr[start + i].1 == t[start + i]);
    }
    lemma_format_value_int(cur.token, c, sub, start, fields);
    assert forall|i: int| start <= i < start + len implies '0' <= (#[trigger] pr[i]).1 <= '9' by {
        assert(pr[i].1 == t[i]);
    }
    assert(pr[start + len].1 == t[start + len]);
    lemma_fscan_field(
        items,
        num,
        pr,
        b,
        start,
        len,
        fields,
        with_number(fields, token_position(cur.token)->Some_0 as int, digits_value(c)),
        ci,
        cur,
        prev,
        next,
    );
}

/// The text of a date and time with a fraction of a second and the UTC time scale, as the
/// ISO8601 format writes it.
pub open spec fn fraction_text(p: (int, int, int, int, int, int, int), frac: Seq<char>) -> Seq<char> {
    date_time_text(p) + "."@ + frac + " UTC"@
}

/// Where the pieces of a date and time with a fraction of a second lie, and that the text is
/// ASCII.
proof fn lemma_fraction_layout(p: (int, int, int, int, int, int, int), frac: Seq<char>)
    requires
        parts_in_range(p),
        p.6 == 0,
        1 <= frac.len() <= 9,
        forall|i: int| 0 <= i < frac.len() ==> '0' <= #[trigger] frac[i] <= '9',
    ensures
        ({
            let t = fraction_text(p, frac);
            let ly = year_text(p).len() as int;
            let k = frac.len() as int;
            &&& is_ascii_chars(t)
            &&& 1 <= ly <= 9
            &&& t.len() == ly + 20 + k
            &&& t[ly + 15] == '.'
            &&& t.subrange(ly + 16, ly + 16 + k) == frac
            &&& t[ly + 16 + k] == ' '
            &&& forall|i: int| ly + 17 + k <= i < t.len() ==> 'A' <= #[trigger] t[i] <= 'Z'
            &&& trimmed(t) == t
        }),
{
    reveal_strlit(".");
    reveal_strlit(" UTC");
    let rest = "."@ + frac + " UTC"@;
    let t = date_time_text(p) + rest;
    assert(t =~= fraction_text(p, frac));
    lemma_date_time_layout(p, rest);
    let ly = year_text(p).len() as int;
    let k = frac.len() as int;
    assert(t.subrange(ly + 15, t.len() as int) == rest);
    assert(t[ly + 15] == rest[0]);
    assert(t.subrange(ly + 16, ly + 16 + k) =~= frac);
    assert(t[ly + 16 + k] == rest[k + 1]);
    assert forall|i: int| ly + 17 + k <= i < t.len() implies 'A' <= #[trigger] t[i] <= 'Z' by {
        assert(t[i] == rest[i - ly - 15]);
    }
    assert(is_ascii_chars(t)) by {
        lemma_digits_ascii(frac);
        lemma_ascii_concat("."@, frac);
        lemma_ascii_concat("."@ + frac, " UTC"@);
        lemma_date_time_ascii(p);
        lemma_ascii_concat(date_time_text(p), rest);
    }
    reveal(trimmed);
    assert('0' <= t[0] <= '9') by {
        lemma_date_time_ascii(p);
        assert(t[0] == date_time_text(p)[0]);
    }
    assert(t.last() == 'C');
}

/// The fields read from a date whose year, month, day, hour and minute are those of `p`,
/// with `sec` seconds and `ns` nanoseconds, in UTC and without offset.
spec fn date_fields(p: (int, int, int, int, int, int, int), sec: int, ns: int) -> ScanFields {
    (
        seq![
            p.0 as i32,
            p.1 as i32,
            p.2 as i32,
            p.3 as i32,
            p.4 as i32,
            sec as i32,
            ns as i32,
            0i32,
            0,
            0,
            0,
            0,
            0,
            0,
            0,
            0,
        ],
        TimeScale::UTC,
        1,
        None,
        None,
    )
}

/// Whether the item slots hold the items of the ISO8601 format.
spec fn iso8601_slots(items: Seq<Option<Item>>) -> bool {
    &&& items.len() == MAX_TOKENS
    &&& forall|i: int| 0 <= i < 8 ==> #[trigger] items[i] == Some(iso8601_items()[i])
}

/// The format scan of a date and time with a fraction of a second by the ISO8601 format
/// reads the year, month, day, hour and minute.
#[verifier::rlimit(100)]
proof fn lemma_fraction_date_fscan(
    items: Seq<Option<Item>>,
    p: (int, int, int, int, int, int, int),
    frac: Seq<char>,
)
    requires
        iso8601_slots(items),
        parts_in_range(p),
        1 <= p.1 <= 12,
        1 <= p.2 <= 31,
        p.3 <= 23,
        p.4 <= 59,
        p.6 == 0,
        1 <= frac.len() <= 9,
        forall|i: int| 0 <= i < frac.len() ==> '0' <= #[trigger] frac[i] <= '9',
    ensures
        ({
            let t = fraction_text(p, frac);
            let ly = year_text(p).len() as int;
            let it = iso8601_items();
            format_scan(items, 8, char_pairs(t), encode_utf8(t), 0, initial_fields(), 0, 0, it[0], it[0])
                == format_scan(
                items,
                8,
                char_pairs(t),
                encode_utf8(t),
                ly + 13,
                date_fields(p, 0, 0),
                ly + 13,
                5,
                it[5],
                it[4],
            )
        }),
{
    let t = fraction_text(p, frac);
    let rest = "."@ + frac + " UTC"@;
    assert(t =~= date_time_text(p) + rest);
    lemma_fraction_layout(p, frac);
    lemma_date_time_layout(p, rest);
    lemma_ascii_pairs(t);
    lemma_ascii_scan_input(t);
    let it = iso8601_items();
    let pr = char_pairs(t);
    let b = encode_utf8(t);
    let ly = year_text(p).len() as int;
    reveal_with_fuel(pow10, 3);
    let (y, mo, day, hr, mi) = (p.0, p.1, p.2, p.3, p.4);
    let f0 = initial_fields();
    let f1 = with_number(f0, 0, y);
    let f2 = with_number(f1, 1, mo);
    let f3 = with_number(f2, 2, day);
    let f4 = with_number(f3, 3, hr);
    let f5 = with_number(f4, 4, mi);
    assert(f5.0 =~= date_fields(p, 0, 0).0);
    assert(items[1] == Some(it[1]) && items[2] == Some(it[2]) && items[3] == Some(it[3])
        && items[4] == Some(it[4]) && items[5] == Some(it[5]));
    assert(format_scan(items, 8, pr, b, 0, f0, 0, 0, it[0], it[0]) == format_scan(items, 8, pr, b, ly + 1, f1, ly + 1, 1, it[1], it[0])) by {
        lemma_padded_general(y as nat, 4);
        assert forall|i: int| 0 <= i < ly implies '0' <= #[trigger] t[i] <= '9' by {
            assert(t[i] == year_text(p)[i]);
        }
        lemma_fscan_int_field(items, 8, t, 0, ly, f0, 0, it[0], it[0], it[1]);
    }
    assert(format_scan(items, 8, pr, b, ly + 1, f1, ly + 1, 1, it[1], it[0]) == format_scan(items, 8, pr, b, ly + 4, f2, ly + 4, 2, it[2], it[1])) by {
        lemma_padded_reads(mo as nat, 2);
        let piece = padded_nat(mo as nat, 2);
        assert forall|i: int| ly + 1 <= i < ly + 3 implies '0' <= #[trigger] t[i] <= '9' by {
            assert(t[i] == piece[i - (ly + 1)]);
        }
        lemma_fscan_int_field(items, 8, t, ly + 1, 2, f1, 1, it[1], it[0], it[2]);
    }
    assert(format_scan(items, 8, pr, b, ly + 4, f2, ly + 4, 2, it[2], it[1]) == format_scan(items, 8, pr, b, ly + 7, f3, ly + 7, 3, it[3], it[2])) by {
        lemma_padded_reads(day as nat, 2);
        let piece = padded_nat(day as nat, 2);
        assert forall|i: int| ly + 4 <= i < ly + 6 implies '0' <= #[trigger] t[i] <= '9' by {
            assert(t[i] == piece[i - (ly + 4)]);
        }
        lemma_fscan_int_field(items, 8, t, ly + 4, 2, f2, 2, it[2], it[1], it[3]);
    }
    assert(format_scan(items, 8, pr, b, ly + 7, f3, ly + 7, 3, it[3], it[2]) == format_scan(items, 8, pr, b, ly + 10, f4, ly + 10, 4, it[4], it[3])) by {
        lemma_padded_reads(hr as nat, 2);
        let piece = padded_nat(hr as nat, 2);
        assert forall|i: int| ly + 7 <= i < ly + 9 implies '0' <= #[trigger] t[i] <= '9' by {
            assert(t[i] == piece[i - (ly + 7)]);
        }
        lemma_fscan_int_field(items, 8, t, ly + 7, 2, f3, 3, it[3], it[2], it[4]);
    }
    assert(format_scan(items, 8, pr, b, ly + 10, f4, ly + 10, 4, it[4], it[3]) == format_scan(items, 8, pr, b, ly + 13, f5, ly + 13, 5, it[5], it[4])) by {
        lemma_padded_reads(mi as nat, 2);
        let piece = padded_nat(mi as nat, 2);
        assert forall|i: int| ly + 10 <= i < ly + 12 implies '0' <= #[trigger] t[i] <= '9' by {
            assert(t[i] == piece[i - (ly + 10)]);
        }
        lemma_fscan_int_field(items, 8, t, ly + 10, 2, f4, 4, it[4], it[3], it[5]);
    }
}

/// The format scan of the fraction of a second of a date and time by the ISO8601 format reads
/// it scaled to nanoseconds and goes on with the time scale.
#[verifier::rlimit(100)]
proof fn lemma_fraction_frac_fscan(
    items: Seq<Option<Item>>,
    p: (int, int, int, int, int, int, int),
    frac: Seq<char>,
)
    requires
        iso8601_slots(items),
        parts_in_range(p),
        p.5 <= 59,
        p.6 == 0,
        1 <= frac.len() <= 9,
        forall|i: int| 0 <= i < frac.len() ==> '0' <= #[trigger] frac[i] <= '9',
    ensures
        ({
            let t = fraction_text(p, frac);
            let ly = year_text(p).len() as int;
            let k = frac.len() as int;
            let it = iso8601_items();
            let ns = digits_value(frac) * crate::epoch_str::pow10((9 - frac.len()) as nat);
            format_scan(
                items,
                8,
                char_pairs(t),
                encode_utf8(t),
                ly + 16,
                date_fields(p, p.5, 0),
                ly + 16,
                6,
                it[6],
                it[5],
            ) == format_scan(
                items,
                8,
                char_pairs(t),
                encode_utf8(t),
                ly + 17 + k,
                date_fields(p, p.5, ns),
                ly + 17 + k,
                7,
                it[7],
                it[6],
            )
        }),
{
    let t = fraction_text(p, frac);
    lemma_fraction_layout(p, frac);
    lemma_ascii_pairs(t);
    lemma_ascii_scan_input(t);
    let it = iso8601_items();
    let pr = char_pairs(t);
    let b = encode_utf8(t);
    let ly = year_text(p).len() as int;
    let k = frac.len() as int;
    let f6 = date_fields(p, p.5, 0);
    let sub = b.subrange(ly + 16, ly + 16 + k);
    assert forall|i: int| 0 <= i < k implies #[trigger] sub[i] == frac[i] as u8 by {
        assert(sub[i] == b[ly + 16 + i]);
        assert(pr[ly + 16 + i].1 == t[ly + 16 + i]);
        assert(t[ly + 16 + i] == t.subrange(ly + 16, ly + 16 + k)[i]);
    }
    lemma_bytes_read(frac, sub);
    law_subsecond_nanoseconds(sub, ly + 16, f6);
    let ns = digits_value(frac) * crate::epoch_str::pow10((9 - k) as nat);
    let f7 = (f6.0.update(6, ns as i32), f6.1, f6.2, f6.3, f6.4);
    assert(f7.0 =~= date_fields(p, p.5, ns).0);
    assert(items[7] == Some(it[7]));
    assert forall|i: int| ly + 16 <= i < ly + 16 + k implies '0' <= (#[trigger] pr[i]).1 <= '9' by {
        assert(pr[i].1 == t[i]);
        assert(t[i] == t.subrange(ly + 16, ly + 16 + k)[i - (ly + 16)]);
    }
    assert(pr[ly + 16 + k].1 == ' ');
    lemma_fscan_field(items, 8, pr, b, ly + 16, k, f6, f7, 6, it[6], it[5], it[7]);
}

/// The format scan of a date and time with a fraction of a second by the ISO8601 format
/// reads the second and the fraction, scaled to nanoseconds, and ends at the time scale.
#[verifier::rlimit(100)]
proof fn lemma_fraction_second_fscan(
    items: Seq<Option<Item>>,
    p: (int, int, int, int, int, int, int),
    frac: Seq<char>,
)
    requires
        iso8601_slots(items),
        parts_in_range(p),
        p.5 <= 59,
        p.6 == 0,
        1 <= frac.len() <= 9,
        forall|i: int| 0 <= i < frac.len() ==> '0' <= #[trigger] frac[i] <= '9',
    ensures
        ({
            let t = fraction_text(p, frac);
            let ly = year_text(p).len() as int;
            let it = iso8601_items();
            let ns = digits_value(frac) * crate::epoch_str::pow10((9 - frac.len()) as nat);
            format_scan(
                items,
                8,
                char_pairs(t),
                encode_utf8(t),
                ly + 13,
                date_fields(p, 0, 0),
                ly + 13,
                5,
                it[5],
                it[4],
            ).1 == Ok::<ScanFields, Option<HifitimeError>>(date_fields(p, p.5, ns))
        }),
{
    let t = fraction_text(p, frac);
    lemma_fraction_layout(p, frac);
    lemma_ascii_pairs(t);
    lemma_ascii_scan_input(t);
    let it = iso8601_items();
    let pr = char_pairs(t);
    let b = encode_utf8(t);
    let ly = year_text(p).len() as int;
    let k = frac.len() as int;
    let sec = p.5;
    let f5 = date_fields(p, 0, 0);
    let f6 = with_number(f5, 5, sec);
    assert(f6.0 =~= date_fields(p, sec, 0).0);
    let ns = digits_value(frac) * crate::epoch_str::pow10((9 - k) as nat);
    assert(format_scan(items, 8, pr, b, ly + 13, f5, ly + 13, 5, it[5], it[4]) == format_scan(items, 8, pr, b, ly + 16, f6, ly + 16, 6, it[6], it[5])) by {
        let rest = "."@ + frac + " UTC"@;
        assert(t =~= date_time_text(p) + rest);
        lemma_date_time_layout(p, rest);
        assert(items[6] == Some(it[6]));
        reveal_with_fuel(pow10, 3);
        lemma_padded_reads(sec as nat, 2);
        let piece = padded_nat(sec as nat, 2);
        assert forall|i: int| ly + 13 <= i < ly + 15 implies '0' <= #[trigger] t[i] <= '9' by {
            assert(t[i] == piece[i - (ly + 13)]);
        }
        lemma_fscan_int_field(items, 8, t, ly + 13, 2, f5, 5, it[5], it[4], it[6]);
    }
    lemma_fraction_frac_fscan(items, p, frac);
    assert forall|i: int| ly + 17 + k <= i < pr.len() implies 'A' <= (#[trigger] pr[i]).1 <= 'Z' by {
        assert(pr[i].1 == t[i]);
    }
    lemma_fscan_tail(items, 8, pr, b, ly + 17 + k, date_fields(p, sec, ns), 7, it[7], it[6]);
}

/// Reading a date and time with a fraction of one to nine digits and the UTC time scale with
/// the ISO8601 format (`%Y-%m-%dT%H:%M:%S.%f %T`, `Format::parse_fields` then
/// `FormatFields::gregorian_epoch`): the year, month, day, hour, minute and second are read as
/// written, and the fraction is read as nanoseconds, its value `v` of `k` digits stored as
/// `v` times ten to the power `9 - k` (so `2017-01-14T00:31:55.811 UTC` has 811000000
/// nanoseconds).
pub proof fn law_iso8601_format_fraction(f: Format, p: (int, int, int, int, int, int, int), frac: Seq<char>)
    requires
        f.wf(),
        f.spec_items() == iso8601_items(),
        parts_in_range(p),
        1 <= p.1 <= 12,
        1 <= p.2 <= 31,
        p.3 <= 23,
        p.4 <= 59,
        p.5 <= 59,
        p.6 == 0,
        1 <= frac.len() <= 9,
        forall|i: int| 0 <= i < frac.len() ==> '0' <= #[trigger] frac[i] <= '9',
    ensures
        format_read(f, fraction_text(p, frac)).1 == Ok::<ScanFields, Option<HifitimeError>>(
            (
                seq![
                    p.0 as i32,
                    p.1 as i32,
                    p.2 as i32,
                    p.3 as i32,
                    p.4 as i32,
                    p.5 as i32,
                    (digits_value(frac) * crate::epoch_str::pow10((9 - frac.len()) as nat)) as i32,
                    0i32,
                    0,
                    0,
                    0,
                    0,
                    0,
                    0,
                    0,
                    0,
                ],
                TimeScale::UTC,
                1,
                None,
                None,
            ),
        ),
{
    f.law_format_wf();
    let items = f.spec_slots();
    assert(iso8601_slots(items)) by {
        assert forall|i: int| 0 <= i < 8 implies #[trigger] items[i] == Some(iso8601_items()[i]) by {
            assert(items[i] == Some(f.spec_items()[i]));
        }
    }
    lemma_fraction_layout(p, frac);
    lemma_fraction_date_fscan(items, p, frac);
    lemma_fraction_second_fscan(items, p, frac);
    assert(items[0] == Some(iso8601_items()[0]));
}

} // verus!
