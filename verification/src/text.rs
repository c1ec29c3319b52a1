use vstd::prelude::*;
use vstd::utf8::encode_utf8;

verus! {

/// Whether a character is white space: it has the Unicode property `White_Space`, which is
/// what `str::trim` removes (tabs, line and page breaks, spaces of every width, and the line
/// and paragraph separators).
pub open spec fn white_space(c: char) -> bool {
    ('\u{9}' <= c && c <= '\u{d}') || c == ' ' || c == '\u{85}' || c == '\u{a0}' || c
        == '\u{1680}' || ('\u{2000}' <= c && c <= '\u{200a}') || c == '\u{2028}' || c
        == '\u{2029}' || c == '\u{202f}' || c == '\u{205f}' || c == '\u{3000}'
}

/// The number of white space characters that begin the text.
pub open spec fn leading_white(s: Seq<char>) -> nat
    decreases s.len(),
{
    if s.len() > 0 && white_space(s[0]) {
        1 + leading_white(s.drop_first())
    } else {
        0
    }
}

/// The number of white space characters that end the text.
pub open spec fn trailing_white(s: Seq<char>) -> nat
    decreases s.len(),
{
    if s.len() > 0 && white_space(s.last()) {
        1 + trailing_white(s.drop_last())
    } else {
        0
    }
}

/// The text without the white space that begins it, then without the white space that ends
/// what is left.
pub open spec fn strip_white(s: Seq<char>) -> Seq<char> {
    let t = s.subrange(leading_white(s) as int, s.len() as int);
    t.subrange(0, t.len() - trailing_white(t))
}

/// Whether a character is a visible ASCII character (from `!` to `~`), which is not white
/// space.
pub open spec fn ascii_graphic(c: char) -> bool {
    '!' <= c && c <= '~'
}

/// The text that `str::trim` keeps of a string: leading and trailing white space removed (a
/// text that begins and ends with visible ASCII characters is kept whole).
#[verifier::opaque]
pub open spec fn trimmed(s: Seq<char>) -> Seq<char> {
    if s.len() > 0 && ascii_graphic(s[0]) && ascii_graphic(s.last()) {
        s
    } else {
        strip_white(s)
    }
}

/// The visible ASCII characters are not white space: the two readings of `trimmed` agree.
pub proof fn lemma_trimmed_strips(s: Seq<char>)
    ensures
        trimmed(s) == strip_white(s),
{
    reveal(trimmed);
    if s.len() > 0 && ascii_graphic(s[0]) && ascii_graphic(s.last()) {
        assert(leading_white(s) == 0);
        assert(s.subrange(0, s.len() as int) =~= s);
        assert(trailing_white(s) == 0);
    }
}

/// Removes the leading and trailing white space of a string (`str::trim`): as documented,
/// white space is the Unicode property `White_Space`.
#[verifier::external_body]
pub(crate) fn trim(s: &str) -> (r: &str)
    ensures
        r@ == strip_white(s@),
        r@ == trimmed(s@),
{
    s.trim()
}

/// The characters of a string, in order.
pub fn chars_of(s: &str) -> (v: Vec<char>)
    ensures
        v@ == s@,
{
    let mut v: Vec<char> = Vec::new();
    for c in it: s.chars()
        invariant
            v@ == it.seq().take(it.index() as int),
            it.seq() == s@,
    {
        v.push(c);
    }
    v
}


/// Each character of a text with the index of the byte at which its UTF-8 encoding starts.
pub open spec fn char_pairs(t: Seq<char>) -> Seq<(usize, char)> {
    Seq::new(t.len(), |k: int| (encode_utf8(t.take(k)).len() as usize, t[k]))
}

/// The characters of a string, each with the index of the byte at which it starts
/// (`str::char_indices`, collected).
///
/// As documented for `char_indices`: the characters in order, each with its byte position,
/// which is the length of the UTF-8 encoding of the characters before it.
#[verifier::external_body]
pub(crate) fn char_indices_of(s: &str) -> (r: Vec<(usize, char)>)
    ensures
        r@ == char_pairs(s@),
{
    s.char_indices().collect()
}

/// The value of a sequence of decimal digits.
pub open spec fn digits_value(d: Seq<char>) -> int
    decreases d.len(),
{
    if d.len() == 0 {
        0
    } else {
        digits_value(d.drop_last()) * 10 + (d.last() as int - '0' as int)
    }
}

/// The 32 bit integer that `str::parse::<i32>` reads from a text: an optional `+` or `-` sign
/// followed by at least one decimal digit and nothing else, whose value fits.
pub open spec fn std_i32(t: Seq<char>) -> Option<i32> {
    let signed = t.len() > 0 && (t[0] == '+' || t[0] == '-');
    let d = if signed {
        t.drop_first()
    } else {
        t
    };
    let v = if signed && t[0] == '-' {
        -digits_value(d)
    } else {
        digits_value(d)
    };
    if d.len() == 0 || !(forall|i: int| 0 <= i < d.len() ==> '0' <= #[trigger] d[i] <= '9') {
        None
    } else if i32::MIN <= v <= i32::MAX {
        Some(v as i32)
    } else {
        None
    }
}

/// Parses a text as a 32 bit integer (`str::parse::<i32>`).
///
/// As documented for `i32::from_str`: an optional sign, then only decimal digits; anything
/// else, or a value out of range, is an error.
#[verifier::external_body]
pub(crate) fn parse_std_i32(s: &str) -> (r: Option<i32>)
    ensures
        r == std_i32(s@),
{
    s.parse::<i32>().ok()
}


/// The characters before the last one of a text take fewer bytes than the whole text.
pub proof fn lemma_prefix_bytes(t: Seq<char>, k: int)
    requires
        0 <= k < t.len(),
    ensures
        encode_utf8(t.take(k)).len() < encode_utf8(t).len(),
    decreases t.len(),
{
    let e = vstd::utf8::encode_scalar(t[0] as u32);
    assert(e.len() >= 1);
    if k > 0 {
        lemma_prefix_bytes(t.drop_first(), k - 1);
        assert(t.take(k).drop_first() =~= t.drop_first().take(k - 1));
        assert(t.take(k)[0] == t[0]);
    } else {
        assert(t.take(0) =~= Seq::<char>::empty());
    }
}


/// A character boundary of a text that lies after another one is a boundary of the text
/// that starts at the first one.
pub proof fn lemma_boundary_in_suffix(b: Seq<u8>, a: int, e: int)
    requires
        vstd::utf8::valid_utf8(b),
        0 <= a <= e <= b.len(),
        vstd::utf8::is_char_boundary(b, a),
        vstd::utf8::is_char_boundary(b, e),
    ensures
        vstd::utf8::valid_utf8(b.subrange(a, b.len() as int)),
        vstd::utf8::is_char_boundary(b.subrange(a, b.len() as int), e - a),
{
    let tail = b.subrange(a, b.len() as int);
    vstd::utf8::valid_utf8_split(b, a);
    if e == b.len() {
        vstd::utf8::is_char_boundary_start_end_of_seq(tail);
    } else {
        vstd::utf8::is_char_boundary_iff_not_is_continuation_byte(b, e);
        vstd::utf8::is_char_boundary_iff_not_is_continuation_byte(tail, e - a);
    }
}


/// The 8 bit unsigned integer that `str::parse::<u8>` reads from a text: an optional `+` sign
/// followed by at least one decimal digit and nothing else, whose value fits.
pub open spec fn std_u8(t: Seq<char>) -> Option<u8> {
    let signed = t.len() > 0 && t[0] == '+';
    let d = if signed {
        t.drop_first()
    } else {
        t
    };
    if d.len() == 0 || !(forall|i: int| 0 <= i < d.len() ==> '0' <= #[trigger] d[i] <= '9') {
        None
    } else if digits_value(d) <= u8::MAX {
        Some(digits_value(d) as u8)
    } else {
        None
    }
}

/// Parses a text as an 8 bit unsigned integer (`str::parse::<u8>`).
///
/// As documented for `u8::from_str`: an optional `+` sign, then only decimal digits; anything
/// else, or a value out of range, is an error.
#[verifier::external_body]
pub(crate) fn parse_std_u8(s: &str) -> (r: Option<u8>)
    ensures
        r == std_u8(s@),
{
    s.parse::<u8>().ok()
}

} // verus!
