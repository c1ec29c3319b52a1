use vstd::prelude::*;

verus! {

/// The 64 bit integer that `lexical_core::parse::<i64>` reads from the bytes, if it accepts
/// them.
pub uninterp spec fn lexical_i64_read(b: Seq<u8>) -> Option<i64>;

/// The 32 bit integer that `lexical_core::parse::<i32>` reads from the bytes, if it accepts
/// them.
pub uninterp spec fn lexical_i32_read(b: Seq<u8>) -> Option<i32>;

/// Whether all of the bytes are the ASCII digits `0` to `9`.
pub open spec fn ascii_digits(b: Seq<u8>) -> bool {
    forall|i: int| 0 <= i < b.len() ==> 48 <= #[trigger] b[i] <= 57
}

/// The value of a sequence of ASCII decimal digits.
pub open spec fn ascii_digits_value(b: Seq<u8>) -> int
    decreases b.len(),
{
    if b.len() == 0 {
        0
    } else {
        ascii_digits_value(b.drop_last()) * 10 + (b.last() - 48)
    }
}

/// The bytes of an integer's text after its optional sign: a `+`, or for a signed type also a
/// `-`.
pub open spec fn digits_part(b: Seq<u8>, signed: bool) -> Seq<u8> {
    if b.len() > 0 && (b[0] == 43 || (signed && b[0] == 45)) {
        b.drop_first()
    } else {
        b
    }
}

/// Whether the text of an integer of a signed type starts with a minus sign.
pub open spec fn minus_sign(b: Seq<u8>, signed: bool) -> bool {
    signed && b.len() > 0 && b[0] == 45
}

/// Whether the bytes are an integer's text as `lexical_core` reads it in its standard format:
/// an optional sign, then at least one ASCII digit and nothing else.
pub open spec fn integer_form(b: Seq<u8>, signed: bool) -> bool {
    digits_part(b, signed).len() >= 1 && ascii_digits(digits_part(b, signed))
}

/// The number of digits after the leading zeros.
pub open spec fn significant_digits(d: Seq<u8>) -> nat
    decreases d.len(),
{
    if d.len() == 0 {
        0
    } else if d[0] == 48 {
        significant_digits(d.drop_first())
    } else {
        d.len()
    }
}

/// The value of an integer's text: the value of its digits, negated after a minus sign.
pub open spec fn integer_value(b: Seq<u8>, signed: bool) -> int {
    if minus_sign(b, signed) {
        -ascii_digits_value(digits_part(b, signed))
    } else {
        ascii_digits_value(digits_part(b, signed))
    }
}

/// Whether `lexical_core` reads the value of an integer's text exactly: it is in the standard
/// form and has fewer significant digits than the type's largest count (10 for 32 bit, 19 or
/// 20 for signed or unsigned 64 bit, and 3 for 8 bit integers), which cannot overflow.
pub open spec fn short_integer(b: Seq<u8>, signed: bool, max_digits: nat) -> bool {
    integer_form(b, signed) && significant_digits(digits_part(b, signed)) < max_digits
}

/// The 32 bit integer that `lexical_core::parse::<i32>` reads from the bytes: nothing when
/// they are not an optional sign and digits; the value of a sign and fewer than ten
/// significant digits; otherwise (ten or more significant digits) what the crate reads, if it
/// accepts them.
#[verifier::opaque]
pub open spec fn lexical_i32(b: Seq<u8>) -> Option<i32> {
    if !integer_form(b, true) {
        None
    } else if short_integer(b, true, 10) {
        Some(integer_value(b, true) as i32)
    } else {
        lexical_i32_read(b)
    }
}

/// The 64 bit integer that `lexical_core::parse::<i64>` reads from the bytes: nothing when
/// they are not an optional sign and digits; the value of a sign and fewer than nineteen
/// significant digits; otherwise what the crate reads, if it accepts them.
#[verifier::opaque]
pub open spec fn lexical_i64(b: Seq<u8>) -> Option<i64> {
    if !integer_form(b, true) {
        None
    } else if short_integer(b, true, 19) {
        Some(integer_value(b, true) as i64)
    } else {
        lexical_i64_read(b)
    }
}

/// The 64 bit unsigned integer that `lexical_core::parse::<u64>` reads from the bytes, if it
/// accepts them.
pub uninterp spec fn lexical_u64_read(b: Seq<u8>) -> Option<u64>;

/// The 8 bit unsigned integer that `lexical_core::parse::<u8>` reads from the bytes, if it
/// accepts them.
pub uninterp spec fn lexical_u8_read(b: Seq<u8>) -> Option<u8>;

/// The 64 bit unsigned integer that `lexical_core::parse::<u64>` reads from the bytes: nothing
/// when they are not an optional `+` and digits; the value of fewer than twenty significant
/// digits; otherwise what the crate reads, if it accepts them.
#[verifier::opaque]
pub open spec fn lexical_u64(b: Seq<u8>) -> Option<u64> {
    if !integer_form(b, false) {
        None
    } else if short_integer(b, false, 20) {
        Some(integer_value(b, false) as u64)
    } else {
        lexical_u64_read(b)
    }
}

/// The 8 bit unsigned integer that `lexical_core::parse::<u8>` reads from the bytes: nothing
/// when they are not an optional `+` and digits; the value of fewer than three significant
/// digits; otherwise (the crate's digit count check then leaves values that wrap past 255
/// undetected) what the crate reads, if it accepts them.
#[verifier::opaque]
pub open spec fn lexical_u8(b: Seq<u8>) -> Option<u8> {
    if !integer_form(b, false) {
        None
    } else if short_integer(b, false, 3) {
        Some(integer_value(b, false) as u8)
    } else {
        lexical_u8_read(b)
    }
}

/// The significant digits are at most the digits.
pub proof fn lemma_significant_digits(d: Seq<u8>)
    ensures
        significant_digits(d) <= d.len(),
    decreases d.len(),
{
    if d.len() > 0 && d[0] == 48 {
        lemma_significant_digits(d.drop_first());
    }
}

/// One to nine ASCII digits read as their value with `lexical_core::parse::<i32>`.
pub proof fn lemma_lexical_i32_digits(b: Seq<u8>)
    requires
        ascii_digits(b),
        1 <= b.len() <= 9,
    ensures
        lexical_i32(b) == Some(ascii_digits_value(b) as i32),
{
    reveal(lexical_i32);
    assert(48 <= b[0] <= 57);
    assert(digits_part(b, true) == b);
    lemma_significant_digits(b);
}

/// One to eighteen ASCII digits read as their value with `lexical_core::parse::<i64>`.
pub proof fn lemma_lexical_i64_digits(b: Seq<u8>)
    requires
        ascii_digits(b),
        1 <= b.len() <= 18,
    ensures
        lexical_i64(b) == Some(ascii_digits_value(b) as i64),
{
    reveal(lexical_i64);
    assert(48 <= b[0] <= 57);
    assert(digits_part(b, true) == b);
    lemma_significant_digits(b);
}

/// Whether `char::is_numeric` holds of a character beyond ASCII (Unicode numeric general
/// categories).
pub uninterp spec fn numeric_beyond_ascii(c: char) -> bool;

/// Whether `char::is_numeric` holds of the character: of the ASCII characters exactly the
/// digits `0` to `9`, beyond them the characters of the Unicode numeric general categories.
#[verifier::opaque]
pub open spec fn numeric_char(c: char) -> bool {
    if (c as u32) < 128 {
        '0' <= c && c <= '9'
    } else {
        numeric_beyond_ascii(c)
    }
}

/// Parses the bytes as a 64 bit integer with `lexical_core::parse::<i64>`.
///
/// As the crate's source reads an integer in its standard format: an optional `+` or `-`,
/// then ASCII digits and nothing else, or an error; the leading zeros are skipped and the
/// digits accumulated, with an overflow check on the count of significant digits, so that a
/// sign and fewer than nineteen significant digits read as their value. The value of longer
/// numbers is named. The error value returned by the crate is not described.
#[verifier::external_body]
pub(crate) fn parse_i64(b: &[u8]) -> (r: Result<i64, lexical_core::Error>)
    ensures
        !integer_form(b@, true) ==> r is Err,
        short_integer(b@, true, 19) ==> r is Ok && r->Ok_0 == integer_value(b@, true) as i64,
        integer_form(b@, true) && !short_integer(b@, true, 19) ==> (r is Ok) == (lexical_i64_read(b@) is Some) && (r is Ok ==> r->Ok_0 == lexical_i64_read(b@)->Some_0),
        (r is Ok) == (lexical_i64(b@) is Some),
        r is Ok ==> r->Ok_0 == lexical_i64(b@)->Some_0,
{
    lexical_core::parse::<i64>(b)
}

/// Parses the bytes as a 32 bit integer with `lexical_core::parse::<i32>`.
///
/// As `parse_i64`: a sign and fewer than ten significant digits read as their value, text
/// that is not an optional sign and digits is an error, and the value of longer numbers is
/// named. The error value returned by the crate is not described.
#[verifier::external_body]
pub(crate) fn parse_i32(b: &[u8]) -> (r: Result<i32, lexical_core::Error>)
    ensures
        !integer_form(b@, true) ==> r is Err,
        short_integer(b@, true, 10) ==> r is Ok && r->Ok_0 == integer_value(b@, true) as i32,
        integer_form(b@, true) && !short_integer(b@, true, 10) ==> (r is Ok) == (lexical_i32_read(b@) is Some) && (r is Ok ==> r->Ok_0 == lexical_i32_read(b@)->Some_0),
        ascii_digits(b@) && 1 <= b@.len() <= 9 ==> r is Ok && r->Ok_0 == ascii_digits_value(b@)
            as i32,
        (r is Ok) == (lexical_i32(b@) is Some),
        r is Ok ==> r->Ok_0 == lexical_i32(b@)->Some_0,
{
    lexical_core::parse::<i32>(b)
}

/// Parses the bytes as a 64 bit unsigned integer with `lexical_core::parse::<u64>`.
///
/// As the crate's source reads an unsigned integer in its standard format: an optional `+`,
/// then ASCII digits and nothing else (a `-` is an invalid digit), or an error; fewer than
/// twenty significant digits read as their value. The value of longer numbers is named. The
/// error value returned by the crate is not described.
#[verifier::external_body]
pub(crate) fn parse_u64(b: &[u8]) -> (r: Result<u64, lexical_core::Error>)
    ensures
        !integer_form(b@, false) ==> r is Err,
        short_integer(b@, false, 20) ==> r is Ok && r->Ok_0 == integer_value(b@, false) as u64,
        integer_form(b@, false) && !short_integer(b@, false, 20) ==> (r is Ok) == (lexical_u64_read(b@) is Some) && (r is Ok ==> r->Ok_0 == lexical_u64_read(b@)->Some_0),
        (r is Ok) == (lexical_u64(b@) is Some),
        r is Ok ==> r->Ok_0 == lexical_u64(b@)->Some_0,
{
    lexical_core::parse::<u64>(b)
}

/// Parses the bytes as an 8 bit unsigned integer with `lexical_core::parse::<u8>`.
///
/// As `parse_u64`: fewer than three significant digits read as their value, text that is not
/// an optional `+` and digits is an error, and the value of longer numbers is named. The error
/// value returned by the crate is not described.
#[verifier::external_body]
pub(crate) fn parse_u8(b: &[u8]) -> (r: Result<u8, lexical_core::Error>)
    ensures
        !integer_form(b@, false) ==> r is Err,
        short_integer(b@, false, 3) ==> r is Ok && r->Ok_0 == integer_value(b@, false) as u8,
        integer_form(b@, false) && !short_integer(b@, false, 3) ==> (r is Ok) == (lexical_u8_read(b@) is Some) && (r is Ok ==> r->Ok_0 == lexical_u8_read(b@)->Some_0),
        (r is Ok) == (lexical_u8(b@) is Some),
        r is Ok ==> r->Ok_0 == lexical_u8(b@)->Some_0,
{
    lexical_core::parse::<u8>(b)
}

/// Whether the character is numeric (`char::is_numeric`).
///
/// Its documentation: true for the characters of the general categories Nd, Nl and No. Of
/// the ASCII characters, exactly the digits `0` to `9` are in them; the contract states that
/// and names the answer for the other characters.
#[verifier::external_body]
pub(crate) fn is_numeric(c: char) -> (r: bool)
    ensures
        (c as u32) < 128 ==> (r <==> ('0' <= c && c <= '9')),
        (c as u32) >= 128 ==> r == numeric_beyond_ascii(c),
        r == numeric_char(c),
{
    c.is_numeric()
}

} // verus!
