use vstd::prelude::*;
use vstd::string::StringSliceAdditionalSpecFns;
use vstd::utf8::is_char_boundary;

use crate::duration::{add_value, clamp_ns, Duration};
use crate::errors::{HifitimeError, ParsingError};
use crate::numeric::{lexical_i64, parse_i64};
use crate::text::{trim, trimmed};
use crate::unit::Unit;

verus! {

/// Whether the bytes hold `pat` at position `start`.
pub open spec fn bytes_at(s: Seq<u8>, start: int, pat: Seq<u8>) -> bool {
    0 <= start && start + pat.len() <= s.len() && s.subrange(start, start + pat.len()) == pat
}

/// Whether the bytes hold `pat` at the position `start`.
pub open spec fn holds_at(s: Seq<u8>, start: usize, pat: Seq<u8>) -> bool {
    bytes_at(s, start as int, pat)
}

/// Whether the bytes of `s` hold the bytes of `cmp_str` at position `start_idx`.
pub fn cmp_chars_to_str(s: &str, start_idx: usize, cmp_str: &str) -> (r: bool)
    ensures
        r == holds_at(s.spec_bytes(), start_idx, cmp_str.spec_bytes()),
{
    let cmp_bytes = cmp_str.as_bytes();
    let s_bytes = s.as_bytes();
    bytes_match(s_bytes, start_idx, cmp_bytes)
}

/// Whether the bytes `s` hold `pat` at position `start`.
fn bytes_match(s: &[u8], start: usize, pat: &[u8]) -> (r: bool)
    ensures
        r == bytes_at(s@, start as int, pat@),
{
    if start > s.len() || pat.len() > s.len() - start {
        // Not enough bytes left in s
        return false;
    }
    let mut i: usize = 0;
    while i < pat.len()
        invariant
            start + pat.len() <= s.len(),
            i <= pat.len(),
            forall|j: int| 0 <= j < i ==> s@[start + j] == pat@[j],
        decreases pat.len() - i,
    {
        if s[start + i] != pat[i] {
            assert(s@.subrange(start as int, start + pat.len())[i as int] != pat@[i as int]);
            return false;
        }
        i = i + 1;
    }
    assert(s@.subrange(start as int, start + pat.len()) =~= pat@);
    true
}

/// The bytes of the unit names of durations, in the order in which they are tried.
pub open spec fn unit_name(k: int) -> Seq<u8> {
    if k == 0 {
        seq![100u8]
    } else if k == 1 {
        seq![100u8, 97, 121, 115]
    } else if k == 2 {
        seq![100u8, 97, 121]
    } else if k == 3 {
        seq![104u8]
    } else if k == 4 {
        seq![104u8, 111, 117, 114, 115]
    } else if k == 5 {
        seq![104u8, 111, 117, 114]
    } else if k == 6 {
        seq![104u8, 114]
    } else if k == 7 {
        seq![109u8, 105, 110]
    } else if k == 8 {
        seq![109u8, 105, 110, 115]
    } else if k == 9 {
        seq![109u8, 105, 110, 117, 116, 101]
    } else if k == 10 {
        seq![109u8, 105, 110, 117, 116, 101, 115]
    } else if k == 11 {
        seq![115u8]
    } else if k == 12 {
        seq![115u8, 101, 99, 111, 110, 100]
    } else if k == 13 {
        seq![115u8, 101, 99, 111, 110, 100, 115]
    } else if k == 14 {
        seq![115u8, 101, 99]
    } else if k == 15 {
        seq![109u8, 115]
    } else if k == 16 {
        seq![109u8, 105, 108, 108, 105, 115, 101, 99, 111, 110, 100]
    } else if k == 17 {
        seq![109u8, 105, 108, 108, 105, 115, 101, 99, 111, 110, 100, 115]
    } else if k == 18 {
        seq![0xCEu8, 0xBC, 115]
    } else if k == 19 {
        seq![117u8, 115]
    } else if k == 20 {
        seq![109u8, 105, 99, 114, 111, 115, 101, 99, 111, 110, 100]
    } else if k == 21 {
        seq![109u8, 105, 99, 114, 111, 115, 101, 99, 111, 110, 100, 115]
    } else if k == 22 {
        seq![110u8, 115]
    } else if k == 23 {
        seq![110u8, 97, 110, 111, 115, 101, 99, 111, 110, 100]
    } else {
        seq![110u8, 97, 110, 111, 115, 101, 99, 111, 110, 100, 115]
    }
}

/// The position of the unit of name `k` among days, hours, minutes, seconds, milliseconds,
/// microseconds and nanoseconds.
pub open spec fn unit_slot(k: int) -> int {
    if k <= 2 {
        0
    } else if k <= 6 {
        1
    } else if k <= 10 {
        2
    } else if k <= 14 {
        3
    } else if k <= 17 {
        4
    } else if k <= 21 {
        5
    } else {
        6
    }
}

/// Number of unit names.
pub open spec fn unit_count() -> int {
    25
}

/// The slot of the first unit name, from the `k`-th on, that the bytes from `start` to `end`
/// spell out whole.
pub open spec fn find_unit(s: Seq<u8>, start: int, end: int, k: int) -> Option<int>
    decreases unit_count() - k,
{
    if k >= unit_count() || k < 0 {
        None
    } else if end - start == unit_name(k).len() && bytes_at(s, start, unit_name(k)) {
        Some(unit_slot(k))
    } else {
        find_unit(s, start, end, k + 1)
    }
}

/// The slot of a unit name is one of the seven units.
pub proof fn lemma_find_unit_range(s: Seq<u8>, start: int, end: int, k: int)
    ensures
        find_unit(s, start, end, k) matches Some(x) ==> 0 <= x < 7,
    decreases unit_count() - k,
{
    if 0 <= k < unit_count() && !(end - start == unit_name(k).len() && bytes_at(
        s,
        start,
        unit_name(k),
    )) {
        lemma_find_unit_range(s, start, end, k + 1);
    }
}

/// The bytes of the unit name `k`.
fn unit_name_bytes(k: usize) -> (r: Vec<u8>)
    requires
        k < 25,
    ensures
        r@ == unit_name(k as int),
{
    let r: Vec<u8> = if k == 0 {
        vec![100u8]
    } else if k == 1 {
        vec![100u8, 97, 121, 115]
    } else if k == 2 {
        vec![100u8, 97, 121]
    } else if k == 3 {
        vec![104u8]
    } else if k == 4 {
        vec![104u8, 111, 117, 114, 115]
    } else if k == 5 {
        vec![104u8, 111, 117, 114]
    } else if k == 6 {
        vec![104u8, 114]
    } else if k == 7 {
        vec![109u8, 105, 110]
    } else if k == 8 {
        vec![109u8, 105, 110, 115]
    } else if k == 9 {
        vec![109u8, 105, 110, 117, 116, 101]
    } else if k == 10 {
        vec![109u8, 105, 110, 117, 116, 101, 115]
    } else if k == 11 {
        vec![115u8]
    } else if k == 12 {
        vec![115u8, 101, 99, 111, 110, 100]
    } else if k == 13 {
        vec![115u8, 101, 99, 111, 110, 100, 115]
    } else if k == 14 {
        vec![115u8, 101, 99]
    } else if k == 15 {
        vec![109u8, 115]
    } else if k == 16 {
        vec![109u8, 105, 108, 108, 105, 115, 101, 99, 111, 110, 100]
    } else if k == 17 {
        vec![109u8, 105, 108, 108, 105, 115, 101, 99, 111, 110, 100, 115]
    } else if k == 18 {
        vec![0xCEu8, 0xBC, 115]
    } else if k == 19 {
        vec![117u8, 115]
    } else if k == 20 {
        vec![109u8, 105, 99, 114, 111, 115, 101, 99, 111, 110, 100]
    } else if k == 21 {
        vec![109u8, 105, 99, 114, 111, 115, 101, 99, 111, 110, 100, 115]
    } else if k == 22 {
        vec![110u8, 115]
    } else if k == 23 {
        vec![110u8, 97, 110, 111, 115, 101, 99, 111, 110, 100]
    } else {
        vec![110u8, 97, 110, 111, 115, 101, 99, 111, 110, 100, 115]
    };
    assert(r@ =~= unit_name(k as int));
    r
}

/// The slot of the unit whose name the bytes from `start` to `end` spell out whole.
fn match_unit(s: &[u8], start: usize, end: usize) -> (r: Option<usize>)
    requires
        start <= end,
    ensures
        match find_unit(s@, start as int, end as int, 0) {
            Some(slot) => r == Some(slot as usize),
            None => r is None,
        },
        r matches Some(x) ==> x < 7,
        find_unit(s@, start as int, end as int, 0) matches Some(x) ==> 0 <= x < 7,
{
    proof {
        lemma_find_unit_range(s@, start as int, end as int, 0);
    }
    let mut k: usize = 0;
    while k < 25
        invariant
            k <= 25,
            start <= end,
            find_unit(s@, start as int, end as int, k as int) == find_unit(s@, start as int, end as int, 0),
        decreases 25 - k,
    {
        let name = unit_name_bytes(k);
        if end - start == name.len() && bytes_match(s, start, name.as_slice()) {
            let slot: usize = if k <= 2 {
                0
            } else if k <= 6 {
                1
            } else if k <= 10 {
                2
            } else if k <= 14 {
                3
            } else if k <= 17 {
                4
            } else if k <= 21 {
                5
            } else {
                6
            };
            return Some(slot);
        }
        k = k + 1;
    }
    None
}

/// Which unit a name gives a term of a duration text: `d`, `day` and `days` name days (slot
/// 0); `h`, `hr`, `hour` and `hours` hours (1); `min`, `mins`, `minute` and `minutes` minutes
/// (2); `s`, `sec`, `second` and `seconds` seconds (3); `ms`, `millisecond` and `milliseconds`
/// milliseconds (4); the micro sign and `s` (bytes `0xCE 0xBC 0x73`), `us`, `microsecond` and `microseconds` microseconds (5); `ns`,
/// `nanosecond` and `nanoseconds` nanoseconds (6). The names are written below by their
/// bytes.
pub proof fn law_unit_names(s: Seq<u8>, start: int, end: int)
    requires
        0 <= start <= end <= s.len(),
    ensures
        // d
        s.subrange(start, end) == seq![100u8] ==> find_unit(s, start, end, 0) == Some(0int),
        // days
        s.subrange(start, end) == seq![100u8, 97, 121, 115] ==> find_unit(s, start, end, 0) == Some(0int),
        // day
        s.subrange(start, end) == seq![100u8, 97, 121] ==> find_unit(s, start, end, 0) == Some(0int),
        // h
        s.subrange(start, end) == seq![104u8] ==> find_unit(s, start, end, 0) == Some(1int),
        // hours
        s.subrange(start, end) == seq![104u8, 111, 117, 114, 115] ==> find_unit(s, start, end, 0) == Some(1int),
        // hour
        s.subrange(start, end) == seq![104u8, 111, 117, 114] ==> find_unit(s, start, end, 0) == Some(1int),
        // hr
        s.subrange(start, end) == seq![104u8, 114] ==> find_unit(s, start, end, 0) == Some(1int),
        // min
        s.subrange(start, end) == seq![109u8, 105, 110] ==> find_unit(s, start, end, 0) == Some(2int),
        // mins
        s.subrange(start, end) == seq![109u8, 105, 110, 115] ==> find_unit(s, start, end, 0) == Some(2int),
        // minute
        s.subrange(start, end) == seq![109u8, 105, 110, 117, 116, 101] ==> find_unit(s, start, end, 0) == Some(2int),
        // minutes
        s.subrange(start, end) == seq![109u8, 105, 110, 117, 116, 101, 115] ==> find_unit(s, start, end, 0) == Some(2int),
        // s
        s.subrange(start, end) == seq![115u8] ==> find_unit(s, start, end, 0) == Some(3int),
        // second
        s.subrange(start, end) == seq![115u8, 101, 99, 111, 110, 100] ==> find_unit(s, start, end, 0) == Some(3int),
        // seconds
        s.subrange(start, end) == seq![115u8, 101, 99, 111, 110, 100, 115] ==> find_unit(s, start, end, 0) == Some(3int),
        // sec
        s.subrange(start, end) == seq![115u8, 101, 99] ==> find_unit(s, start, end, 0) == Some(3int),
        // ms
        s.subrange(start, end) == seq![109u8, 115] ==> find_unit(s, start, end, 0) == Some(4int),
        // millisecond
        s.subrange(start, end) == seq![109u8, 105, 108, 108, 105, 115, 101, 99, 111, 110, 100] ==> find_unit(s, start, end, 0) == Some(4int),
        // milliseconds
        s.subrange(start, end) == seq![109u8, 105, 108, 108, 105, 115, 101, 99, 111, 110, 100, 115] ==> find_unit(s, start, end, 0) == Some(4int),
        // micro sign, s
        s.subrange(start, end) == seq![0xCEu8, 0xBC, 115] ==> find_unit(s, start, end, 0) == Some(5int),
        // us
        s.subrange(start, end) == seq![117u8, 115] ==> find_unit(s, start, end, 0) == Some(5int),
        // microsecond
        s.subrange(start, end) == seq![109u8, 105, 99, 114, 111, 115, 101, 99, 111, 110, 100] ==> find_unit(s, start, end, 0) == Some(5int),
        // microseconds
        s.subrange(start, end) == seq![109u8, 105, 99, 114, 111, 115, 101, 99, 111, 110, 100, 115] ==> find_unit(s, start, end, 0) == Some(5int),
        // ns
        s.subrange(start, end) == seq![110u8, 115] ==> find_unit(s, start, end, 0) == Some(6int),
        // nanosecond
        s.subrange(start, end) == seq![110u8, 97, 110, 111, 115, 101, 99, 111, 110, 100] ==> find_unit(s, start, end, 0) == Some(6int),
        // nanoseconds
        s.subrange(start, end) == seq![110u8, 97, 110, 111, 115, 101, 99, 111, 110, 100, 115] ==> find_unit(s, start, end, 0) == Some(6int),
{
    lemma_find_unit_local(s, start, end, 0);
    reveal_with_fuel(find_unit, 26);
    assert(find_unit(seq![100u8], 0, 1, 0) == Some(0int)) by {
        let t = seq![100u8];
        assert(t.subrange(0, 1) =~= t);
    }
    assert(find_unit(seq![100u8, 97, 121, 115], 0, 4, 0) == Some(0int)) by {
        let t = seq![100u8, 97, 121, 115];
        assert(t.subrange(0, 4) =~= t);
    }
    assert(find_unit(seq![100u8, 97, 121], 0, 3, 0) == Some(0int)) by {
        let t = seq![100u8, 97, 121];
        assert(t.subrange(0, 3) =~= t);
    }
    assert(find_unit(seq![104u8], 0, 1, 0) == Some(1int)) by {
        let t = seq![104u8];
        assert(t.subrange(0, 1) =~= t);
        assert(unit_name(0)[0] != t[0]);
    }
    assert(find_unit(seq![104u8, 111, 117, 114, 115], 0, 5, 0) == Some(1int)) by {
        let t = seq![104u8, 111, 117, 114, 115];
        assert(t.subrange(0, 5) =~= t);
    }
    assert(find_unit(seq![104u8, 111, 117, 114], 0, 4, 0) == Some(1int)) by {
        let t = seq![104u8, 111, 117, 114];
        assert(t.subrange(0, 4) =~= t);
        assert(unit_name(1)[0] != t[0]);
    }
    assert(find_unit(seq![104u8, 114], 0, 2, 0) == Some(1int)) by {
        let t = seq![104u8, 114];
        assert(t.subrange(0, 2) =~= t);
    }
    assert(find_unit(seq![109u8, 105, 110], 0, 3, 0) == Some(2int)) by {
        let t = seq![109u8, 105, 110];
        assert(t.subrange(0, 3) =~= t);
        assert(unit_name(2)[0] != t[0]);
    }
    assert(find_unit(seq![109u8, 105, 110, 115], 0, 4, 0) == Some(2int)) by {
        let t = seq![109u8, 105, 110, 115];
        assert(t.subrange(0, 4) =~= t);
        assert(unit_name(1)[0] != t[0]);
        assert(unit_name(5)[0] != t[0]);
    }
    assert(find_unit(seq![109u8, 105, 110, 117, 116, 101], 0, 6, 0) == Some(2int)) by {
        let t = seq![109u8, 105, 110, 117, 116, 101];
        assert(t.subrange(0, 6) =~= t);
    }
    assert(find_unit(seq![109u8, 105, 110, 117, 116, 101, 115], 0, 7, 0) == Some(2int)) by {
        let t = seq![109u8, 105, 110, 117, 116, 101, 115];
        assert(t.subrange(0, 7) =~= t);
    }
    assert(find_unit(seq![115u8], 0, 1, 0) == Some(3int)) by {
        let t = seq![115u8];
        assert(t.subrange(0, 1) =~= t);
        assert(unit_name(0)[0] != t[0]);
        assert(unit_name(3)[0] != t[0]);
    }
    assert(find_unit(seq![115u8, 101, 99, 111, 110, 100], 0, 6, 0) == Some(3int)) by {
        let t = seq![115u8, 101, 99, 111, 110, 100];
        assert(t.subrange(0, 6) =~= t);
        assert(unit_name(9)[0] != t[0]);
    }
    assert(find_unit(seq![115u8, 101, 99, 111, 110, 100, 115], 0, 7, 0) == Some(3int)) by {
        let t = seq![115u8, 101, 99, 111, 110, 100, 115];
        assert(t.subrange(0, 7) =~= t);
        assert(unit_name(10)[0] != t[0]);
    }
    assert(find_unit(seq![115u8, 101, 99], 0, 3, 0) == Some(3int)) by {
        let t = seq![115u8, 101, 99];
        assert(t.subrange(0, 3) =~= t);
        assert(unit_name(2)[0] != t[0]);
        assert(unit_name(7)[0] != t[0]);
    }
    assert(find_unit(seq![109u8, 115], 0, 2, 0) == Some(4int)) by {
        let t = seq![109u8, 115];
        assert(t.subrange(0, 2) =~= t);
        assert(unit_name(6)[0] != t[0]);
    }
    assert(find_unit(seq![109u8, 105, 108, 108, 105, 115, 101, 99, 111, 110, 100], 0, 11, 0) == Some(4int)) by {
        let t = seq![109u8, 105, 108, 108, 105, 115, 101, 99, 111, 110, 100];
        assert(t.subrange(0, 11) =~= t);
    }
    assert(find_unit(seq![109u8, 105, 108, 108, 105, 115, 101, 99, 111, 110, 100, 115], 0, 12, 0) == Some(4int)) by {
        let t = seq![109u8, 105, 108, 108, 105, 115, 101, 99, 111, 110, 100, 115];
        assert(t.subrange(0, 12) =~= t);
    }
    assert(find_unit(seq![0xCEu8, 0xBC, 115], 0, 3, 0) == Some(5int)) by {
        let t = seq![0xCEu8, 0xBC, 115];
        assert(t.subrange(0, 3) =~= t);
        assert(unit_name(2)[0] != t[0]);
        assert(unit_name(7)[0] != t[0]);
        assert(unit_name(14)[0] != t[0]);
    }
    assert(find_unit(seq![117u8, 115], 0, 2, 0) == Some(5int)) by {
        let t = seq![117u8, 115];
        assert(t.subrange(0, 2) =~= t);
        assert(unit_name(6)[0] != t[0]);
        assert(unit_name(15)[0] != t[0]);
    }
    assert(find_unit(seq![109u8, 105, 99, 114, 111, 115, 101, 99, 111, 110, 100], 0, 11, 0) == Some(5int)) by {
        let t = seq![109u8, 105, 99, 114, 111, 115, 101, 99, 111, 110, 100];
        assert(t.subrange(0, 11) =~= t);
        assert(unit_name(16)[2] != t[2]);
    }
    assert(find_unit(seq![109u8, 105, 99, 114, 111, 115, 101, 99, 111, 110, 100, 115], 0, 12, 0) == Some(5int)) by {
        let t = seq![109u8, 105, 99, 114, 111, 115, 101, 99, 111, 110, 100, 115];
        assert(t.subrange(0, 12) =~= t);
        assert(unit_name(17)[2] != t[2]);
    }
    assert(find_unit(seq![110u8, 115], 0, 2, 0) == Some(6int)) by {
        let t = seq![110u8, 115];
        assert(t.subrange(0, 2) =~= t);
        assert(unit_name(6)[0] != t[0]);
        assert(unit_name(15)[0] != t[0]);
        assert(unit_name(19)[0] != t[0]);
    }
    assert(find_unit(seq![110u8, 97, 110, 111, 115, 101, 99, 111, 110, 100], 0, 10, 0) == Some(6int)) by {
        let t = seq![110u8, 97, 110, 111, 115, 101, 99, 111, 110, 100];
        assert(t.subrange(0, 10) =~= t);
    }
    assert(find_unit(seq![110u8, 97, 110, 111, 115, 101, 99, 111, 110, 100, 115], 0, 11, 0) == Some(6int)) by {
        let t = seq![110u8, 97, 110, 111, 115, 101, 99, 111, 110, 100, 115];
        assert(t.subrange(0, 11) =~= t);
        assert(unit_name(16)[0] != t[0]);
        assert(unit_name(20)[0] != t[0]);
    }
}

/// Whether a unit name is found depends only on the bytes from `start` to `end`.
proof fn lemma_find_unit_local(s: Seq<u8>, start: int, end: int, k: int)
    requires
        0 <= start <= end <= s.len(),
    ensures
        find_unit(s, start, end, k) == find_unit(s.subrange(start, end), 0, end - start, k),
    decreases unit_count() - k,
{
    let t = s.subrange(start, end);
    if 0 <= k < unit_count() {
        let name = unit_name(k);
        if end - start == name.len() {
            assert(s.subrange(start, start + name.len()) =~= t);
            assert(t.subrange(0, name.len() as int) =~= t);
        }
        lemma_find_unit_local(s, start, end, k + 1);
    }
}

/// The error of a duration text.
pub open spec fn parse_error(source: ParsingError, details: &'static str) -> HifitimeError {
    HifitimeError::Parse { source, details }
}

/// State of the scan of a duration text: where the current piece starts, whether a number is
/// expected, the bytes of the latest number, whether the previous byte was a space, and the
/// bytes of the number given to each unit.
pub struct DurationScan {
    pub prev_idx: usize,
    pub seeking_number: bool,
    pub latest: (usize, usize),
    pub prev_space: bool,
    pub terms: [Option<(usize, usize)>; 7],
}

/// One step of the scan of a duration text, at the byte of index `idx`: a space ends a number
/// (which must then parse as a number) or a unit (which must be known); other bytes start a
/// new piece after a space.
pub open spec fn scan_step(
    s: Seq<u8>,
    idx: int,
    prev_idx: int,
    seeking: bool,
    latest: (int, int),
    prev_space: bool,
    terms: Seq<Option<(int, int)>>,
) -> Result<(int, bool, (int, int), bool, Seq<Option<(int, int)>>), HifitimeError> {
    if s[idx] == 32u8 {
        if seeking {
            if !prev_space {
                if prev_idx == idx {
                    Err(
                        parse_error(
                            ParsingError::UnknownOrMissingUnit,
                            "expect a unit after a numeric",
                        ),
                    )
                } else {
                    Ok((prev_idx, false, (prev_idx, idx), true, terms))
                }
            } else {
                Ok((prev_idx, seeking, latest, true, terms))
            }
        } else {
            match find_unit(s, prev_idx, idx, 0) {
                Some(slot) => Ok((idx, true, latest, true, terms.update(slot, Some(latest)))),
                None => Err(parse_error(ParsingError::UnknownOrMissingUnit, "unknown unit")),
            }
        }
    } else {
        Ok(
            (
                if prev_space {
                    idx
                } else {
                    prev_idx
                },
                seeking,
                latest,
                false,
                terms,
            ),
        )
    }
}

/// The outcome of the scan of a duration text from the byte of index `idx` on: the byte
/// ranges of the numbers read, in order, and the terms (or the first error of the text's
/// structure).
pub open spec fn scan_from(
    s: Seq<u8>,
    idx: int,
    prev_idx: int,
    seeking: bool,
    latest: (int, int),
    prev_space: bool,
    terms: Seq<Option<(int, int)>>,
) -> (Seq<(int, int)>, Result<Seq<Option<(int, int)>>, HifitimeError>)
    decreases s.len() - idx,
{
    if idx >= s.len() || idx < 0 {
        // Handle the last element if the string didn't end with a space
        (
            seq![],
            if !seeking {
                match find_unit(s, prev_idx, s.len() as int, 0) {
                    Some(slot) => Ok(terms.update(slot, Some(latest))),
                    None => Err(parse_error(ParsingError::UnknownOrMissingUnit, "unknown unit")),
                }
            } else if prev_idx < s.len() {
                Err(
                    parse_error(
                        ParsingError::UnknownOrMissingUnit,
                        "expect a unit after the last numeric",
                    ),
                )
            } else {
                Ok(terms)
            },
        )
    } else {
        match scan_step(s, idx, prev_idx, seeking, latest, prev_space, terms) {
            Err(e) => (seq![], Err(e)),
            Ok((p, sk, l, ps, t)) => {
                let rest = scan_from(s, idx + 1, p, sk, l, ps, t);
                (
                    if seeking && !sk {
                        seq![l] + rest.0
                    } else {
                        rest.0
                    },
                    rest.1,
                )
            },
        }
    }
}

/// The scan of a whole duration text.
pub open spec fn duration_scan(s: Seq<u8>) -> (
    Seq<(int, int)>,
    Result<Seq<Option<(int, int)>>, HifitimeError>,
) {
    scan_from(s, 0, 0, true, (0, 0), false, seq![None, None, None, None, None, None, None])
}

/// The terms of a duration text as computed, as integers.
pub open spec fn terms_view(t: [Option<(usize, usize)>; 7]) -> Seq<Option<(int, int)>> {
    Seq::new(
        7,
        |i: int|
            match t@[i] {
                Some((a, b)) => Some((a as int, b as int)),
                None => None,
            },
    )
}

/// Byte ranges as integers.
pub open spec fn ranges_view(v: Seq<(usize, usize)>) -> Seq<(int, int)> {
    Seq::new(v.len(), |i: int| (v[i].0 as int, v[i].1 as int))
}

/// Reads a duration text made of numbers, each followed by a space and a unit (`d`, `days`,
/// `day`, `h`, `hours`, `hour`, `hr`, `min`, `mins`, `minute`, `minutes`, `s`, `second`,
/// `seconds`, `sec`, `ms`, `millisecond`, `milliseconds`, the micro sign and `s` (bytes `0xCE 0xBC 0x73`), `us`, `microsecond`,
/// `microseconds`, `ns`, `nanosecond`, `nanoseconds`), the terms separated by spaces; a unit is
/// one of these names whole, anything else is an unknown unit.
///
/// The result holds the byte ranges of the numbers read, in order (each must then read as a
/// number: the first that does not is the error of the text), and, for each unit, the byte
/// range of the number last given to that unit, or the first error of the text's structure.
pub fn parse_duration_terms(s: &str) -> (r: (
    Vec<(usize, usize)>,
    Result<[Option<(usize, usize)>; 7], HifitimeError>,
))
    ensures
        ranges_view(r.0@) == duration_scan(s.spec_bytes()).0,
        match r.1 {
            Ok(t) => duration_scan(s.spec_bytes()).1 == Ok::<
                Seq<Option<(int, int)>>,
                HifitimeError,
            >(terms_view(t)),
            Err(e) => duration_scan(s.spec_bytes()).1 == Err::<
                Seq<Option<(int, int)>>,
                HifitimeError,
            >(e),
        },
{
    let b = s.as_bytes();
    let n = b.len();
    let mut prev_idx: usize = 0;
    let mut seeking_number = true;
    let mut latest: (usize, usize) = (0, 0);
    let mut prev_char_was_space = false;
    let mut terms: [Option<(usize, usize)>; 7] = [None; 7];
    let mut idx: usize = 0;
    let mut numbers: Vec<(usize, usize)> = Vec::new();
    proof {
        assert(terms_view(terms) =~= seq![None, None, None, None, None, None, None]);
        assert(ranges_view(numbers@) + duration_scan(s.spec_bytes()).0 =~= duration_scan(
            s.spec_bytes(),
        ).0);
    }
    while idx < n
        invariant
            n == b@.len(),
            b@ == s.spec_bytes(),
            idx <= n,
            prev_idx <= idx,
            latest.0 <= latest.1 <= n,
            scan_from(
                b@,
                idx as int,
                prev_idx as int,
                seeking_number,
                (latest.0 as int, latest.1 as int),
                prev_char_was_space,
                terms_view(terms),
            ).1 == duration_scan(s.spec_bytes()).1,
            ranges_view(numbers@) + scan_from(
                b@,
                idx as int,
                prev_idx as int,
                seeking_number,
                (latest.0 as int, latest.1 as int),
                prev_char_was_space,
                terms_view(terms),
            ).0 == duration_scan(s.spec_bytes()).0,
            forall|i: int|
                0 <= i < 7 ==> (#[trigger] terms@[i] matches Some((x, y)) ==> x <= y <= n),
        decreases n - idx,
    {
        let ghost old_terms = terms;
        let ghost old_numbers = numbers@;
        if b[idx] == 32u8 {
            if seeking_number {
                if !prev_char_was_space {
                    if prev_idx == idx {
                        proof {
                            assert(ranges_view(numbers@) =~= ranges_view(numbers@) + seq![]);
                        }
                        return (
                            numbers,
                            Err(
                                HifitimeError::Parse {
                                    source: ParsingError::UnknownOrMissingUnit,
                                    details: "expect a unit after a numeric",
                                },
                            ),
                        );
                    }
                    numbers.push((prev_idx, idx));
                    proof {
                        assert(ranges_view(numbers@) =~= ranges_view(old_numbers) + seq![
                            (prev_idx as int, idx as int),
                        ]);
                    }
                    latest = (prev_idx, idx);
                    seeking_number = false;
                }
            } else {
                match match_unit(b, prev_idx, idx) {
                    Some(slot) => {
                        terms[slot] = Some(latest);
                        proof {
                            assert(terms_view(terms) =~= terms_view(old_terms).update(
                                slot as int,
                                Some((latest.0 as int, latest.1 as int)),
                            ));
                        }
                        seeking_number = true;
                        prev_idx = idx;
                    },
                    None => {
                        proof {
                            assert(ranges_view(numbers@) =~= ranges_view(numbers@) + seq![]);
                        }
                        return (
                            numbers,
                            Err(
                                HifitimeError::Parse {
                                    source: ParsingError::UnknownOrMissingUnit,
                                    details: "unknown unit",
                                },
                            ),
                        );
                    },
                }
            }
            prev_char_was_space = true;
        } else {
            if prev_char_was_space {
                prev_idx = idx;
            }
            prev_char_was_space = false;
        }
        idx = idx + 1;
    }
    if !seeking_number {
        match match_unit(b, prev_idx, n) {
            Some(slot) => {
                let ghost old_terms = terms;
                terms[slot] = Some(latest);
                proof {
                    assert(terms_view(terms) =~= terms_view(old_terms).update(
                        slot as int,
                        Some((latest.0 as int, latest.1 as int)),
                    ));
                }
            },
            None => {
                proof {
                    assert(ranges_view(numbers@) =~= ranges_view(numbers@) + seq![]);
                }
                return (
                    numbers,
                    Err(
                        HifitimeError::Parse {
                            source: ParsingError::UnknownOrMissingUnit,
                            details: "unknown unit",
                        },
                    ),
                );
            },
        }
    } else if prev_idx < n {
        proof {
            assert(ranges_view(numbers@) =~= ranges_view(numbers@) + seq![]);
        }
        return (
            numbers,
            Err(
                HifitimeError::Parse {
                    source: ParsingError::UnknownOrMissingUnit,
                    details: "expect a unit after the last numeric",
                },
            ),
        );
    }
    proof {
        assert(ranges_view(numbers@) =~= ranges_view(numbers@) + seq![]);
    }
    (numbers, Ok(terms))
}


/// The number of separator bytes between the hours, minutes and seconds of a time zone offset
/// of the given length, if the length is one of an offset.
pub open spec fn offset_colon(n: int) -> Option<int> {
    if n == 3 || n == 5 || n == 7 {
        Some(0)
    } else if n == 4 || n == 6 || n == 9 {
        Some(1)
    } else {
        None
    }
}

/// The bytes from `a` to `e` of a text, when both are on character boundaries (`str::get`).
pub open spec fn text_get(b: Seq<u8>, a: int, e: int) -> Option<Seq<u8>> {
    if 0 <= a <= e <= b.len() && is_char_boundary(b, a) && is_char_boundary(b, e) {
        Some(b.subrange(a, e))
    } else {
        None
    }
}

/// The value of a duration of hours, minutes and seconds, each saturated, added in that order.
pub open spec fn hms_value(h: int, m: int, sec: int) -> int {
    add_value(
        Duration::of_ns(
            add_value(
                Duration::of_ns(clamp_ns(h * 3_600_000_000_000)),
                Duration::of_ns(clamp_ns(m * 60_000_000_000)),
            ),
        ),
        Duration::of_ns(clamp_ns(sec * 1_000_000_000)),
    )
}

/// The outcome of reading a time zone offset `[+/-]HH[:]MM[[:]SS]` from its bytes, once its
/// hours read as the given number: the hours, minutes and seconds, or the error.
pub open spec fn offset_after_hours(b: Seq<u8>, c: int, h: i64) -> Result<(int, int, int), HifitimeError> {
    match text_get(b, 3 + c, 5 + c) {
        None => Ok((h as int, 0, 0)),
        Some(ms) => match lexical_i64(ms) {
            None => Err(parse_error(ParsingError::ValueError, "invalid minute")),
            Some(m) => match text_get(b, 5 + 2 * c, b.len() as int) {
                None => Ok((h as int, m as int, 0)),
                Some(ss) => if ss.len() == 0 {
                    Ok((h as int, m as int, 0))
                } else {
                    match lexical_i64(ss) {
                        None => Err(parse_error(ParsingError::ValueError, "invalid seconds")),
                        Some(sec) => Ok((h as int, m as int, sec as int)),
                    }
                },
            },
        },
    }
}

/// Reads a time zone offset `[+/-]HH[:]MM[[:]SS]` (the first byte is skipped); the duration
/// is that of the hours, minutes and seconds, whatever the sign.
pub fn parse_offset(s: &str) -> (r: Result<Duration, HifitimeError>)
    ensures
        offset_colon(s.spec_bytes().len() as int) is None ==> r == Err::<Duration, HifitimeError>(
            parse_error(ParsingError::InvalidTimezone, "invalid timezone format [+/-]HH:MM"),
        ),
        offset_colon(s.spec_bytes().len() as int) is Some && lexical_i64(
            s.spec_bytes().subrange(1, 3),
        ) is None ==> (r matches Err(HifitimeError::Parse { source, details }) && source
            is Lexical && details == "invalid hours"),
        offset_colon(s.spec_bytes().len() as int) matches Some(c) ==> (lexical_i64(
            s.spec_bytes().subrange(1, 3),
        ) matches Some(h) ==> match offset_after_hours(s.spec_bytes(), c, h) {
            Ok((hh, mm, ss)) => r is Ok && r->Ok_0.wf() && r->Ok_0@ == hms_value(hh, mm, ss),
            Err(e) => r == Err::<Duration, HifitimeError>(e),
        }),
{
    let b = s.as_bytes();
    let n = b.len();
    let colon: usize = if n == 3 || n == 5 || n == 7 {
        // There is a zero or even number of separators between the hours, minutes, and seconds.
        0
    } else if n == 4 || n == 6 || n == 9 {
        // There is an odd number of characters as a separator between the hours, minutes, and
        // seconds.
        1
    } else {
        // This invalid
        return Err(
            HifitimeError::Parse {
                source: ParsingError::InvalidTimezone,
                details: "invalid timezone format [+/-]HH:MM",
            },
        );
    };
    // Fetch the hours
    let hours: i64 = match parse_i64(&b[1..3]) {
        Ok(val) => val,
        Err(err) => {
            return Err(
                HifitimeError::Parse { source: ParsingError::Lexical { err }, details: "invalid hours" },
            );
        },
    };
    let mut minutes: i64 = 0;
    let mut seconds: i64 = 0;
    if 5 + colon <= n && s.is_char_boundary(3 + colon) && s.is_char_boundary(5 + colon) {
        // Fetch the minutes
        match parse_i64(&b[3 + colon..5 + colon]) {
            Ok(val) => minutes = val,
            Err(_) => {
                return Err(
                    HifitimeError::Parse {
                        source: ParsingError::ValueError,
                        details: "invalid minute",
                    },
                );
            },
        }
        if 5 + 2 * colon <= n && s.is_char_boundary(5 + 2 * colon) && s.is_char_boundary(n) {
            if 5 + 2 * colon < n {
                // Fetch the seconds
                match parse_i64(&b[5 + 2 * colon..n]) {
                    Ok(val) => seconds = val,
                    Err(_) => {
                        return Err(
                            HifitimeError::Parse {
                                source: ParsingError::ValueError,
                                details: "invalid seconds",
                            },
                        );
                    },
                }
            }
        }
    }
    let h = hours * Unit::Hour;
    let m = minutes * Unit::Minute;
    let sec = seconds * Unit::Second;
    proof {
        crate::duration::lemma_of_ns_wf(h);
        crate::duration::lemma_of_ns_wf(m);
        crate::duration::lemma_of_ns_wf(sec);
    }
    let hm = h + m;
    proof {
        crate::duration::lemma_of_ns_wf(hm);
    }
    Ok(hm + sec)
}


/// Whether a time zone offset reads from the bytes, and then the value of its duration.
pub open spec fn offset_value(b: Seq<u8>) -> Option<int> {
    match offset_colon(b.len() as int) {
        None => None,
        Some(c) => match lexical_i64(b.subrange(1, 3)) {
            None => None,
            Some(h) => match offset_after_hours(b, c, h) {
                Ok((hh, mm, ss)) => Some(hms_value(hh, mm, ss)),
                Err(_) => None,
            },
        },
    }
}

/// How a duration text is read: as a time zone offset, or as terms (numbers and units)
/// after the given number of leading bytes, the duration then negated or not.
pub enum DurationText {
    /// The text is a time zone offset of this duration.
    Offset(Duration),
    /// The text holds terms from the byte `start` of the trimmed text on.
    Terms { negative: bool, start: usize },
}

/// Reads how a duration text is made: the text is trimmed; a leading `-` or `+` may start a
/// time zone offset (negated after a `-`); otherwise the terms start after a leading `-`,
/// which negates them.
pub fn read_duration_text(s_in: &str) -> (r: Result<DurationText, HifitimeError>)
    ensures
        trimmed(s_in@).len() == 0 ==> r == Err::<DurationText, HifitimeError>(
            parse_error(ParsingError::NothingToParse, "input string is empty"),
        ),
        trimmed(s_in@).len() > 0 ==> {
            let t = trimmed(s_in@);
            let signed = t[0] == '-' || t[0] == '+';
            match offset_value(vstd::utf8::encode_utf8(t)) {
                Some(v) if signed => r matches Ok(DurationText::Offset(d)) && d.wf() && d@ == (
                if t[0] == '-' {
                    -v
                } else {
                    v
                }),
                _ => r matches Ok(DurationText::Terms { negative, start }) && negative == (t[0]
                    == '-') && start == (if t[0] == '-' {
                    1usize
                } else {
                    0usize
                }),
            }
        },
{
    let s = trim(s_in);
    let chars = crate::text::chars_of(s);
    if chars.len() == 0 {
        return Err(
            HifitimeError::Parse {
                source: ParsingError::NothingToParse,
                details: "input string is empty",
            },
        );
    }
    // This is maybe a timezone offset.
    let first = chars[0];
    let negative = first == '-';
    let maybe_offset = first == '-' || first == '+';
    let skip: usize = if negative {
        1
    } else {
        0
    };
    if maybe_offset {
        if let Ok(duration) = parse_offset(s) {
            proof {
                duration.lemma_range();
            }
            if negative {
                return Ok(DurationText::Offset(core::ops::Neg::neg(duration)));
            } else {
                return Ok(DurationText::Offset(duration));
            }
        }
    }
    // Fall through because a negative sign could be an offset or a duration.
    Ok(DurationText::Terms { negative, start: skip })
}

} // verus!
