use vstd::prelude::*;
use vstd::string::StringExecFns;

use crate::duration::{abs_int, Duration};

verus! {

/// The character of a decimal digit.
pub open spec fn digit_char(d: int) -> char {
    if d == 0 {
        '0'
    } else if d == 1 {
        '1'
    } else if d == 2 {
        '2'
    } else if d == 3 {
        '3'
    } else if d == 4 {
        '4'
    } else if d == 5 {
        '5'
    } else if d == 6 {
        '6'
    } else if d == 7 {
        '7'
    } else if d == 8 {
        '8'
    } else {
        '9'
    }
}

/// The decimal writing of a natural number, without leading zeros.
pub open spec fn decimal(v: nat) -> Seq<char>
    decreases v,
{
    if v < 10 {
        seq![digit_char(v as int)]
    } else {
        decimal(v / 10) + seq![digit_char((v % 10) as int)]
    }
}

/// The text of a decimal digit.
fn digit_str(d: u64) -> (r: &'static str)
    requires
        d < 10,
    ensures
        r@ == seq![digit_char(d as int)],
{
    proof {
        reveal_strlit("0");
        reveal_strlit("1");
        reveal_strlit("2");
        reveal_strlit("3");
        reveal_strlit("4");
        reveal_strlit("5");
        reveal_strlit("6");
        reveal_strlit("7");
        reveal_strlit("8");
        reveal_strlit("9");
    }
    match d {
        0 => "0",
        1 => "1",
        2 => "2",
        3 => "3",
        4 => "4",
        5 => "5",
        6 => "6",
        7 => "7",
        8 => "8",
        _ => "9",
    }
}

/// Appends the decimal writing of a number to the text.
pub fn push_decimal(out: &mut String, v: u64)
    ensures
        final(out)@ == old(out)@ + decimal(v as nat),
    decreases v,
{
    if v >= 10 {
        push_decimal(out, v / 10);
    }
    out.append(digit_str(v % 10));
    proof {
        assert(final(out)@ =~= old(out)@ + decimal(v as nat));
    }
}

/// The names of the units of the terms of a duration's text, from days to nanoseconds, for a
/// term of the given value (`day` for a single day).
pub open spec fn term_unit(k: int, v: nat) -> Seq<char> {
    if k == 0 {
        if v > 1 {
            "days"@
        } else {
            "day"@
        }
    } else if k == 1 {
        "h"@
    } else if k == 2 {
        "min"@
    } else if k == 3 {
        "s"@
    } else if k == 4 {
        "ms"@
    } else if k == 5 {
        "μs"@
    } else {
        "ns"@
    }
}

/// The text of the terms of a duration from the `k`-th on: each non zero value with its unit,
/// separated by spaces (`spaced` when a term was written before).
pub open spec fn terms_text(values: Seq<nat>, k: int, spaced: bool) -> Seq<char>
    decreases 7 - k,
{
    if k >= 7 || k < 0 {
        Seq::empty()
    } else if values[k] > 0 {
        (if spaced {
            " "@
        } else {
            Seq::empty()
        }) + decimal(values[k]) + " "@ + term_unit(k, values[k]) + terms_text(values, k + 1, true)
    } else {
        terms_text(values, k + 1, spaced)
    }
}

/// The values of the units of a duration of the given magnitude, from days to nanoseconds.
pub open spec fn unit_values(a: int) -> Seq<nat> {
    seq![
        (a / 86_400_000_000_000) as nat,
        (a % 86_400_000_000_000 / 3_600_000_000_000) as nat,
        (a % 3_600_000_000_000 / 60_000_000_000) as nat,
        (a % 60_000_000_000 / 1_000_000_000) as nat,
        (a % 1_000_000_000 / 1_000_000) as nat,
        (a % 1_000_000 / 1_000) as nat,
        (a % 1_000) as nat,
    ]
}

/// The text of a duration of the given value: `0 ns` for zero, otherwise a minus sign for a
/// negative duration, then each non zero unit, from days to nanoseconds.
pub open spec fn duration_text(v: int) -> Seq<char> {
    if v == 0 {
        "0 ns"@
    } else {
        (if v < 0 {
            "-"@
        } else {
            Seq::empty()
        }) + terms_text(unit_values(abs_int(v)), 0, false)
    }
}

/// The name of the unit of the `k`-th term, of the given value.
fn unit_str(k: usize, v: u64) -> (r: &'static str)
    requires
        k < 7,
    ensures
        r@ == term_unit(k as int, v as nat),
{
    match k {
        0 => if v > 1 {
            "days"
        } else {
            "day"
        },
        1 => "h",
        2 => "min",
        3 => "s",
        4 => "ms",
        5 => "μs",
        _ => "ns",
    }
}

impl Duration {
    /// Prints this duration with automatic selection of the units: each unit whose value is
    /// not zero is written, from days to nanoseconds (`0 ns` for a zero duration).
    pub fn to_text(&self) -> (r: String)
        requires
            self.wf(),
        ensures
            r@ == duration_text(self@),
    {
        if self.total_nanoseconds() == 0 {
            return String::from_str("0 ns");
        }
        let (sign, days, hours, minutes, seconds, milli, us, nano) = self.decompose();
        let mut out = String::new();
        if sign == -1 {
            out.append("-");
        }
        let values: [u64; 7] = [days, hours, minutes, seconds, milli, us, nano];
        let ghost vals = unit_values(abs_int(self@));
        let ghost start = out@;
        let mut insert_space = false;
        let mut k: usize = 0;
        proof {
            assert(out@ + terms_text(vals, 0, false) =~= start + terms_text(vals, 0, false));
        }
        while k < 7
            invariant
                k <= 7,
                forall|i: int| 0 <= i < 7 ==> values@[i] as nat == #[trigger] vals[i],
                vals.len() == 7,
                out@ + terms_text(vals, k as int, insert_space) == start + terms_text(
                    vals,
                    0,
                    false,
                ),
            decreases 7 - k,
        {
            let val = values[k];
            if val > 0 {
                let ghost before = out@;
                if insert_space {
                    out.append(" ");
                }
                push_decimal(&mut out, val);
                out.append(" ");
                out.append(unit_str(k, val));
                proof {
                    assert(before + terms_text(vals, k as int, insert_space) =~= out@
                        + terms_text(vals, k + 1, true));
                }
                insert_space = true;
            }
            k = k + 1;
        }
        proof {
            assert(out@ =~= out@ + terms_text(vals, 7, insert_space));
        }
        out
    }
}

} // verus!
