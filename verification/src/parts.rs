use vstd::prelude::*;

use crate::duration::{abs_int, add_value, clamp_ns, lemma_of_ns_wf, max_ns, sign_of, Duration};

verus! {

/// The parts of a duration: its sign, then the number of each unit, from centuries to
/// zeptoseconds.
#[derive(Copy, Clone, Debug)]
pub struct DurationParts {
    pub sign: i8,
    pub centuries: i128,
    pub days: i128,
    pub hours: i128,
    pub minutes: i128,
    pub seconds: i128,
    pub milliseconds: i128,
    pub microseconds: i128,
    pub nanoseconds: i128,
    pub picoseconds: i128,
    pub femtoseconds: i128,
    pub attoseconds: i128,
    pub zeptoseconds: i128,
}

/// The value of a duration once saturated to the largest duration (the value of the well
/// formed duration of the same parts).
pub open spec fn capped(v: int) -> int {
    if v >= max_ns() {
        max_ns()
    } else {
        v
    }
}

/// The parts of a duration of the given value: the sign, then the days, hours, minutes,
/// seconds, milliseconds, microseconds and nanoseconds of its magnitude; no centuries, and
/// nothing below the nanosecond.
pub open spec fn parts_of_value(v: int) -> DurationParts {
    let a = abs_int(v);
    DurationParts {
        sign: sign_of(v),
        centuries: 0,
        days: (a / 86_400_000_000_000) as i128,
        hours: (a % 86_400_000_000_000 / 3_600_000_000_000) as i128,
        minutes: (a % 3_600_000_000_000 / 60_000_000_000) as i128,
        seconds: (a % 60_000_000_000 / 1_000_000_000) as i128,
        milliseconds: (a % 1_000_000_000 / 1_000_000) as i128,
        microseconds: (a % 1_000_000 / 1_000) as i128,
        nanoseconds: (a % 1_000) as i128,
        picoseconds: 0,
        femtoseconds: 0,
        attoseconds: 0,
        zeptoseconds: 0,
    }
}

/// The duration of a number of units, saturated.
pub open spec fn term(count: int, unit_ns: int) -> Duration {
    Duration::of_ns(clamp_ns(count * unit_ns))
}

/// The value of the sum of the parts, from the days to the nanoseconds, each term and each
/// sum saturated; the centuries and the parts below the nanosecond are not counted.
pub open spec fn parts_sum(p: DurationParts) -> int {
    let s1 = add_value(term(p.days as int, 86_400_000_000_000), term(p.hours as int, 3_600_000_000_000));
    let s2 = add_value(Duration::of_ns(s1), term(p.minutes as int, 60_000_000_000));
    let s3 = add_value(Duration::of_ns(s2), term(p.seconds as int, 1_000_000_000));
    let s4 = add_value(Duration::of_ns(s3), term(p.milliseconds as int, 1_000_000));
    let s5 = add_value(Duration::of_ns(s4), term(p.microseconds as int, 1_000));
    add_value(Duration::of_ns(s5), term(p.nanoseconds as int, 1))
}

/// The value of the duration of the given parts: their sum, negated for a negative sign.
pub open spec fn parts_value(p: DurationParts) -> int {
    if p.sign < 0 {
        -parts_sum(p)
    } else {
        parts_sum(p)
    }
}

/// The duration of a number of units, saturated when the product does not fit.
fn term_duration(count: i128, unit_ns: i128) -> (d: Duration)
    requires
        1 <= unit_ns <= 86_400_000_000_000,
    ensures
        d.wf(),
        d == term(count as int, unit_ns as int),
{
    let d = match count.checked_mul(unit_ns) {
        Some(total) => Duration::from_total_nanoseconds(total),
        None => {
            if count < 0 {
                Duration::init_from_min()
            } else {
                Duration::init_from_max()
            }
        },
    };
    proof {
        if (count as int) * (unit_ns as int) > i128::MAX {
            assert(count >= 0) by (nonlinear_arith)
                requires
                    (count as int) * (unit_ns as int) > i128::MAX,
                    unit_ns >= 1,
            ;
        }
        if (count as int) * (unit_ns as int) < i128::MIN {
            assert(count < 0) by (nonlinear_arith)
                requires
                    (count as int) * (unit_ns as int) < i128::MIN,
                    unit_ns >= 1,
            ;
        }
        lemma_of_ns_wf(d);
    }
    d
}

impl From<Duration> for DurationParts {
    /// The parts of a duration: its sign, then the days, hours, minutes, seconds,
    /// milliseconds, microseconds and nanoseconds of its magnitude.
    fn from(value: Duration) -> (p: DurationParts) {
        let (c, n) = value.to_parts();
        let d = Duration::from_parts(c, n);
        let (sign, days, hours, minutes, seconds, milliseconds, microseconds, nanoseconds) =
            d.decompose();
        DurationParts {
            sign,
            centuries: 0,
            days: days as i128,
            hours: hours as i128,
            minutes: minutes as i128,
            seconds: seconds as i128,
            milliseconds: milliseconds as i128,
            microseconds: microseconds as i128,
            nanoseconds: nanoseconds as i128,
            picoseconds: 0,
            femtoseconds: 0,
            attoseconds: 0,
            zeptoseconds: 0,
        }
    }
}

impl vstd::std_specs::convert::FromSpecImpl<Duration> for DurationParts {
    open spec fn obeys_from_spec() -> bool {
        true
    }

    open spec fn from_spec(v: Duration) -> DurationParts {
        parts_of_value(capped(v@))
    }
}

impl From<DurationParts> for Duration {
    /// The duration of the parts: the days, hours, minutes, seconds, milliseconds,
    /// microseconds and nanoseconds are added (each saturated), then negated for a negative
    /// sign. This duration counts whole nanoseconds: the centuries field and the parts below
    /// the nanosecond are not counted.
    fn from(value: DurationParts) -> (d: Duration) {
        let me = term_duration(value.days, 86_400_000_000_000);
        let me = me + term_duration(value.hours, 3_600_000_000_000);
        proof {
            lemma_of_ns_wf(me);
        }
        let me = me + term_duration(value.minutes, 60_000_000_000);
        proof {
            lemma_of_ns_wf(me);
        }
        let me = me + term_duration(value.seconds, 1_000_000_000);
        proof {
            lemma_of_ns_wf(me);
        }
        let me = me + term_duration(value.milliseconds, 1_000_000);
        proof {
            lemma_of_ns_wf(me);
        }
        let me = me + term_duration(value.microseconds, 1_000);
        proof {
            lemma_of_ns_wf(me);
        }
        let me = me + term_duration(value.nanoseconds, 1);
        proof {
            lemma_of_ns_wf(me);
            me.lemma_range();
        }
        if value.sign < 0 {
            let r = core::ops::Neg::neg(me);
            proof {
                lemma_of_ns_wf(r);
            }
            r
        } else {
            me
        }
    }
}

impl vstd::std_specs::convert::FromSpecImpl<DurationParts> for Duration {
    open spec fn obeys_from_spec() -> bool {
        true
    }

    open spec fn from_spec(v: DurationParts) -> Duration {
        Duration::of_ns(parts_value(v))
    }
}


/// The sum of a duration of the given magnitude plus a non negative duration that keeps it
/// within the largest duration is exact.
pub proof fn lemma_add_exact(a: int, b: int)
    requires
        0 <= a,
        0 <= b,
        a + b <= max_ns(),
    ensures
        add_value(Duration::of_ns(a), Duration::of_ns(b)) == a + b,
{
    Duration::lemma_of_ns(a);
    Duration::lemma_of_ns(b);
    Duration::of_ns(a).lemma_parts();
    Duration::of_ns(b).lemma_parts();
    vstd::arithmetic::div_mod::lemma_div_pos_is_pos(a, crate::duration::npc());
    vstd::arithmetic::div_mod::lemma_div_pos_is_pos(b, crate::duration::npc());
    crate::duration::law_add_saturates(Duration::of_ns(a), Duration::of_ns(b));
}

/// Splitting a duration in its parts, then building the duration of those parts, gives the
/// duration back.
pub proof fn law_parts_round_trip(d: Duration)
    requires
        d.wf(),
    ensures
        parts_value(parts_of_value(capped(d@))) == d@,
{
    d.lemma_range();
    let v = d@;
    let a = abs_int(v);
    let p = parts_of_value(capped(v));
    assert(capped(v) == v);
    let dd = a / 86_400_000_000_000;
    let r0 = a % 86_400_000_000_000;
    let hh = r0 / 3_600_000_000_000;
    let r1 = r0 % 3_600_000_000_000;
    let mm = r1 / 60_000_000_000;
    let r2 = r1 % 60_000_000_000;
    let ss = r2 / 1_000_000_000;
    let r3 = r2 % 1_000_000_000;
    let ms = r3 / 1_000_000;
    let r4 = r3 % 1_000_000;
    let us = r4 / 1_000;
    let ns = r4 % 1_000;
    vstd::arithmetic::div_mod::lemma_fundamental_div_mod(a, 86_400_000_000_000);
    vstd::arithmetic::div_mod::lemma_fundamental_div_mod(r0, 3_600_000_000_000);
    vstd::arithmetic::div_mod::lemma_fundamental_div_mod(r1, 60_000_000_000);
    vstd::arithmetic::div_mod::lemma_fundamental_div_mod(r2, 1_000_000_000);
    vstd::arithmetic::div_mod::lemma_fundamental_div_mod(r3, 1_000_000);
    vstd::arithmetic::div_mod::lemma_fundamental_div_mod(r4, 1_000);
    vstd::arithmetic::div_mod::lemma_mod_mod(a, 3_600_000_000_000, 24);
    vstd::arithmetic::div_mod::lemma_mod_mod(a, 60_000_000_000, 60);
    vstd::arithmetic::div_mod::lemma_mod_mod(a, 1_000_000_000, 60);
    vstd::arithmetic::div_mod::lemma_mod_mod(a, 1_000_000, 1000);
    vstd::arithmetic::div_mod::lemma_mod_mod(a, 1_000, 1000);
    vstd::arithmetic::div_mod::lemma_div_is_ordered(0, a, 86_400_000_000_000);
    vstd::arithmetic::div_mod::lemma_div_is_ordered(a, max_ns(), 86_400_000_000_000);
    assert(p.days == dd && p.hours == hh && p.minutes == mm && p.seconds == ss);
    assert(p.milliseconds == ms && p.microseconds == us && p.nanoseconds == ns);
    Duration::lemma_of_ns(dd * 86_400_000_000_000);
    lemma_add_exact(dd * 86_400_000_000_000, hh * 3_600_000_000_000);
    let s1 = dd * 86_400_000_000_000 + hh * 3_600_000_000_000;
    lemma_add_exact(s1, mm * 60_000_000_000);
    let s2 = s1 + mm * 60_000_000_000;
    lemma_add_exact(s2, ss * 1_000_000_000);
    let s3 = s2 + ss * 1_000_000_000;
    lemma_add_exact(s3, ms * 1_000_000);
    let s4 = s3 + ms * 1_000_000;
    lemma_add_exact(s4, us * 1_000);
    let s5 = s4 + us * 1_000;
    lemma_add_exact(s5, ns);
    assert(parts_sum(p) == a);
}

} // verus!
