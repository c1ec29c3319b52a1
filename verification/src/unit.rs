use vstd::prelude::*;

use crate::consts::{
    NANOSECONDS_PER_CENTURY, NANOSECONDS_PER_DAY, NANOSECONDS_PER_HOUR,
    NANOSECONDS_PER_MICROSECOND, NANOSECONDS_PER_MILLISECOND, NANOSECONDS_PER_MINUTE,
    NANOSECONDS_PER_SECOND,
};
use crate::duration::{clamp_ns, Duration};

verus! {

/// An Enum to perform time unit conversions.
#[derive(Clone, Copy, Debug, PartialEq, Eq, Hash)]
pub enum Unit {
    Nanosecond,
    Microsecond,
    Millisecond,
    Second,
    Minute,
    Hour,
    Day,
    /// 7 days
    Week,
    /// 36525 days, is the number of days per century in the Julian calendar
    Century,
}

impl Unit {
    /// The number of nanoseconds in one of this unit.
    pub open spec fn ns(self) -> int {
        match self {
            Unit::Nanosecond => 1,
            Unit::Microsecond => 1_000,
            Unit::Millisecond => 1_000_000,
            Unit::Second => 1_000_000_000,
            Unit::Minute => 60_000_000_000,
            Unit::Hour => 3_600_000_000_000,
            Unit::Day => 86_400_000_000_000,
            Unit::Week => 604_800_000_000_000,
            Unit::Century => 3_155_760_000_000_000_000,
        }
    }

    /// Returns the number of nanoseconds in one of this unit.
    pub fn in_nanoseconds(&self) -> (r: i64)
        ensures
            r == self.ns(),
    {
        match self {
            Unit::Nanosecond => 1,
            Unit::Microsecond => NANOSECONDS_PER_MICROSECOND as i64,
            Unit::Millisecond => NANOSECONDS_PER_MILLISECOND as i64,
            Unit::Second => NANOSECONDS_PER_SECOND as i64,
            Unit::Minute => NANOSECONDS_PER_MINUTE as i64,
            Unit::Hour => NANOSECONDS_PER_HOUR as i64,
            Unit::Day => NANOSECONDS_PER_DAY as i64,
            Unit::Week => 7 * (NANOSECONDS_PER_DAY as i64),
            Unit::Century => NANOSECONDS_PER_CENTURY as i64,
        }
    }
}

impl core::ops::Mul<i64> for Unit {
    type Output = Duration;

    /// A duration of `q` times this unit, saturated to the bounds of a duration.
    fn mul(self, q: i64) -> (d: Duration)
        ensures
            d.wf(),
            d@ == clamp_ns(q * self.ns()),
    {
        let factor: i64 = self.in_nanoseconds();
        proof {
            let (a, b) = (q as int, factor as int);
            assert(-0x8000_0000_0000_0000 * 0x8000_0000_0000_0000 <= a * b
                <= 0x8000_0000_0000_0000 * 0x8000_0000_0000_0000) by (nonlinear_arith)
                requires
                    -0x8000_0000_0000_0000 <= a < 0x8000_0000_0000_0000,
                    1 <= b < 0x8000_0000_0000_0000,
            ;
        }
        Duration::from_total_nanoseconds((q as i128) * (factor as i128))
    }
}

impl vstd::std_specs::ops::MulSpecImpl<i64> for Unit {
    open spec fn obeys_mul_spec() -> bool {
        false
    }

    open spec fn mul_req(self, rhs: i64) -> bool {
        true
    }

    open spec fn mul_spec(self, rhs: i64) -> Duration {
        Duration::of_ns(clamp_ns(rhs * self.ns()))
    }
}

impl core::ops::Mul<Unit> for i64 {
    type Output = Duration;

    /// A duration of this many times the unit, saturated to the bounds of a duration.
    fn mul(self, q: Unit) -> (d: Duration)
        ensures
            d.wf(),
            d@ == clamp_ns(self * q.ns()),
    {
        q * self
    }
}

impl vstd::std_specs::ops::MulSpecImpl<Unit> for i64 {
    open spec fn obeys_mul_spec() -> bool {
        false
    }

    open spec fn mul_req(self, rhs: Unit) -> bool {
        true
    }

    open spec fn mul_spec(self, rhs: Unit) -> Duration {
        Duration::of_ns(clamp_ns(self * rhs.ns()))
    }
}

} // verus!
