use vstd::prelude::*;

use crate::consts::{
    NANOSECONDS_PER_CENTURY, NANOSECONDS_PER_DAY, NANOSECONDS_PER_HOUR,
    NANOSECONDS_PER_MICROSECOND, NANOSECONDS_PER_MILLISECOND, NANOSECONDS_PER_MINUTE,
    NANOSECONDS_PER_SECOND,
};
use crate::errors::{DurationError, HifitimeError};
use crate::unit::Unit;

verus! {

/// Nanoseconds in one century, as a mathematical integer.
pub open spec fn npc() -> int {
    3155760000000000000
}

/// Value in nanoseconds of the smallest representable duration.
pub open spec fn min_ns() -> int {
    -32768 * npc()
}

/// Value in nanoseconds of the largest representable duration.
pub open spec fn max_ns() -> int {
    32768 * npc()
}

/// Saturates a number of nanoseconds to the representable range.
pub open spec fn clamp_ns(v: int) -> int {
    if v > max_ns() {
        max_ns()
    } else if v < min_ns() {
        min_ns()
    } else {
        v
    }
}

/// Durations with nanosecond precision valid for 32,768 centuries in either direction.
///
/// The nanoseconds are the nanoseconds _into_ the current century: a duration of
/// centuries = -1 and nanoseconds = NANOSECONDS_PER_CENTURY - 1 is one nanosecond before zero.
/// The largest duration sets the centuries to `i16::MAX` and its nanoseconds to
/// `NANOSECONDS_PER_CENTURY`.
#[derive(Clone, Copy, Debug, PartialEq, Eq, Structural, PartialOrd, Ord, Hash)]
pub struct Duration {
    pub(crate) centuries: i16,
    pub(crate) nanoseconds: u64,
}

impl View for Duration {
    type V = int;

    /// The signed number of nanoseconds that this duration represents.
    closed spec fn view(&self) -> int {
        self.centuries * npc() + self.nanoseconds
    }
}

impl Duration {
    /// A duration is well formed when its nanoseconds lie within one century, or when it is
    /// the largest duration.
    pub closed spec fn wf(self) -> bool {
        ||| self.nanoseconds < NANOSECONDS_PER_CENTURY
        ||| (self.centuries == i16::MAX && self.nanoseconds == NANOSECONDS_PER_CENTURY)
    }

    /// The well formed duration of the given number of nanoseconds (when in range).
    pub closed spec fn of_ns(v: int) -> Duration {
        if v >= max_ns() {
            Duration { centuries: i16::MAX, nanoseconds: NANOSECONDS_PER_CENTURY }
        } else {
            Duration { centuries: (v / npc()) as i16, nanoseconds: (v % npc()) as u64 }
        }
    }

    pub closed spec fn spec_centuries(self) -> i16 {
        self.centuries
    }

    pub closed spec fn spec_nanoseconds(self) -> u64 {
        self.nanoseconds
    }

    /// Every well formed duration lies in the representable range.
    pub proof fn lemma_range(self)
        requires
            self.wf(),
        ensures
            min_ns() <= self@ <= max_ns(),
    {
    }

    /// The parts of a well formed duration are determined by its value.
    pub proof fn lemma_parts(self)
        requires
            self.wf(),
        ensures
            self@ == self.spec_centuries() * npc() + self.spec_nanoseconds(),
            self@ < max_ns() ==> self.spec_centuries() == self@ / npc() && self.spec_nanoseconds()
                == self@ % npc(),
            self@ == max_ns() ==> self.spec_centuries() == i16::MAX && self.spec_nanoseconds()
                == NANOSECONDS_PER_CENTURY,
    {
        if self@ < max_ns() {
            assert(self.nanoseconds < npc());
            vstd::arithmetic::div_mod::lemma_fundamental_div_mod_converse(
                self@,
                npc(),
                self.centuries as int,
                self.nanoseconds as int,
            );
        }
    }

    /// Two well formed durations of the same value are the same duration.
    pub proof fn lemma_unique(a: Duration, b: Duration)
        requires
            a.wf(),
            b.wf(),
            a@ == b@,
        ensures
            a == b,
    {
        a.lemma_parts();
        b.lemma_parts();
    }

    /// `of_ns` builds a well formed duration of exactly the requested value.
    pub proof fn lemma_of_ns(v: int)
        requires
            min_ns() <= v <= max_ns(),
        ensures
            Self::of_ns(v).wf(),
            Self::of_ns(v)@ == v,
    {
        if v < max_ns() {
            vstd::arithmetic::div_mod::lemma_fundamental_div_mod(v, npc());
            assert(-32768 <= v / npc() < 32768) by {
                vstd::arithmetic::div_mod::lemma_div_is_ordered(min_ns(), v, npc());
                vstd::arithmetic::div_mod::lemma_div_is_ordered(v, max_ns() - 1, npc());
                assert(min_ns() / npc() == -32768);
                assert((max_ns() - 1) / npc() == 32767);
            }
        }
    }

    /// Normalizes the parts so that the nanoseconds lie within one century, saturating to the
    /// largest duration.
    fn normalize(&mut self)
        ensures
            final(self).wf(),
            final(self)@ == if old(self)@ >= max_ns() {
                max_ns()
            } else {
                old(self)@
            },
    {
        let extra_centuries: u64 = self.nanoseconds / NANOSECONDS_PER_CENTURY;
        if extra_centuries > 0 {
            let rem_nanos: u64 = self.nanoseconds % NANOSECONDS_PER_CENTURY;
            if self.centuries == i16::MAX {
                if self.nanoseconds.saturating_add(rem_nanos) > NANOSECONDS_PER_CENTURY {
                    *self = Self::init_from_max();
                }
            } else if !(self.centuries == i16::MAX && self.nanoseconds == NANOSECONDS_PER_CENTURY)
                && !(self.centuries == i16::MIN && self.nanoseconds == 0) {
                match self.centuries.checked_add(extra_centuries as i16) {
                    Some(centuries) => {
                        self.centuries = centuries;
                        self.nanoseconds = rem_nanos;
                    },
                    None => {
                        if self.centuries >= 0 {
                            *self = Self::init_from_max();
                        } else {
                            *self = Self::init_from_min();
                        }
                    },
                }
            }
        }
    }

    /// A duration of exactly zero nanoseconds
    pub fn zero() -> (d: Duration)
        ensures
            d.wf(),
            d@ == 0,
    {
        Duration { centuries: 0, nanoseconds: 0 }
    }

    /// Maximum duration that can be represented
    pub fn init_from_max() -> (d: Duration)
        ensures
            d.wf(),
            d@ == max_ns(),
    {
        Duration { centuries: i16::MAX, nanoseconds: NANOSECONDS_PER_CENTURY }
    }

    /// Minimum duration that can be represented
    pub fn init_from_min() -> (d: Duration)
        ensures
            d.wf(),
            d@ == min_ns(),
    {
        Duration { centuries: i16::MIN, nanoseconds: 0 }
    }

    /// Smallest duration that can be represented
    pub fn epsilon() -> (d: Duration)
        ensures
            d.wf(),
            d@ == 1,
    {
        Duration { centuries: 0, nanoseconds: 1 }
    }

    /// Minimum positive duration is one nanoseconds
    pub fn min_positive() -> (d: Duration)
        ensures
            d.wf(),
            d@ == 1,
    {
        Duration { centuries: 0, nanoseconds: 1 }
    }

    /// Minimum negative duration is minus one nanosecond
    pub fn min_negative() -> (d: Duration)
        ensures
            d.wf(),
            d@ == -1,
    {
        Duration { centuries: -1, nanoseconds: NANOSECONDS_PER_CENTURY - 1 }
    }
}


/// The value of the sum of two durations: the centuries are added first and saturate to the
/// bound of their sign when they overflow, otherwise the exact sum saturates to the maximum.
pub open spec fn add_value(a: Duration, b: Duration) -> int {
    let c = a.spec_centuries() + b.spec_centuries();
    if c > i16::MAX {
        max_ns()
    } else if c < i16::MIN {
        min_ns()
    } else if a@ + b@ >= max_ns() {
        max_ns()
    } else {
        a@ + b@
    }
}

/// The value of the difference of two durations: when the difference of the centuries does
/// not fit, the minimum duration; otherwise the exact difference, saturated.
pub open spec fn sub_value(a: Duration, b: Duration) -> int {
    let c = a.spec_centuries() - b.spec_centuries();
    if c > i16::MAX || c < i16::MIN {
        min_ns()
    } else {
        clamp_ns(a@ - b@)
    }
}

/// The sign of a number of nanoseconds.
pub open spec fn sign_of(v: int) -> i8 {
    if v < 0 {
        -1i8
    } else if v == 0 {
        0i8
    } else {
        1i8
    }
}

/// Whether a value fits the signed 64 bit truncated nanoseconds.
pub open spec fn fits_truncated(v: int) -> bool {
    i64::MIN <= v <= i64::MAX
}


/// The absolute value of an integer.
pub open spec fn abs_int(v: int) -> int {
    if v < 0 {
        -v
    } else {
        v
    }
}

/// The largest multiple of `|q|` at or below `t`, saturated (zero when `q` is zero).
pub open spec fn floor_value(t: int, q: int) -> int {
    if q == 0 {
        0
    } else {
        clamp_ns(t - t % abs_int(q))
    }
}

/// The floor plus one step of `|q|`, saturated.
pub open spec fn ceil_value(t: int, q: int) -> int {
    clamp_ns(floor_value(t, q) + abs_int(q))
}

/// The value of rounding `d` to a multiple of `q`: the floor when it is strictly closer than
/// the ceiling, else the ceiling.
pub open spec fn round_value(d: Duration, q: int) -> int {
    let fl = floor_value(d@, q);
    let ce = ceil_value(d@, q);
    if sub_value(d, Duration::of_ns(fl)) < abs_int(sub_value(Duration::of_ns(ce), d)) {
        fl
    } else {
        ce
    }
}

/// The unit used by `approx`: the largest unit present in the decomposition of `v`.
pub open spec fn approx_unit(v: int) -> int {
    let a = abs_int(v);
    if a / 86_400_000_000_000 > 0 {
        86_400_000_000_000
    } else if a % 86_400_000_000_000 / 3_600_000_000_000 > 0 {
        3_600_000_000_000
    } else if a % 3_600_000_000_000 / 60_000_000_000 > 0 {
        60_000_000_000
    } else if a % 60_000_000_000 / 1_000_000_000 > 0 {
        1_000_000_000
    } else if a % 1_000_000_000 / 1_000_000 > 0 {
        1_000_000
    } else if a % 1_000_000 / 1_000 > 0 {
        1_000
    } else {
        1
    }
}

/// `approx` rounds to a unit of the decomposition of a duration (a day, hour, minute,
/// second, millisecond, microsecond or nanosecond): the largest of these units that is not
/// longer than the duration's magnitude, so that its part is the first one that is not zero
/// in the order days, hours, minutes, seconds, milliseconds, microseconds, nanoseconds (a
/// nanosecond for a zero duration).
pub proof fn law_approx_largest_unit(v: int)
    ensures
        approx_unit(v) == Unit::Day.ns() || approx_unit(v) == Unit::Hour.ns() || approx_unit(v)
            == Unit::Minute.ns() || approx_unit(v) == Unit::Second.ns() || approx_unit(v)
            == Unit::Millisecond.ns() || approx_unit(v) == Unit::Microsecond.ns() || approx_unit(
            v,
        ) == Unit::Nanosecond.ns(),
        v != 0 ==> approx_unit(v) <= abs_int(v),
        forall|u: Unit|
            u != Unit::Week && u != Unit::Century && #[trigger] u.ns() <= abs_int(v) ==> u.ns()
                <= approx_unit(v),
{
    let a = abs_int(v);
    if a < 86_400_000_000_000 {
        assert(a / 86_400_000_000_000 == 0);
        assert(a % 86_400_000_000_000 == a);
        if a < 3_600_000_000_000 {
            assert(a % 3_600_000_000_000 == a);
            if a < 60_000_000_000 {
                assert(a % 60_000_000_000 == a);
                if a < 1_000_000_000 {
                    assert(a % 1_000_000_000 == a);
                    if a < 1_000_000 {
                        assert(a % 1_000_000 == a);
                    }
                }
            }
        }
    }
}

/// The part of the decomposition of `v` in a unit: whole days, then the hours, minutes,
/// seconds, milliseconds, microseconds and nanoseconds left over (zero for weeks and
/// centuries, which the decomposition does not use).
pub open spec fn unit_part(v: int, unit: Unit) -> int {
    let a = abs_int(v);
    match unit {
        Unit::Day => a / 86_400_000_000_000,
        Unit::Hour => a % 86_400_000_000_000 / 3_600_000_000_000,
        Unit::Minute => a % 3_600_000_000_000 / 60_000_000_000,
        Unit::Second => a % 60_000_000_000 / 1_000_000_000,
        Unit::Millisecond => a % 1_000_000_000 / 1_000_000,
        Unit::Microsecond => a % 1_000_000 / 1_000,
        Unit::Nanosecond => a % 1_000,
        Unit::Week | Unit::Century => 0,
    }
}

/// A part of the decomposition, times its unit, never exceeds the magnitude of the value.
proof fn lemma_unit_part_bounds(v: int, unit: Unit)
    requires
        min_ns() <= v <= max_ns(),
    ensures
        0 <= unit_part(v, unit) * unit.ns() <= abs_int(v) <= max_ns(),
        unit_part(v, unit) <= i64::MAX,
{
    let a = abs_int(v);
    let (m, q): (int, int) = match unit {
        Unit::Day => (a, 86_400_000_000_000),
        Unit::Hour => (a % 86_400_000_000_000, 3_600_000_000_000),
        Unit::Minute => (a % 3_600_000_000_000, 60_000_000_000),
        Unit::Second => (a % 60_000_000_000, 1_000_000_000),
        Unit::Millisecond => (a % 1_000_000_000, 1_000_000),
        Unit::Microsecond => (a % 1_000_000, 1_000),
        Unit::Nanosecond => (a % 1_000, 1),
        Unit::Week | Unit::Century => (0, 1),
    };
    vstd::arithmetic::div_mod::lemma_mod_decreases(a as nat, 86_400_000_000_000);
    vstd::arithmetic::div_mod::lemma_mod_decreases(a as nat, 3_600_000_000_000);
    vstd::arithmetic::div_mod::lemma_mod_decreases(a as nat, 60_000_000_000);
    vstd::arithmetic::div_mod::lemma_mod_decreases(a as nat, 1_000_000_000);
    vstd::arithmetic::div_mod::lemma_mod_decreases(a as nat, 1_000_000);
    vstd::arithmetic::div_mod::lemma_mod_decreases(a as nat, 1_000);
    vstd::arithmetic::div_mod::lemma_mod_bound(a, 1_000);
    assert(0 <= m <= a);
    vstd::arithmetic::div_mod::lemma_fundamental_div_mod(m, q);
    vstd::arithmetic::div_mod::lemma_mod_bound(m, q);
    vstd::arithmetic::div_mod::lemma_div_pos_is_pos(m, q);
    vstd::arithmetic::mul::lemma_mul_is_commutative(q, m / q);
    assert((m / q) * q <= m);
    vstd::arithmetic::div_mod::lemma_div_is_ordered_by_denominator(m, 1, q);
    assert(unit_part(v, unit) * unit.ns() == (m / q) * q || (unit is Week || unit is Century));
}

/// Whether the parts of `a` come before those of `b`: fewer centuries, or as many centuries
/// and fewer nanoseconds.
pub open spec fn parts_before(a: Duration, b: Duration) -> bool {
    a.spec_centuries() < b.spec_centuries() || (a.spec_centuries() == b.spec_centuries()
        && a.spec_nanoseconds() < b.spec_nanoseconds())
}

/// Rust's division truncated toward zero.
pub open spec fn trunc_div(t: int, q: int) -> int {
    if (t >= 0) == (q > 0) {
        abs_int(t) / abs_int(q)
    } else {
        -(abs_int(t) / abs_int(q))
    }
}

impl Duration {
    /// Builds a new duration from the number of centuries and the number of nanoseconds.
    /// Prefer `from_parts`.
    #[must_use]
    pub fn new(centuries: i16, nanoseconds: u64) -> (d: Self)
        ensures
            d.wf(),
            d@ == if centuries * npc() + nanoseconds >= max_ns() {
                max_ns()
            } else {
                centuries * npc() + nanoseconds
            },
    {
        let mut out = Self { centuries, nanoseconds };
        out.normalize();
        out
    }

    #[must_use]
    /// Create a normalized duration from its parts
    pub fn from_parts(centuries: i16, nanoseconds: u64) -> (d: Self)
        ensures
            d.wf(),
            d@ == if centuries * npc() + nanoseconds >= max_ns() {
                max_ns()
            } else {
                centuries * npc() + nanoseconds
            },
    {
        let mut me = Self { centuries, nanoseconds };
        me.normalize();
        me
    }

    #[must_use]
    /// Converts the total nanoseconds as i128 into this Duration, saturating to the bounds.
    pub fn from_total_nanoseconds(nanos: i128) -> (d: Self)
        ensures
            d.wf(),
            d@ == clamp_ns(nanos as int),
    {
        if nanos == 0 {
            Self::zero()
        } else {
            let per_century: i128 = NANOSECONDS_PER_CENTURY as i128;
            let centuries_i128: i128 = match nanos.checked_div_euclid(per_century) {
                Some(c) => c,
                None => 0,
            };
            let remaining_nanos_i128: i128 = match nanos.checked_rem_euclid(per_century) {
                Some(r) => r,
                None => 0,
            };
            proof {
                vstd::arithmetic::div_mod::lemma_fundamental_div_mod(nanos as int, npc());
            }
            if centuries_i128 > i16::MAX as i128 {
                Self::init_from_max()
            } else if centuries_i128 < i16::MIN as i128 {
                Self::init_from_min()
            } else {
                Self::from_parts(centuries_i128 as i16, remaining_nanos_i128 as u64)
            }
        }
    }

    #[must_use]
    /// Create a new duration from the truncated nanoseconds (+/- 2927.1 years of duration)
    pub fn from_truncated_nanoseconds(nanos: i64) -> (d: Self)
        ensures
            d.wf(),
            d@ == nanos as int,
    {
        if nanos < 0 {
            let ns: u64 = if nanos == i64::MIN {
                9_223_372_036_854_775_808u64
            } else {
                (-nanos) as u64
            };
            let extra_centuries: u64 = ns / NANOSECONDS_PER_CENTURY;
            let rem_nanos: u64 = ns % NANOSECONDS_PER_CENTURY;
            proof {
                vstd::arithmetic::div_mod::lemma_fundamental_div_mod(ns as int, npc());
            }
            Self::from_parts(-1 - (extra_centuries as i16), NANOSECONDS_PER_CENTURY - rem_nanos)
        } else {
            Self::from_parts(0, nanos as u64)
        }
    }

    #[must_use]
    /// Returns the centuries and nanoseconds of this duration
    pub fn to_parts(&self) -> (r: (i16, u64))
        ensures
            r.0 == self.spec_centuries(),
            r.1 == self.spec_nanoseconds(),
            self@ == r.0 * npc() + r.1,
    {
        (self.centuries, self.nanoseconds)
    }

    /// Returns the total nanoseconds in a signed 128 bit integer
    #[must_use]
    pub fn total_nanoseconds(&self) -> (r: i128)
        ensures
            r == self@,
    {
        proof {
            let c = self.centuries as int;
            assert(-32768 * npc() <= c * npc() <= 32767 * npc()) by (nonlinear_arith)
                requires
                    -32768 <= c <= 32767,
                    npc() == 3155760000000000000,
            ;
        }
        (self.centuries as i128) * (NANOSECONDS_PER_CENTURY as i128) + (self.nanoseconds as i128)
    }

    /// Returns the truncated nanoseconds in a signed 64 bit integer, if the duration fits.
    pub fn try_truncated_nanoseconds(&self) -> (r: Result<i64, HifitimeError>)
        requires
            self.wf(),
        ensures
            fits_truncated(self@) ==> r == Ok::<i64, HifitimeError>(self@ as i64),
            !fits_truncated(self@) ==> r == Err::<i64, HifitimeError>(
                HifitimeError::Duration { source: DurationError::Overflow },
            ),
    {
        let total: i128 = self.total_nanoseconds();
        if total < i64::MIN as i128 || total > i64::MAX as i128 {
            Err(HifitimeError::Duration { source: DurationError::Overflow })
        } else {
            Ok(total as i64)
        }
    }

    /// Returns the truncated nanoseconds in a signed 64 bit integer, if the duration fits.
    /// This function will NOT fail and will return the i64::MIN or i64::MAX depending on
    /// the sign of the duration if it does not fit on an i64.
    #[must_use]
    pub fn truncated_nanoseconds(&self) -> (r: i64)
        requires
            self.wf(),
        ensures
            r == if fits_truncated(self@) {
                self@
            } else if self@ < 0 {
                i64::MIN as int
            } else {
                i64::MAX as int
            },
    {
        proof {
            self.lemma_parts();
        }
        match self.try_truncated_nanoseconds() {
            Ok(val) => val,
            Err(_) => {
                if self.centuries < 0 {
                    i64::MIN
                } else {
                    i64::MAX
                }
            },
        }
    }

    /// Returns the absolute value of this duration
    #[must_use]
    pub fn abs(&self) -> (d: Self)
        requires
            self.wf(),
        ensures
            d.wf(),
            d@ == if self@ < 0 {
                -self@
            } else {
                self@
            },
    {
        if self.centuries < 0 {
            core::ops::Neg::neg(*self)
        } else {
            *self
        }
    }

    /// Returns the sign of this duration
    /// + 0 if the number is zero
    /// + 1 if the number is positive
    /// + -1 if the number is negative
    #[must_use]
    pub fn signum(&self) -> (r: i8)
        requires
            self.wf(),
        ensures
            r == sign_of(self@),
    {
        if self.centuries < 0 {
            -1
        } else if self.centuries == 0 && self.nanoseconds == 0 {
            0
        } else {
            1
        }
    }

    /// Returns whether this is a negative or positive duration.
    pub fn is_negative(&self) -> (r: bool)
        requires
            self.wf(),
        ensures
            r == (self@ < 0),
    {
        self.centuries < 0
    }
}

impl core::ops::Add for Duration {
    type Output = Duration;

    /// # Addition of Durations
    /// Durations are centered on zero duration. Of the tuple, only the centuries may be
    /// negative, the nanoseconds are always positive and represent the nanoseconds _into_ the
    /// current centuries.
    fn add(self, rhs: Self) -> (d: Duration)
        ensures
            d.wf(),
            d@ == add_value(self, rhs),
    {
        let mut me = self;
        match me.centuries.checked_add(rhs.centuries) {
            None => {
                if me.centuries < 0 {
                    return Self::init_from_min();
                } else {
                    return Self::init_from_max();
                }
            },
            Some(centuries) => {
                me.centuries = centuries;
            },
        }
        match me.nanoseconds.checked_add(rhs.nanoseconds) {
            Some(nanoseconds) => me.nanoseconds = nanoseconds,
            None => {
                // The inputs are normalized, so the sum of nanoseconds always fits.
                return Self::init_from_max();
            },
        }
        me.normalize();
        me
    }
}

impl vstd::std_specs::ops::AddSpecImpl for Duration {
    open spec fn obeys_add_spec() -> bool {
        false
    }

    open spec fn add_req(self, rhs: Duration) -> bool {
        self.wf() && rhs.wf()
    }

    open spec fn add_spec(self, rhs: Duration) -> Duration {
        Duration::of_ns(add_value(self, rhs))
    }
}

impl core::ops::Sub for Duration {
    type Output = Duration;

    /// # Subtraction
    /// A Duration of (-1, NANOSECONDS_PER_CENTURY-1) is closer to zero than (-1, 0).
    /// If the nanoseconds of the left side are fewer than those of the right side, one
    /// century is borrowed. One cannot subtract anything from the MIN.
    fn sub(self, rhs: Self) -> (d: Duration)
        ensures
            d.wf(),
            d@ == sub_value(self, rhs),
    {
        let mut me = self;
        match me.centuries.checked_sub(rhs.centuries) {
            None => {
                return Self::init_from_min();
            },
            Some(centuries) => {
                me.centuries = centuries;
            },
        }
        match me.nanoseconds.checked_sub(rhs.nanoseconds) {
            None => {
                match me.centuries.checked_sub(1) {
                    Some(centuries) => {
                        me.centuries = centuries;
                        me.nanoseconds = me.nanoseconds + NANOSECONDS_PER_CENTURY - rhs.nanoseconds;
                    },
                    None => {
                        return Self::init_from_min();
                    },
                }
            },
            Some(nanos) => me.nanoseconds = nanos,
        }
        me.normalize();
        me
    }
}

impl vstd::std_specs::ops::SubSpecImpl for Duration {
    open spec fn obeys_sub_spec() -> bool {
        false
    }

    open spec fn sub_req(self, rhs: Duration) -> bool {
        self.wf() && rhs.wf()
    }

    open spec fn sub_spec(self, rhs: Duration) -> Duration {
        Duration::of_ns(sub_value(self, rhs))
    }
}

impl core::ops::Neg for Duration {
    type Output = Duration;

    /// Negates this duration; the minimum and maximum durations are each other's opposite.
    fn neg(self) -> (d: Duration)
        ensures
            d.wf(),
            d@ == -self@,
    {
        if self == Self::init_from_min() {
            Self::init_from_max()
        } else if self == Self::init_from_max() {
            Self::init_from_min()
        } else {
            match NANOSECONDS_PER_CENTURY.checked_sub(self.nanoseconds) {
                Some(nanoseconds) => {
                    Self::from_parts((-(self.centuries as i32) - 1) as i16, nanoseconds)
                },
                None => {
                    // The duration is normalized, so this never happens.
                    Self::zero()
                },
            }
        }
    }
}

impl vstd::std_specs::ops::NegSpecImpl for Duration {
    open spec fn obeys_neg_spec() -> bool {
        false
    }

    open spec fn neg_req(self) -> bool {
        self.wf()
    }

    open spec fn neg_spec(self) -> Duration {
        Duration::of_ns(-self@)
    }
}

impl Duration {
    /// Whether this duration comes strictly before the other in the order of the parts, which
    /// for well formed durations is the order of their values.
    pub fn lt(&self, other: &Self) -> (r: bool)
        ensures
            r == parts_before(*self, *other),
            self.wf() && other.wf() ==> (r == (self@ < other@)),
    {
        proof {
            if self.wf() && other.wf() {
                self.lemma_parts();
                other.lemma_parts();
            }
        }
        self.centuries < other.centuries || (self.centuries == other.centuries
            && self.nanoseconds < other.nanoseconds)
    }

    /// Decomposes a Duration in its sign, days, hours, minutes, seconds, ms, us, ns
    #[must_use]
    pub fn decompose(&self) -> (r: (i8, u64, u64, u64, u64, u64, u64, u64))
        requires
            self.wf(),
        ensures
            r.0 == sign_of(self@),
            r.1 == abs_int(self@) / 86_400_000_000_000,
            r.2 == abs_int(self@) % 86_400_000_000_000 / 3_600_000_000_000,
            r.3 == abs_int(self@) % 3_600_000_000_000 / 60_000_000_000,
            r.4 == abs_int(self@) % 60_000_000_000 / 1_000_000_000,
            r.5 == abs_int(self@) % 1_000_000_000 / 1_000_000,
            r.6 == abs_int(self@) % 1_000_000 / 1_000,
            r.7 == abs_int(self@) % 1_000,
    {
        let sign: i8 = self.signum();
        let total: i128 = self.total_nanoseconds();
        proof {
            self.lemma_range();
        }
        let ns: u128 = if total < 0 {
            (-total) as u128
        } else {
            total as u128
        };
        let per_day: u128 = NANOSECONDS_PER_DAY as u128;
        let per_hour: u128 = NANOSECONDS_PER_HOUR as u128;
        let per_minute: u128 = NANOSECONDS_PER_MINUTE as u128;
        let per_second: u128 = NANOSECONDS_PER_SECOND as u128;
        let per_ms: u128 = NANOSECONDS_PER_MILLISECOND as u128;
        let per_us: u128 = NANOSECONDS_PER_MICROSECOND as u128;
        let days: u128 = ns / per_day;
        let ns_left: u128 = ns % per_day;
        let hours: u128 = ns_left / per_hour;
        let ns_left: u128 = ns_left % per_hour;
        let minutes: u128 = ns_left / per_minute;
        let ns_left: u128 = ns_left % per_minute;
        let seconds: u128 = ns_left / per_second;
        let ns_left: u128 = ns_left % per_second;
        let milliseconds: u128 = ns_left / per_ms;
        let ns_left: u128 = ns_left % per_ms;
        let microseconds: u128 = ns_left / per_us;
        let ns_left: u128 = ns_left % per_us;
        proof {
            let a = ns as int;
            vstd::arithmetic::div_mod::lemma_mod_mod(a, 3_600_000_000_000, 24);
            vstd::arithmetic::div_mod::lemma_mod_mod(a, 60_000_000_000, 60);
            vstd::arithmetic::div_mod::lemma_mod_mod(a, 1_000_000_000, 60);
            vstd::arithmetic::div_mod::lemma_mod_mod(a, 1_000_000, 1000);
            vstd::arithmetic::div_mod::lemma_mod_mod(a, 1_000, 1000);
            vstd::arithmetic::div_mod::lemma_div_is_ordered(a, max_ns(), 86_400_000_000_000);
        }
        (
            sign,
            days as u64,
            hours as u64,
            minutes as u64,
            seconds as u64,
            milliseconds as u64,
            microseconds as u64,
            ns_left as u64,
        )
    }

    /// Floors this duration to the closest duration from the bottom
    pub fn floor(&self, duration: Self) -> (d: Self)
        requires
            self.wf(),
            duration.wf(),
        ensures
            d.wf(),
            d@ == floor_value(self@, duration@),
    {
        proof {
            self.lemma_range();
            duration.lemma_range();
        }
        let t: i128 = self.total_nanoseconds();
        let q: i128 = duration.total_nanoseconds();
        if q == 0 {
            Self::from_total_nanoseconds(0)
        } else {
            let rem: i128 = match t.checked_rem_euclid(q) {
                Some(r) => r,
                None => 0,
            };
            proof {
                let m = abs_int(q as int);
                vstd::arithmetic::div_mod::lemma_fundamental_div_mod(t as int, q as int);
                vstd::arithmetic::div_mod::lemma_mod_bound(t as int, m);
                if q < 0 {
                    assert((q as int) * ((t as int) / (q as int)) == m * (-((t as int) / (q as int)))) by {
                        vstd::arithmetic::mul::lemma_mul_unary_negation(m, (t as int) / (q as int));
                    }
                    vstd::arithmetic::div_mod::lemma_fundamental_div_mod_converse(
                        t as int,
                        m,
                        -((t as int) / (q as int)),
                        (t as int) % (q as int),
                    );
                }
            }
            Self::from_total_nanoseconds(t - rem)
        }
    }

    /// Ceils this duration to the closest provided duration
    ///
    /// This simply floors then adds the requested duration
    pub fn ceil(&self, duration: Self) -> (d: Self)
        requires
            self.wf(),
            duration.wf(),
        ensures
            d.wf(),
            d@ == ceil_value(self@, duration@),
    {
        let floored = self.floor(duration);
        let step = duration.abs();
        proof {
            floored.lemma_range();
            step.lemma_range();
        }
        match floored.total_nanoseconds().checked_add(step.total_nanoseconds()) {
            Some(total_ns) => Self::from_total_nanoseconds(total_ns),
            None => Self::init_from_max(),
        }
    }

    /// Rounds this duration to the closest provided duration
    ///
    /// This performs both a `ceil` and `floor` and returns the value which is the closest to current one.
    pub fn round(&self, duration: Self) -> (d: Self)
        requires
            self.wf(),
            duration.wf(),
        ensures
            d.wf(),
            d@ == round_value(*self, duration@),
    {
        let floored = self.floor(duration);
        let ceiled = self.ceil(duration);
        proof {
            Duration::lemma_of_ns(floored@);
            Duration::lemma_unique(floored, Duration::of_ns(floored@));
            Duration::lemma_of_ns(ceiled@);
            Duration::lemma_unique(ceiled, Duration::of_ns(ceiled@));
        }
        let below = *self - floored;
        let above = (ceiled - *self).abs();
        if below.lt(&above) {
            floored
        } else {
            ceiled
        }
    }

    /// Rounds this duration to the largest units represented in this duration.
    pub fn approx(&self) -> (d: Self)
        requires
            self.wf(),
        ensures
            d.wf(),
            d@ == round_value(*self, approx_unit(self@)),
    {
        let (_, days, hours, minutes, seconds, milli, us, _) = self.decompose();
        let round_to = if days > 0 {
            1 * Unit::Day
        } else if hours > 0 {
            1 * Unit::Hour
        } else if minutes > 0 {
            1 * Unit::Minute
        } else if seconds > 0 {
            1 * Unit::Second
        } else if milli > 0 {
            1 * Unit::Millisecond
        } else if us > 0 {
            1 * Unit::Microsecond
        } else {
            1 * Unit::Nanosecond
        };
        self.round(round_to)
    }

    /// Returns the subdivision of this duration in the requested unit: the part of its
    /// decomposition in that unit, as a duration of that unit. None for weeks and centuries,
    /// which are not part of the decomposition.
    pub fn subdivision(&self, unit: Unit) -> (r: Option<Duration>)
        requires
            self.wf(),
        ensures
            r is None <==> (unit is Week || unit is Century),
            r is Some ==> r->0.wf() && r->0@ == unit_part(self@, unit) * unit.ns(),
    {
        let (_, days, hours, minutes, seconds, milliseconds, microseconds, nanoseconds) =
            self.decompose();
        proof {
            self.lemma_range();
            lemma_unit_part_bounds(self@, unit);
        }
        match unit {
            Unit::Nanosecond => Some((nanoseconds as i64) * unit),
            Unit::Microsecond => Some((microseconds as i64) * unit),
            Unit::Millisecond => Some((milliseconds as i64) * unit),
            Unit::Second => Some((seconds as i64) * unit),
            Unit::Minute => Some((minutes as i64) * unit),
            Unit::Hour => Some((hours as i64) * unit),
            Unit::Day => Some((days as i64) * unit),
            Unit::Week | Unit::Century => None,
        }
    }

    /// Returns the minimum of the two durations.
    pub fn min(&self, other: Self) -> (d: Self)
        requires
            self.wf(),
            other.wf(),
        ensures
            d == if self@ < other@ {
                *self
            } else {
                other
            },
    {
        if self.lt(&other) {
            *self
        } else {
            other
        }
    }

    /// Returns the maximum of the two durations.
    pub fn max(&self, other: Self) -> (d: Self)
        requires
            self.wf(),
            other.wf(),
        ensures
            d == if self@ > other@ {
                *self
            } else {
                other
            },
    {
        if other.lt(self) {
            *self
        } else {
            other
        }
    }

    /// Initializes a Duration from a timezone offset
    #[must_use]
    pub fn from_tz_offset(sign: i8, hours: i64, minutes: i64) -> (d: Self)
        ensures
            d.wf(),
            d@ == if sign < 0 {
                -add_value(
                    Duration::of_ns(clamp_ns(hours * 3_600_000_000_000)),
                    Duration::of_ns(clamp_ns(minutes * 60_000_000_000)),
                )
            } else {
                add_value(
                    Duration::of_ns(clamp_ns(hours * 3_600_000_000_000)),
                    Duration::of_ns(clamp_ns(minutes * 60_000_000_000)),
                )
            },
    {
        let h = hours * Unit::Hour;
        let m = minutes * Unit::Minute;
        proof {
            Duration::lemma_of_ns(h@);
            Duration::lemma_unique(h, Duration::of_ns(h@));
            Duration::lemma_of_ns(m@);
            Duration::lemma_unique(m, Duration::of_ns(m@));
        }
        let dur = h + m;
        if sign < 0 {
            core::ops::Neg::neg(dur)
        } else {
            dur
        }
    }
}

impl core::ops::Mul<i64> for Duration {
    type Output = Duration;

    /// Multiplies the duration by an integer, saturating to the bounds.
    fn mul(self, q: i64) -> (d: Duration)
        ensures
            d.wf(),
            d@ == clamp_ns(self@ * q),
    {
        let t: i128 = self.total_nanoseconds();
        let factor: i128 = (q * Unit::Nanosecond).total_nanoseconds();
        let product: i128 = match t.checked_mul(factor) {
            Some(p) => p,
            None => {
                if (t < 0) == (factor < 0) {
                    i128::MAX
                } else {
                    i128::MIN
                }
            },
        };
        proof {
            let (a, b) = (t as int, factor as int);
            if (t < 0) == (factor < 0) {
                assert(a * b >= 0) by (nonlinear_arith)
                    requires
                        (a < 0) == (b < 0),
                ;
            } else {
                assert(a * b <= 0) by (nonlinear_arith)
                    requires
                        (a < 0) != (b < 0),
                ;
            }
        }
        Duration::from_total_nanoseconds(product)
    }
}

impl vstd::std_specs::ops::MulSpecImpl<i64> for Duration {
    open spec fn obeys_mul_spec() -> bool {
        false
    }

    open spec fn mul_req(self, rhs: i64) -> bool {
        true
    }

    open spec fn mul_spec(self, rhs: i64) -> Duration {
        Duration::of_ns(clamp_ns(self@ * rhs))
    }
}

impl core::ops::Mul<Duration> for i64 {
    type Output = Duration;

    /// Multiplies the duration by an integer, saturating to the bounds.
    fn mul(self, q: Duration) -> (d: Duration)
        ensures
            d.wf(),
            d@ == clamp_ns(q@ * self),
    {
        q * self
    }
}

impl vstd::std_specs::ops::MulSpecImpl<Duration> for i64 {
    open spec fn obeys_mul_spec() -> bool {
        false
    }

    open spec fn mul_req(self, rhs: Duration) -> bool {
        true
    }

    open spec fn mul_spec(self, rhs: Duration) -> Duration {
        Duration::of_ns(clamp_ns(rhs@ * self))
    }
}

impl core::ops::Div<i64> for Duration {
    type Output = Duration;

    /// Divides the duration by a non-zero integer, truncating toward zero.
    fn div(self, q: i64) -> (d: Duration)
        ensures
            d.wf(),
            d@ == trunc_div(self@, q as int),
    {
        let t: i128 = self.total_nanoseconds();
        let divisor: i128 = (q * Unit::Nanosecond).total_nanoseconds();
        proof {
            self.lemma_range();
        }
        let quotient: i128 = match t.checked_div(divisor) {
            Some(r) => r,
            None => 0,
        };
        proof {
            let (a, b) = (abs_int(t as int), abs_int(divisor as int));
            assert(a / b <= a) by {
                vstd::arithmetic::div_mod::lemma_div_is_ordered_by_denominator(a, 1, b);
            }
        }
        Duration::from_total_nanoseconds(quotient)
    }
}

impl vstd::std_specs::ops::DivSpecImpl<i64> for Duration {
    open spec fn obeys_div_spec() -> bool {
        false
    }

    open spec fn div_req(self, rhs: i64) -> bool {
        self.wf() && rhs != 0
    }

    open spec fn div_spec(self, rhs: i64) -> Duration {
        Duration::of_ns(trunc_div(self@, rhs as int))
    }
}

impl core::ops::Add<Unit> for Duration {
    type Output = Duration;

    /// Adds one of the unit to this duration.
    fn add(self, rhs: Unit) -> (d: Duration)
        ensures
            d.wf(),
            d@ == add_value(self, Duration::of_ns(rhs.ns())),
    {
        let step = rhs * 1;
        proof {
            Duration::lemma_of_ns(step@);
            Duration::lemma_unique(step, Duration::of_ns(rhs.ns()));
        }
        self + step
    }
}

impl vstd::std_specs::ops::AddSpecImpl<Unit> for Duration {
    open spec fn obeys_add_spec() -> bool {
        false
    }

    open spec fn add_req(self, rhs: Unit) -> bool {
        self.wf()
    }

    open spec fn add_spec(self, rhs: Unit) -> Duration {
        Duration::of_ns(add_value(self, Duration::of_ns(rhs.ns())))
    }
}

impl core::ops::Sub<Unit> for Duration {
    type Output = Duration;

    /// Subtracts one of the unit from this duration.
    fn sub(self, rhs: Unit) -> (d: Duration)
        ensures
            d.wf(),
            d@ == sub_value(self, Duration::of_ns(rhs.ns())),
    {
        let step = rhs * 1;
        proof {
            Duration::lemma_of_ns(step@);
            Duration::lemma_unique(step, Duration::of_ns(rhs.ns()));
        }
        self - step
    }
}

impl vstd::std_specs::ops::SubSpecImpl<Unit> for Duration {
    open spec fn obeys_sub_spec() -> bool {
        false
    }

    open spec fn sub_req(self, rhs: Unit) -> bool {
        self.wf()
    }

    open spec fn sub_spec(self, rhs: Unit) -> Duration {
        Duration::of_ns(sub_value(self, Duration::of_ns(rhs.ns())))
    }
}

/// Adding a duration shorter than a century never overflows the centuries: the sum only
/// saturates to the maximum.
pub proof fn lemma_add_small(a: Duration, b: Duration)
    requires
        a.wf(),
        b.wf(),
        0 <= b@ < npc(),
    ensures
        add_value(a, b) == if a@ + b@ >= max_ns() {
            max_ns()
        } else {
            a@ + b@
        },
{
    b.lemma_parts();
}

/// Subtracting a non negative duration only saturates to the minimum.
pub proof fn lemma_sub_small(a: Duration, b: Duration)
    requires
        a.wf(),
        b.wf(),
        0 <= b@,
    ensures
        sub_value(a, b) == if a@ - b@ < min_ns() {
            min_ns()
        } else {
            a@ - b@
        },
{
    a.lemma_range();
    a.lemma_parts();
    b.lemma_parts();
    assert(b.spec_centuries() >= 0) by {
        if b.spec_centuries() < 0 {
            assert(b.spec_centuries() * npc() + b.spec_nanoseconds() < 0);
        }
    }
}

/// `of_ns` builds a well formed duration of any number of nanoseconds.
pub proof fn lemma_of_ns_any_wf(v: int)
    ensures
        Duration::of_ns(v).wf(),
{
    if v < max_ns() {
        assert(0 <= v % npc() < npc());
    }
}

/// The duration of a value in range is well formed and has that value.
pub proof fn lemma_of_ns_wf(d: Duration)
    requires
        d.wf(),
    ensures
        Duration::of_ns(d@) == d,
{
    d.lemma_range();
    Duration::lemma_of_ns(d@);
    Duration::lemma_unique(d, Duration::of_ns(d@));
}

// Laws of durations


/// Adding durations is commutative.
pub proof fn law_add_commutes(a: Duration, b: Duration)
    requires
        a.wf(),
        b.wf(),
    ensures
        add_value(a, b) == add_value(b, a),
{
}

/// Adding a duration whose centuries fit with another gives their exact sum, saturated.
pub proof fn law_add_saturates(a: Duration, b: Duration)
    requires
        a.wf(),
        b.wf(),
        i16::MIN <= a.spec_centuries() + b.spec_centuries(),
    ensures
        add_value(a, b) == clamp_ns(a@ + b@),
{
    a.lemma_range();
    b.lemma_range();
    a.lemma_parts();
    b.lemma_parts();
}

/// A duration minus itself is zero.
pub proof fn law_sub_self_is_zero(a: Duration)
    requires
        a.wf(),
    ensures
        sub_value(a, a) == 0,
{
}

/// Subtracting a duration then adding it back gives the first duration back when the difference
/// is representable and adding back the centuries does not overflow.
pub proof fn law_sub_then_add(a: Duration, b: Duration)
    requires
        a.wf(),
        b.wf(),
        i16::MIN <= a.spec_centuries() - b.spec_centuries() <= i16::MAX,
        min_ns() <= a@ - b@ < max_ns(),
        i16::MIN <= Duration::of_ns(a@ - b@).spec_centuries() + b.spec_centuries(),
    ensures
        add_value(Duration::of_ns(sub_value(a, b)), b) == a@,
{
    a.lemma_parts();
    b.lemma_parts();
    Duration::lemma_of_ns(a@ - b@);
    let d = Duration::of_ns(a@ - b@);
    d.lemma_parts();
    assert(sub_value(a, b) == a@ - b@);
    let x = a@ - b@;
    if x < max_ns() {
        let ca = a.centuries as int;
        let cb = b.centuries as int;
        let na = a.nanoseconds as int;
        let nb = b.nanoseconds as int;
        if na >= nb && na - nb < npc() {
            vstd::arithmetic::div_mod::lemma_fundamental_div_mod_converse(x, npc(), ca - cb, na - nb);
        } else if na < nb {
            vstd::arithmetic::div_mod::lemma_fundamental_div_mod_converse(
                x,
                npc(),
                ca - cb - 1,
                na - nb + npc(),
            );
        } else {
            vstd::arithmetic::div_mod::lemma_fundamental_div_mod_converse(
                x,
                npc(),
                ca - cb + 1,
                na - nb - npc(),
            );
        }
    }
}

/// Negation is an involution: the opposite of the opposite is the duration itself.
pub proof fn law_neg_involution(a: Duration)
    requires
        a.wf(),
    ensures
        Duration::of_ns(-(Duration::of_ns(-a@))@) == a,
        -a@ >= min_ns() && -a@ <= max_ns(),
{
    a.lemma_range();
    Duration::lemma_of_ns(-a@);
    Duration::lemma_of_ns(a@);
    Duration::lemma_unique(a, Duration::of_ns(a@));
}

/// Two well formed durations are equal exactly when their values are: equality agrees with
/// the order of the values.
pub proof fn law_eq_is_value_eq(a: Duration, b: Duration)
    requires
        a.wf(),
        b.wf(),
    ensures
        (a == b) <==> (a@ == b@),
{
    if a@ == b@ {
        Duration::lemma_unique(a, b);
    }
}

/// Rebuilding a duration from its total nanoseconds gives back the same duration.
pub proof fn law_total_nanoseconds_roundtrip(a: Duration)
    requires
        a.wf(),
    ensures
        clamp_ns(a@) == a@,
        Duration::of_ns(a@) == a,
{
    a.lemma_range();
    Duration::lemma_of_ns(a@);
    Duration::lemma_unique(a, Duration::of_ns(a@));
}

/// A duration built from truncated nanoseconds gives them back: every signed 64 bit number of
/// nanoseconds fits.
pub proof fn law_truncated_roundtrip(nanos: i64)
    ensures
        fits_truncated(nanos as int),
{
}

/// The decomposition of a duration recomposes to its value.
pub proof fn law_decompose_recomposes(v: int)
    ensures
        sign_of(v) * (abs_int(v) / 86_400_000_000_000 * 86_400_000_000_000 + abs_int(v)
            % 86_400_000_000_000 / 3_600_000_000_000 * 3_600_000_000_000 + abs_int(v)
            % 3_600_000_000_000 / 60_000_000_000 * 60_000_000_000 + abs_int(v) % 60_000_000_000
            / 1_000_000_000 * 1_000_000_000 + abs_int(v) % 1_000_000_000 / 1_000_000 * 1_000_000
            + abs_int(v) % 1_000_000 / 1_000 * 1_000 + abs_int(v) % 1_000) == v,
{
    let a = abs_int(v);
    let total = a / 86_400_000_000_000 * 86_400_000_000_000 + a % 86_400_000_000_000
        / 3_600_000_000_000 * 3_600_000_000_000 + a % 3_600_000_000_000 / 60_000_000_000
        * 60_000_000_000 + a % 60_000_000_000 / 1_000_000_000 * 1_000_000_000 + a
        % 1_000_000_000 / 1_000_000 * 1_000_000 + a % 1_000_000 / 1_000 * 1_000 + a % 1_000;
    vstd::arithmetic::div_mod::lemma_fundamental_div_mod(a, 86_400_000_000_000);
    vstd::arithmetic::div_mod::lemma_mod_mod(a, 3_600_000_000_000, 24);
    vstd::arithmetic::div_mod::lemma_fundamental_div_mod(a % 86_400_000_000_000, 3_600_000_000_000);
    vstd::arithmetic::div_mod::lemma_mod_mod(a, 60_000_000_000, 60);
    vstd::arithmetic::div_mod::lemma_fundamental_div_mod(a % 3_600_000_000_000, 60_000_000_000);
    vstd::arithmetic::div_mod::lemma_mod_mod(a, 1_000_000_000, 60);
    vstd::arithmetic::div_mod::lemma_fundamental_div_mod(a % 60_000_000_000, 1_000_000_000);
    vstd::arithmetic::div_mod::lemma_mod_mod(a, 1_000_000, 1000);
    vstd::arithmetic::div_mod::lemma_fundamental_div_mod(a % 1_000_000_000, 1_000_000);
    vstd::arithmetic::div_mod::lemma_mod_mod(a, 1_000, 1000);
    vstd::arithmetic::div_mod::lemma_fundamental_div_mod(a % 1_000_000, 1_000);
    assert(total == a);
    if v < 0 {
        assert(sign_of(v) * total == -total);
    } else if v == 0 {
        assert(sign_of(v) * total == 0);
    } else {
        assert(sign_of(v) * total == total);
    }
}

/// Flooring to a non zero duration gives the closest multiple of it from the bottom, for
/// negative durations too, where that multiple is representable.
pub proof fn law_floor_is_closest_multiple(t: int, q: int)
    requires
        q != 0,
        t <= max_ns(),
        min_ns() <= t - t % abs_int(q),
    ensures
        floor_value(t, q) % abs_int(q) == 0,
        floor_value(t, q) <= t < floor_value(t, q) + abs_int(q),
{
    let m = abs_int(q);
    vstd::arithmetic::div_mod::lemma_fundamental_div_mod(t, m);
    vstd::arithmetic::div_mod::lemma_mod_bound(t, m);
    vstd::arithmetic::div_mod::lemma_mod_multiples_basic(t / m, m);
    vstd::arithmetic::mul::lemma_mul_is_commutative(m, t / m);
}

/// Shifting a duration by less than two centuries saturates only at the bounds of durations.
pub proof fn lemma_shift(a: Duration, k: int)
    requires
        a.wf(),
        0 <= k < 2 * npc(),
    ensures
        add_value(a, Duration::of_ns(k)) == clamp_ns(a@ + k),
        sub_value(a, Duration::of_ns(k)) == clamp_ns(a@ - k),
{
    let b = Duration::of_ns(k);
    Duration::lemma_of_ns(k);
    a.lemma_parts();
    b.lemma_parts();
    a.lemma_range();
    assert(b.spec_centuries() == 0 || b.spec_centuries() == 1);
    if a@ < max_ns() {
        assert(a.spec_centuries() == a@ / npc());
    }
}

} // verus!
