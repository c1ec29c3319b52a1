use vstd::prelude::*;

use crate::duration::{clamp_ns, Duration};

verus! {

/// The total number of whole nanoseconds of a duration of the standard library (what
/// `std::time::Duration::as_nanos` returns).
pub uninterp spec fn std_total_nanos(d: core::time::Duration) -> nat;

/// `std::time::Duration::new`: the standard duration of whole seconds and nanoseconds.
///
/// As documented, its total number of nanoseconds is the seconds times one billion plus the
/// nanoseconds; nanoseconds below one second carry nothing, so that it does not panic.
#[verifier::external_body]
fn std_duration_new(secs: u64, nanos: u32) -> (d: core::time::Duration)
    requires
        nanos < 1_000_000_000,
    ensures
        std_total_nanos(d) == secs * 1_000_000_000 + nanos,
{
    core::time::Duration::new(secs, nanos)
}

/// `std::time::Duration::as_nanos`: the total number of whole nanoseconds of a standard
/// duration.
#[verifier::external_body]
fn std_as_nanos(d: core::time::Duration) -> (n: u128)
    ensures
        n == std_total_nanos(d),
{
    d.as_nanos()
}

impl From<Duration> for core::time::Duration {
    /// Converts a duration into a standard duration: zero for a negative duration, otherwise
    /// its whole seconds and nanoseconds.
    fn from(hf_duration: Duration) -> (d: core::time::Duration)
        ensures
            hf_duration.wf() ==> std_total_nanos(d) == if hf_duration@ < 0 {
                0
            } else {
                hf_duration@
            },
    {
        let nanos = hf_duration.total_nanoseconds();
        if nanos < 0 {
            std_duration_new(0, 0)
        } else {
            let unsigned_nanos = nanos as u128;
            let whole = unsigned_nanos / 1_000_000_000;
            let secs: u64 = if whole > u64::MAX as u128 {
                u64::MAX
            } else {
                whole as u64
            };
            let subsec_nanos = (unsigned_nanos % 1_000_000_000) as u32;
            proof {
                if hf_duration.wf() {
                    hf_duration.lemma_range();
                    assert(whole <= u64::MAX);
                }
            }
            std_duration_new(secs, subsec_nanos)
        }
    }
}

impl vstd::std_specs::convert::FromSpecImpl<Duration> for core::time::Duration {
    open spec fn obeys_from_spec() -> bool {
        false
    }

    open spec fn from_spec(v: Duration) -> core::time::Duration {
        vstd::pervasive::arbitrary()
    }
}

/// The value of the duration converted from a standard duration of the given total number
/// of nanoseconds: that number, saturated to the largest 128 bit integer and then to the
/// largest duration.
pub open spec fn from_std_value(total: nat) -> int {
    clamp_ns(if total > i128::MAX {
        i128::MAX as int
    } else {
        total as int
    })
}

impl From<core::time::Duration> for Duration {
    /// Converts a standard duration into a duration, saturated to the largest duration.
    fn from(std_duration: core::time::Duration) -> (d: Duration)
        ensures
            d.wf(),
            d@ == from_std_value(std_total_nanos(std_duration)),
    {
        let total = std_as_nanos(std_duration);
        let nanos: i128 = if total > i128::MAX as u128 {
            i128::MAX
        } else {
            total as i128
        };
        let d = Duration::from_total_nanoseconds(nanos);
        proof {
            d.lemma_range();
            Duration::lemma_of_ns(d@);
            Duration::lemma_unique(d, Duration::of_ns(d@));
        }
        d
    }
}

impl vstd::std_specs::convert::FromSpecImpl<core::time::Duration> for Duration {
    open spec fn obeys_from_spec() -> bool {
        true
    }

    open spec fn from_spec(v: core::time::Duration) -> Duration {
        Duration::of_ns(from_std_value(std_total_nanos(v)))
    }
}

/// A duration that is not negative, converted into a standard duration and back, is the same
/// duration: the standard duration counts its nanoseconds, which fit the largest duration.
pub proof fn law_std_round_trip(d: Duration)
    requires
        d.wf(),
        d@ >= 0,
    ensures
        from_std_value(d@ as nat) == d@,
{
    d.lemma_range();
}

} // verus!
