use vstd::prelude::*;

use core::cmp::Ordering;
use vstd::std_specs::cmp::{PartialEqSpecImpl, PartialOrdSpecImpl};

use crate::duration::{parts_before, Duration};
use crate::unit::Unit;

verus! {

/// A duration compares to a unit as it compares to one of that unit.
impl PartialEq<Unit> for Duration {
    fn eq(&self, unit: &Unit) -> (r: bool) {
        let one: Duration = *unit * 1;
        assert(one@ == unit.ns());
        proof {
            Duration::lemma_of_ns(one@);
            Duration::lemma_unique(one, Duration::of_ns(unit.ns()));
        }
        assert(one == Duration::of_ns(unit.ns()));
        *self == one
    }
}

impl PartialEqSpecImpl<Unit> for Duration {
    open spec fn obeys_eq_spec() -> bool {
        true
    }

    open spec fn eq_spec(&self, unit: &Unit) -> bool {
        *self == Duration::of_ns(unit.ns())
    }
}

/// A duration is ordered against a unit as its parts are against those of one of that unit.
impl PartialOrd<Unit> for Duration {
    fn partial_cmp(&self, unit: &Unit) -> (r: Option<Ordering>) {
        let one: Duration = *unit * 1;
        assert(one@ == unit.ns());
        proof {
            Duration::lemma_of_ns(one@);
            Duration::lemma_unique(one, Duration::of_ns(unit.ns()));
        }
        if self.lt(&one) {
            Some(Ordering::Less)
        } else if one.lt(self) {
            Some(Ordering::Greater)
        } else {
            Some(Ordering::Equal)
        }
    }
}

impl PartialOrdSpecImpl<Unit> for Duration {
    open spec fn obeys_partial_cmp_spec() -> bool {
        true
    }

    open spec fn partial_cmp_spec(&self, unit: &Unit) -> Option<Ordering> {
        let one = Duration::of_ns(unit.ns());
        if parts_before(*self, one) {
            Some(Ordering::Less)
        } else if parts_before(one, *self) {
            Some(Ordering::Greater)
        } else {
            Some(Ordering::Equal)
        }
    }
}

/// For a well formed duration, the order against a unit is the order of the values: it
/// comes before one of the unit exactly when it is shorter, after it exactly when it is longer.
pub proof fn law_unit_order_is_value_order(d: Duration, unit: Unit)
    requires
        d.wf(),
    ensures
        parts_before(d, Duration::of_ns(unit.ns())) <==> d@ < unit.ns(),
        parts_before(Duration::of_ns(unit.ns()), d) <==> d@ > unit.ns(),
{
    let one = Duration::of_ns(unit.ns());
    Duration::lemma_of_ns(unit.ns());
    d.lemma_parts();
    one.lemma_parts();
}

} // verus!
