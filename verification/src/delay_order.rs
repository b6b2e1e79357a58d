//! The order of logical delays: a delay is shorter than another exactly when it has fewer
//! nanoseconds.
use core::cmp::Ordering;
use vstd::prelude::*;

use crate::protocol::WireDelay;

verus! {

/// How two delays compare, by their nanoseconds.
pub open spec fn delay_order(a: WireDelay, b: WireDelay) -> Ordering {
    if a.spec_nanos() < b.spec_nanos() {
        Ordering::Less
    } else if a.spec_nanos() == b.spec_nanos() {
        Ordering::Equal
    } else {
        Ordering::Greater
    }
}

impl PartialOrd for WireDelay {
    fn partial_cmp(&self, other: &Self) -> (r: Option<Ordering>) {
        let a = self.as_nanos();
        let b = other.as_nanos();
        if a < b {
            Some(Ordering::Less)
        } else if a == b {
            Some(Ordering::Equal)
        } else {
            Some(Ordering::Greater)
        }
    }
}

impl vstd::std_specs::cmp::PartialOrdSpecImpl for WireDelay {
    open spec fn obeys_partial_cmp_spec() -> bool {
        true
    }

    open spec fn partial_cmp_spec(&self, other: &Self) -> Option<Ordering> {
        Some(delay_order(*self, *other))
    }
}

/// Law of the delay order: delays compare as their nanoseconds do, so `a <= b` exactly when `a`
/// has at most as many nanoseconds as `b`, and a delay rebuilt from its nanoseconds is itself.
pub proof fn lemma_delay_order_is_nanos_order(a: WireDelay, b: WireDelay)
    ensures
        (delay_order(a, b) == Ordering::Less) <==> a.spec_nanos() < b.spec_nanos(),
        (delay_order(a, b) == Ordering::Equal) <==> a == b,
        (delay_order(a, b) == Ordering::Greater) <==> a.spec_nanos() > b.spec_nanos(),
        (delay_order(a, b) != Ordering::Greater) <==> a.spec_nanos() <= b.spec_nanos(),
{
    crate::protocol::lemma_delay_is_its_nanos(a, b);
}

} // verus!
