//! Properties the static RTI keeps: grants are safe and never move backwards.
use vstd::prelude::*;

use super::rti::{
    completed, eimt, grants_for_all, grants_upto, spec_handle, try_grant, with_state, FederateState,
    StaticRtiView,
};
use crate::protocol::{lemma_tag_order_total, tag_le, tag_lt, FederateToRtiView, WireTag};
use crate::rti::GrantDecision;

verus! {

/// Whether every grant recorded in `before` is still recorded, at the same or a later tag, in
/// `after`.
pub open spec fn grants_kept(before: StaticRtiView, after: StaticRtiView) -> bool {
    &&& after.states.len() == before.states.len()
    &&& forall|k: int|
        0 <= k < before.states.len() && (#[trigger] before.states[k]).last_granted is Some ==> {
            &&& after.states[k].last_granted is Some
            &&& tag_le(before.states[k].last_granted->0, after.states[k].last_granted->0)
        }
}

proof fn lemma_grants_kept_refl(s: StaticRtiView)
    ensures
        grants_kept(s, s),
{
    assert forall|k: int| 0 <= k < s.states.len() && (#[trigger] s.states[k]).last_granted is Some implies tag_le(
        s.states[k].last_granted->0,
        s.states[k].last_granted->0,
    ) by {
        lemma_tag_order_total(s.states[k].last_granted->0, s.states[k].last_granted->0, s.states[k].last_granted->0);
    }
}

proof fn lemma_grants_kept_trans(a: StaticRtiView, b: StaticRtiView, c: StaticRtiView)
    requires
        grants_kept(a, b),
        grants_kept(b, c),
    ensures
        grants_kept(a, c),
{
    assert forall|k: int| 0 <= k < a.states.len() && (#[trigger] a.states[k]).last_granted is Some implies {
        &&& c.states[k].last_granted is Some
        &&& tag_le(a.states[k].last_granted->0, c.states[k].last_granted->0)
    } by {
        assert(b.states[k].last_granted is Some);
        lemma_tag_order_total(a.states[k].last_granted->0, b.states[k].last_granted->0, c.states[k].last_granted->0);
    }
}

/// A TAG is granted only for the Federate's own finite request beyond its last grant, while it
/// runs, and only when no message can still arrive at or before the granted tag.
pub proof fn lemma_grant_is_safe(s: StaticRtiView, k: int)
    requires
        0 <= k < s.states.len(),
    ensures
        try_grant(s, k) matches Ok((_, GrantDecision::Granted { tag })) ==> {
            &&& s.states[k].next_event == Some(tag)
            &&& !s.states[k].stopped
            &&& tag != WireTag::Forever
            &&& s.states[k].last_granted is Some ==> tag_lt(s.states[k].last_granted->0, tag)
            &&& eimt(s, k) is Ok
            &&& (eimt(s, k)->Ok_0 is None || tag_lt(tag, eimt(s, k)->Ok_0->0))
        },
{
    if s.states[k].last_granted is Some && s.states[k].next_event is Some {
        lemma_tag_order_total(s.states[k].next_event->0, s.states[k].last_granted->0, s.states[k].last_granted->0);
    }
}

/// Evaluating one Federate never withdraws or lowers a grant.
pub proof fn lemma_try_grant_keeps_grants(s: StaticRtiView, k: int)
    requires
        0 <= k < s.states.len(),
    ensures
        try_grant(s, k) is Ok ==> grants_kept(s, try_grant(s, k)->Ok_0.0),
{
    lemma_grants_kept_refl(s);
    if s.states[k].last_granted is Some && s.states[k].next_event is Some {
        lemma_tag_order_total(s.states[k].next_event->0, s.states[k].last_granted->0, s.states[k].last_granted->0);
    }
}

/// A sweep over the first `n` Federates never withdraws or lowers a grant, even when it stops
/// on an error.
pub proof fn lemma_sweep_keeps_grants(s: StaticRtiView, n: int)
    requires
        0 <= n <= s.states.len(),
        s.states.len() == s.federates.len(),
    ensures
        grants_kept(s, grants_upto(s, n).0),
    decreases n,
{
    if n <= 0 {
        lemma_grants_kept_refl(s);
    } else {
        lemma_sweep_keeps_grants(s, n - 1);
        let (s1, r1) = grants_upto(s, n - 1);
        if r1 is Ok {
            lemma_try_grant_keeps_grants(s1, n - 1);
            if try_grant(s1, n - 1) is Ok {
                lemma_grants_kept_trans(s, s1, try_grant(s1, n - 1)->Ok_0.0);
            }
        }
    }
}

/// Handling any message never withdraws or lowers a grant: the RTI's grants only move forward.
pub proof fn lemma_handle_keeps_grants(s: StaticRtiView, message: FederateToRtiView)
    requires
        s.states.len() == s.federates.len(),
        s.in_transit.len() == s.federates.len(),
    ensures
        grants_kept(s, spec_handle(s, message).0),
{
    lemma_grants_kept_refl(s);
    match message {
        FederateToRtiView::Net { federate_id, tag } => if s.federates.contains(federate_id) {
            let k = super::rti::federate_index(s, federate_id);
            let s1 = with_state(s, k, FederateState { next_event: Some(tag), ..s.states[k] });
            lemma_grants_kept_refl(s1);
            assert(grants_kept(s, s1));
            lemma_try_grant_keeps_grants(s1, k);
            if try_grant(s1, k) is Ok {
                let s2 = try_grant(s1, k)->Ok_0.0;
                lemma_grants_kept_trans(s, s1, s2);
                lemma_sweep_keeps_grants(s2, s2.federates.len() as int);
                lemma_grants_kept_trans(s, s2, grants_for_all(s2).0);
            }
        },
        FederateToRtiView::Ltc { federate_id, tag } => if s.federates.contains(federate_id) {
            let s1 = completed(s, super::rti::federate_index(s, federate_id), tag);
            lemma_grants_kept_refl(s1);
            assert(grants_kept(s, s1));
            lemma_sweep_keeps_grants(s1, s1.federates.len() as int);
            lemma_grants_kept_trans(s, s1, grants_for_all(s1).0);
        },
        FederateToRtiView::Stop { federate_id } => if s.federates.contains(federate_id) {
            let k = super::rti::federate_index(s, federate_id);
            let s1 = with_state(
                s,
                k,
                FederateState { next_event: Some(WireTag::Forever), stopped: true, ..s.states[k] },
            );
            lemma_grants_kept_refl(s1);
            assert(grants_kept(s, s1));
            lemma_sweep_keeps_grants(s1, s1.federates.len() as int);
            lemma_grants_kept_trans(s, s1, grants_for_all(s1).0);
        },
        _ => {},
    }
}

} // verus!
