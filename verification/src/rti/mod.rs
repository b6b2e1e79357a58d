//! Deterministic RTI state for static TAG/NET/LTC/MSG coordination.
//!
//! The RTI grants a Federate a tag (TAG) once no upstream Federate can still send it an event at
//! or before that tag, given each Federate's next event tag (NET), its logical tag completions
//! (LTC), the messages (MSG) in flight, and the logical delays on the compiled graph.
use vstd::prelude::*;

pub mod coordination;
pub mod graph;
pub mod message;

pub use coordination::{FederateCoordination, FederateLifecycle, NextEvent};
pub use graph::{RtiEndpointParts, RtiFederateParts, RtiGraph, RtiGraphParts};

use crate::ids::{EndpointId, FederateId};
use crate::protocol::{
    spec_delay, spec_predecessor, tag_le, tag_lt, tag_min, FederateToRti, FederateToRtiView,
    RtiToFederate, RtiToFederateView, WireDelay, WireTag,
};
use coordination::{
    effective, requested, spec_complete, spec_granted, spec_record_message,
    spec_request, spec_stop, CoordView,
};

verus! {

/// Result of evaluating whether a pending NET request can receive a TAG.
#[derive(Debug, Clone, Copy, PartialEq, Eq, Structural)]
pub enum GrantDecision {
    Granted { tag: WireTag },
    AlreadyGranted { tag: WireTag },
    Blocked { requested: WireTag, earliest_incoming: Option<WireTag> },
}

/// A message the RTI should deliver to a specific federate.
#[derive(Debug, Clone, PartialEq, Eq)]
pub struct RtiDelivery {
    pub federate_id: FederateId,
    pub message: RtiToFederate,
}

/// Mathematical view of a delivery.
pub struct DeliveryView {
    pub federate_id: Seq<char>,
    pub message: RtiToFederateView,
}

impl View for RtiDelivery {
    type V = DeliveryView;

    open spec fn view(&self) -> DeliveryView {
        DeliveryView { federate_id: self.federate_id@, message: self.message@ }
    }
}

impl RtiDelivery {
    /// `message` addressed to `federate_id`.
    pub fn new(federate_id: FederateId, message: RtiToFederate) -> (d: Self)
        ensures
            d.federate_id == federate_id,
            d.message == message,
    {
        RtiDelivery { federate_id, message }
    }
}

/// Errors the RTI reports; every rejected event leaves the RTI state unchanged.
#[derive(Debug, Clone, PartialEq, Eq)]
pub enum RtiError {
    UnknownFederate(FederateId),
    TagDelayOverflow { tag: WireTag, delay_ns: u64 },
    TagPredecessorUnderflow { tag: WireTag },
    FederateIdentityMismatch {
        event: &'static str,
        authenticated_federate: FederateId,
        claimed_federate: FederateId,
    },
    InvalidTag { event: &'static str, federate_id: FederateId, tag: WireTag },
    RegressingNet { federate_id: FederateId, previous: WireTag, requested: WireTag },
    RegressingLtc { federate_id: FederateId, previous: WireTag, completed: WireTag },
    InvalidLifecycleTransition {
        federate_id: FederateId,
        event: &'static str,
        lifecycle: &'static str,
    },
    InvalidRoute { source_federate: FederateId, target_federate: FederateId, endpoint: EndpointId },
}

/// Mathematical view of an RTI error.
pub enum RtiErrorView {
    UnknownFederate(Seq<char>),
    TagDelayOverflow { tag: WireTag, delay_ns: u64 },
    TagPredecessorUnderflow { tag: WireTag },
    FederateIdentityMismatch {
        event: Seq<char>,
        authenticated_federate: Seq<char>,
        claimed_federate: Seq<char>,
    },
    InvalidTag { event: Seq<char>, federate_id: Seq<char>, tag: WireTag },
    RegressingNet { federate_id: Seq<char>, previous: WireTag, requested: WireTag },
    RegressingLtc { federate_id: Seq<char>, previous: WireTag, completed: WireTag },
    InvalidLifecycleTransition { federate_id: Seq<char>, event: Seq<char>, lifecycle: Seq<char> },
    InvalidRoute { source_federate: Seq<char>, target_federate: Seq<char>, endpoint: Seq<char> },
}

impl View for RtiError {
    type V = RtiErrorView;

    open spec fn view(&self) -> RtiErrorView {
        match self {
            RtiError::UnknownFederate(id) => RtiErrorView::UnknownFederate(id@),
            RtiError::TagDelayOverflow { tag, delay_ns } => RtiErrorView::TagDelayOverflow {
                tag: *tag,
                delay_ns: *delay_ns,
            },
            RtiError::TagPredecessorUnderflow { tag } => RtiErrorView::TagPredecessorUnderflow {
                tag: *tag,
            },
            RtiError::FederateIdentityMismatch {
                event,
                authenticated_federate,
                claimed_federate,
            } => RtiErrorView::FederateIdentityMismatch {
                event: event@,
                authenticated_federate: authenticated_federate@,
                claimed_federate: claimed_federate@,
            },
            RtiError::InvalidTag { event, federate_id, tag } => RtiErrorView::InvalidTag {
                event: event@,
                federate_id: federate_id@,
                tag: *tag,
            },
            RtiError::RegressingNet { federate_id, previous, requested } =>
                RtiErrorView::RegressingNet {
                    federate_id: federate_id@,
                    previous: *previous,
                    requested: *requested,
                },
            RtiError::RegressingLtc { federate_id, previous, completed } =>
                RtiErrorView::RegressingLtc {
                    federate_id: federate_id@,
                    previous: *previous,
                    completed: *completed,
                },
            RtiError::InvalidLifecycleTransition { federate_id, event, lifecycle } =>
                RtiErrorView::InvalidLifecycleTransition {
                    federate_id: federate_id@,
                    event: event@,
                    lifecycle: lifecycle@,
                },
            RtiError::InvalidRoute { source_federate, target_federate, endpoint } =>
                RtiErrorView::InvalidRoute {
                    source_federate: source_federate@,
                    target_federate: target_federate@,
                    endpoint: endpoint@,
                },
        }
    }
}

/// Delays a tag along an edge, or reports the overflow.
pub open spec fn spec_apply_edge_delay(tag: WireTag, delay: WireDelay) -> Result<WireTag, RtiErrorView> {
    match spec_delay(tag, delay.spec_nanos()) {
        Some(t) => Ok(t),
        None => Err(RtiErrorView::TagDelayOverflow { tag, delay_ns: delay.spec_nanos() }),
    }
}

/// Earliest incoming message tag of Federate `k` over its first `j` transitive paths: the least
/// delayed effective next event of those upstream Federates, failing on the first overflow.
pub open spec fn eimt_prefix(g: RtiGraph, cs: Seq<CoordView>, k: int, j: int) -> Result<
    Option<WireTag>,
    RtiErrorView,
>
    decreases j,
{
    if j <= 0 {
        Ok(None)
    } else {
        match eimt_prefix(g, cs, k, j - 1) {
            Err(e) => Err(e),
            Ok(prev) => {
                let p = g.transitive_of(k)[j - 1];
                match spec_apply_edge_delay(effective(cs[p.source as int]), p.delay) {
                    Err(e) => Err(e),
                    Ok(c) => Ok(
                        match prev {
                            None => Some(c),
                            Some(cur) => if tag_lt(c, cur) {
                                Some(c)
                            } else {
                                Some(cur)
                            },
                        },
                    ),
                }
            },
        }
    }
}

/// Earliest incoming message tag of Federate `k`; `None` when it has no upstream path.
pub open spec fn eimt(g: RtiGraph, cs: Seq<CoordView>, k: int) -> Result<Option<WireTag>, RtiErrorView> {
    eimt_prefix(g, cs, k, g.transitive_of(k).len() as int)
}

/// The least delayed completion among the first `j` direct upstream dependencies of `k` that
/// have not stopped, starting from `Forever`; fails on the first overflow.
pub open spec fn upstream_completed_prefix(g: RtiGraph, cs: Seq<CoordView>, k: int, j: int) -> Result<
    WireTag,
    RtiErrorView,
>
    decreases j,
{
    if j <= 0 {
        Ok(WireTag::Forever)
    } else {
        match upstream_completed_prefix(g, cs, k, j - 1) {
            Err(e) => Err(e),
            Ok(prev) => {
                let d = g.incoming_of(k)[j - 1];
                let up = cs[d.source as int];
                if up.lifecycle is Stopped {
                    Ok(prev)
                } else {
                    match spec_apply_edge_delay(up.last_completed, d.delay) {
                        Err(e) => Err(e),
                        Ok(c) => Ok(tag_min(prev, c)),
                    }
                }
            },
        }
    }
}

/// The least delayed completion over all direct upstream dependencies of `k`.
pub open spec fn upstream_completed(g: RtiGraph, cs: Seq<CoordView>, k: int) -> Result<WireTag, RtiErrorView> {
    upstream_completed_prefix(g, cs, k, g.incoming_of(k).len() as int)
}

/// The grant rule for Federate `k`.
///
/// A stopped Federate or one without a finite request is blocked. A request is lowered to the
/// Federate's own effective next event; one already covered by the last grant is not re-sent. A
/// Federate without direct upstream is granted its request. Otherwise it is granted the least
/// delayed upstream completion when that is past the last grant and covers the request, or else
/// the greatest tag strictly before its earliest incoming message when that exceeds the request
/// and the last grant. In every other case it stays blocked.
pub open spec fn spec_evaluate(g: RtiGraph, cs: Seq<CoordView>, k: int) -> Result<GrantDecision, RtiErrorView> {
    let state = cs[k];
    if state.lifecycle is Stopped {
        Ok(GrantDecision::Blocked { requested: WireTag::Forever, earliest_incoming: None })
    } else {
        match requested(state) {
            None => Ok(GrantDecision::Blocked { requested: WireTag::Forever, earliest_incoming: None }),
            Some(req) => if req == WireTag::Forever {
                match eimt(g, cs, k) {
                    Err(e) => Err(e),
                    Ok(earliest) => Ok(GrantDecision::Blocked { requested: req, earliest_incoming: earliest }),
                }
            } else {
                let req = tag_min(effective(state), req);
                if state.last_granted is Some && tag_le(req, state.last_granted->0) {
                    Ok(GrantDecision::AlreadyGranted { tag: req })
                } else if g.incoming_of(k).len() == 0 {
                    Ok(GrantDecision::Granted { tag: req })
                } else {
                    let last_granted = match state.last_granted {
                        Some(t) => t,
                        None => WireTag::Never,
                    };
                    match upstream_completed(g, cs, k) {
                        Err(e) => Err(e),
                        Ok(muc) => if tag_lt(last_granted, muc) && tag_le(req, muc) {
                            Ok(GrantDecision::Granted { tag: muc })
                        } else {
                            match eimt(g, cs, k) {
                                Err(e) => Err(e),
                                Ok(earliest) => match earliest {
                                    Some(incoming) if tag_lt(req, incoming) => match spec_predecessor(incoming) {
                                        None => Err(RtiErrorView::TagPredecessorUnderflow { tag: incoming }),
                                        Some(safe) => if tag_lt(last_granted, safe) {
                                            Ok(GrantDecision::Granted { tag: safe })
                                        } else {
                                            Ok(GrantDecision::Blocked { requested: req, earliest_incoming: earliest })
                                        },
                                    },
                                    _ => Ok(GrantDecision::Blocked { requested: req, earliest_incoming: earliest }),
                                },
                            }
                        },
                    }
                }
            }
        }
    }
}


/// A validated RTI input expressed in dense keys.
#[derive(Debug, Clone, PartialEq, Eq)]
pub enum ResolvedRtiEvent {
    Hello { federate: usize },
    Net { federate: usize, tag: WireTag },
    Ltc { federate: usize, tag: WireTag },
    Msg { source: usize, target: usize, endpoint: usize, tag: WireTag, payload: Vec<u8> },
    Stop { federate: usize },
}

/// Mathematical view of a validated RTI input.
pub enum ResolvedView {
    Hello { federate: int },
    Net { federate: int, tag: WireTag },
    Ltc { federate: int, tag: WireTag },
    Msg { source: int, target: int, endpoint: int, tag: WireTag, payload: Seq<u8> },
    Stop { federate: int },
}

impl View for ResolvedRtiEvent {
    type V = ResolvedView;

    open spec fn view(&self) -> ResolvedView {
        match self {
            ResolvedRtiEvent::Hello { federate } => ResolvedView::Hello { federate: *federate as int },
            ResolvedRtiEvent::Net { federate, tag } => ResolvedView::Net { federate: *federate as int, tag: *tag },
            ResolvedRtiEvent::Ltc { federate, tag } => ResolvedView::Ltc { federate: *federate as int, tag: *tag },
            ResolvedRtiEvent::Msg { source, target, endpoint, tag, payload } => ResolvedView::Msg {
                source: *source as int,
                target: *target as int,
                endpoint: *endpoint as int,
                tag: *tag,
                payload: payload@,
            },
            ResolvedRtiEvent::Stop { federate } => ResolvedView::Stop { federate: *federate as int },
        }
    }
}

/// `s` without the occurrences of `f`, in order.
pub open spec fn without(s: Seq<usize>, f: usize) -> Seq<usize>
    decreases s.len(),
{
    if s.len() == 0 {
        s
    } else if s.last() == f {
        without(s.drop_last(), f)
    } else {
        without(s.drop_last(), f).push(s.last())
    }
}

/// Federates re-evaluated after a NET or LTC of `f`: `f` itself, then its affected downstream.
pub open spec fn net_affected(g: RtiGraph, f: int) -> Seq<usize> {
    seq![f as usize] + without(g.affected_of(f), f as usize)
}

/// Grant decisions for the first `j` affected Federates, failing on the first error.
pub open spec fn grants_prefix(g: RtiGraph, cs: Seq<CoordView>, aff: Seq<usize>, j: int) -> Result<
    Seq<(usize, GrantDecision)>,
    RtiErrorView,
>
    decreases j,
{
    if j <= 0 {
        Ok(Seq::empty())
    } else {
        match grants_prefix(g, cs, aff, j - 1) {
            Err(e) => Err(e),
            Ok(gs) => match spec_evaluate(g, cs, aff[j - 1] as int) {
                Err(e) => Err(e),
                Ok(d) => Ok(gs.push((aff[j - 1], d))),
            },
        }
    }
}

/// Grant decisions for all affected Federates.
pub open spec fn spec_grants(g: RtiGraph, cs: Seq<CoordView>, aff: Seq<usize>) -> Result<
    Seq<(usize, GrantDecision)>,
    RtiErrorView,
> {
    grants_prefix(g, cs, aff, aff.len() as int)
}

/// Records every `Granted` decision as the grantee's last grant.
pub open spec fn commit_coords(cs: Seq<CoordView>, gs: Seq<(usize, GrantDecision)>) -> Seq<CoordView>
    decreases gs.len(),
{
    if gs.len() == 0 {
        cs
    } else {
        let prev = commit_coords(cs, gs.drop_last());
        let (k, d) = gs.last();
        match d {
            GrantDecision::Granted { tag } => prev.update(k as int, spec_granted(prev[k as int], tag)),
            _ => prev,
        }
    }
}

/// One TAG delivery for every `Granted` decision, in order.
pub open spec fn commit_deliveries(g: RtiGraph, gs: Seq<(usize, GrantDecision)>) -> Seq<DeliveryView>
    decreases gs.len(),
{
    if gs.len() == 0 {
        Seq::empty()
    } else {
        let prev = commit_deliveries(g, gs.drop_last());
        let (k, d) = gs.last();
        match d {
            GrantDecision::Granted { tag } => prev.push(
                DeliveryView { federate_id: g.fed_id(k as int), message: RtiToFederateView::Tag { tag } },
            ),
            _ => prev,
        }
    }
}

/// Stages `staged` for `f`, evaluates the affected Federates against the staged state and, when
/// every evaluation succeeds, commits the grants.
pub open spec fn spec_transition(
    g: RtiGraph,
    cs: Seq<CoordView>,
    f: int,
    staged: CoordView,
    aff: Seq<usize>,
) -> Result<(Seq<CoordView>, Seq<DeliveryView>), RtiErrorView> {
    let cs1 = cs.update(f, staged);
    match spec_grants(g, cs1, aff) {
        Err(e) => Err(e),
        Ok(gs) => Ok((commit_coords(cs1, gs), commit_deliveries(g, gs))),
    }
}

/// The effect of a validated event: new coordination states and the deliveries to send.
pub open spec fn spec_handle_validated(g: RtiGraph, cs: Seq<CoordView>, ev: ResolvedView) -> Result<
    (Seq<CoordView>, Seq<DeliveryView>),
    RtiErrorView,
> {
    match ev {
        ResolvedView::Hello { .. } => Ok((cs, Seq::empty())),
        ResolvedView::Net { federate, tag } => spec_transition(
            g,
            cs,
            federate,
            spec_request(cs[federate], tag),
            net_affected(g, federate),
        ),
        ResolvedView::Ltc { federate, tag } => spec_transition(
            g,
            cs,
            federate,
            spec_complete(cs[federate], tag),
            net_affected(g, federate),
        ),
        ResolvedView::Msg { source, target, endpoint, tag, payload } => Ok(
            (
                cs.update(target, spec_record_message(cs[target], tag)),
                seq![
                    DeliveryView {
                        federate_id: g.fed_id(target),
                        message: RtiToFederateView::Msg {
                            source: g.fed_id(source),
                            endpoint: g.ep_id(endpoint),
                            tag,
                            payload,
                        },
                    },
                ],
            ),
        ),
        ResolvedView::Stop { federate } => spec_transition(
            g,
            cs,
            federate,
            spec_stop(cs[federate]),
            g.affected_of(federate),
        ),
    }
}

/// A finite tag with a nonnegative offset.
pub open spec fn spec_nonnegative_finite(tag: WireTag) -> bool {
    match tag {
        WireTag::Finite { offset_ns, .. } => offset_ns >= 0,
        _ => false,
    }
}

/// `Forever` or a finite tag with a nonnegative offset.
pub open spec fn spec_nonnegative_wire(tag: WireTag) -> bool {
    tag == WireTag::Forever || spec_nonnegative_finite(tag)
}

/// The dense key of a Federate identity, if the graph has one.
pub open spec fn key_of(g: RtiGraph, id: Seq<char>) -> Option<int> {
    if exists|k: int| 0 <= k < g.fed_count() && g.fed_id(k) == id {
        Some(choose|k: int| 0 <= k < g.fed_count() && g.fed_id(k) == id)
    } else {
        None
    }
}

/// The dense key of an endpoint identity, if the graph has one.
pub open spec fn endpoint_key_of(g: RtiGraph, id: Seq<char>) -> Option<int> {
    if exists|e: int| 0 <= e < g.ep_count() && g.ep_id(e) == id {
        Some(choose|e: int| 0 <= e < g.ep_count() && g.ep_id(e) == id)
    } else {
        None
    }
}

/// Rejects a message whose claimed Federate is not the authenticated one.
pub open spec fn identity_error(g: RtiGraph, auth: int, claimed: Seq<char>, event: Seq<char>) -> Option<RtiErrorView> {
    if g.fed_id(auth) == claimed {
        None
    } else {
        Some(
            RtiErrorView::FederateIdentityMismatch {
                event,
                authenticated_federate: g.fed_id(auth),
                claimed_federate: claimed,
            },
        )
    }
}

/// Validation of a message from the authenticated Federate `auth`.
pub open spec fn spec_validate(g: RtiGraph, cs: Seq<CoordView>, auth: int, m: FederateToRtiView) -> Result<
    ResolvedView,
    RtiErrorView,
> {
    match m {
        FederateToRtiView::Hello { federate_id } => match identity_error(g, auth, federate_id, "Hello"@) {
            Some(e) => Err(e),
            None => Ok(ResolvedView::Hello { federate: auth }),
        },
        FederateToRtiView::Net { federate_id, tag } => match identity_error(g, auth, federate_id, "NET"@) {
            Some(e) => Err(e),
            None => if tag == WireTag::Never || !spec_nonnegative_wire(tag) {
                Err(RtiErrorView::InvalidTag { event: "NET"@, federate_id, tag })
            } else {
                let state = cs[auth];
                match state.lifecycle {
                    FederateLifecycle::Stopped => Err(
                        RtiErrorView::InvalidLifecycleTransition {
                            federate_id,
                            event: "NET"@,
                            lifecycle: "stopped"@,
                        },
                    ),
                    FederateLifecycle::Running { next_event: NextEvent::NoFuture } => Err(
                        RtiErrorView::InvalidLifecycleTransition {
                            federate_id,
                            event: "NET"@,
                            lifecycle: "no-future"@,
                        },
                    ),
                    _ => if tag_lt(tag, state.last_completed) {
                        Err(
                            RtiErrorView::RegressingNet {
                                federate_id,
                                previous: state.last_completed,
                                requested: tag,
                            },
                        )
                    } else {
                        Ok(ResolvedView::Net { federate: auth, tag })
                    },
                }
            },
        },
        FederateToRtiView::Ltc { federate_id, tag } => match identity_error(g, auth, federate_id, "LTC"@) {
            Some(e) => Err(e),
            None => if !spec_nonnegative_finite(tag) {
                Err(RtiErrorView::InvalidTag { event: "LTC"@, federate_id, tag })
            } else if cs[auth].lifecycle is Stopped {
                Err(
                    RtiErrorView::InvalidLifecycleTransition {
                        federate_id,
                        event: "LTC"@,
                        lifecycle: "stopped"@,
                    },
                )
            } else if tag_lt(tag, cs[auth].last_completed) {
                Err(
                    RtiErrorView::RegressingLtc {
                        federate_id,
                        previous: cs[auth].last_completed,
                        completed: tag,
                    },
                )
            } else {
                Ok(ResolvedView::Ltc { federate: auth, tag })
            },
        },
        FederateToRtiView::Msg { source, target, endpoint, tag, payload } => match identity_error(
            g,
            auth,
            source,
            "MSG"@,
        ) {
            Some(e) => Err(e),
            None => match key_of(g, target) {
                None => Err(RtiErrorView::UnknownFederate(target)),
                Some(t) => if !spec_nonnegative_finite(tag) {
                    Err(RtiErrorView::InvalidTag { event: "MSG"@, federate_id: source, tag })
                } else if cs[auth].lifecycle is Stopped {
                    Err(
                        RtiErrorView::InvalidLifecycleTransition {
                            federate_id: source,
                            event: "MSG"@,
                            lifecycle: "stopped"@,
                        },
                    )
                } else {
                    match endpoint_key_of(g, endpoint) {
                        None => Err(
                            RtiErrorView::InvalidRoute {
                                source_federate: source,
                                target_federate: target,
                                endpoint,
                            },
                        ),
                        Some(e) => if g.ep_source(e) != auth || g.ep_target(e) != t {
                            Err(
                                RtiErrorView::InvalidRoute {
                                    source_federate: source,
                                    target_federate: target,
                                    endpoint,
                                },
                            )
                        } else {
                            Ok(ResolvedView::Msg { source: auth, target: t, endpoint: e, tag, payload })
                        },
                    }
                },
            },
        },
        FederateToRtiView::Stop { federate_id } => match identity_error(g, auth, federate_id, "Stop"@) {
            Some(e) => Err(e),
            None => match cs[auth].lifecycle {
                FederateLifecycle::Running { next_event: NextEvent::NoFuture } => Ok(
                    ResolvedView::Stop { federate: auth },
                ),
                FederateLifecycle::Running { .. } => Err(
                    RtiErrorView::InvalidLifecycleTransition {
                        federate_id,
                        event: "Stop"@,
                        lifecycle: "running with future events"@,
                    },
                ),
                FederateLifecycle::Stopped => Err(
                    RtiErrorView::InvalidLifecycleTransition {
                        federate_id,
                        event: "Stop"@,
                        lifecycle: "stopped"@,
                    },
                ),
            },
        },
    }
}

/// The complete effect of a message received on the authenticated endpoint of `auth_id`.
pub open spec fn spec_handle_from(g: RtiGraph, cs: Seq<CoordView>, auth_id: Seq<char>, m: FederateToRtiView) -> Result<
    (Seq<CoordView>, Seq<DeliveryView>),
    RtiErrorView,
> {
    match key_of(g, auth_id) {
        None => Err(RtiErrorView::UnknownFederate(auth_id)),
        Some(a) => match spec_validate(g, cs, a, m) {
            Err(e) => Err(e),
            Ok(ev) => spec_handle_validated(g, cs, ev),
        },
    }
}


/// Law of grant evaluation: a TAG goes only to a running Federate with a finite request, and only
/// for a tag no message can still arrive at or before: either the Federate has no upstream, or
/// the tag is the least delayed upstream completion, or it lies strictly before the earliest
/// incoming message (the end of time aside). An `AlreadyGranted` answer is covered by the last
/// grant.
pub proof fn lemma_evaluate_grant_is_safe(g: RtiGraph, cs: Seq<CoordView>, k: int)
    requires
        0 <= k < cs.len(),
    ensures
        spec_evaluate(g, cs, k) matches Ok(GrantDecision::Granted { tag }) ==> {
            &&& !(cs[k].lifecycle is Stopped)
            &&& requested(cs[k]) matches Some(req) && req != WireTag::Forever
            &&& (g.incoming_of(k).len() == 0 || upstream_completed(g, cs, k) == Ok::<WireTag, RtiErrorView>(tag)
                || (eimt(g, cs, k) matches Ok(Some(incoming)) && (tag_lt(tag, incoming) || (tag
                == WireTag::Forever && incoming == WireTag::Forever))))
        },
        spec_evaluate(g, cs, k) matches Ok(GrantDecision::AlreadyGranted { tag }) ==> (cs[k].last_granted matches Some(
            last,
        ) && tag_le(tag, last)),
{
    if let Ok(GrantDecision::Granted { tag }) = spec_evaluate(g, cs, k) {
        if let Ok(Some(incoming)) = eimt(g, cs, k) {
            if incoming is Finite {
                if let Some(safe) = spec_predecessor(incoming) {
                    if safe == tag {
                        assert(tag_lt(tag, incoming));
                    }
                }
            }
        }
    }
}

/// A failed prefix of the earliest-incoming fold stays failed.
pub proof fn lemma_eimt_err_persists(g: RtiGraph, cs: Seq<CoordView>, k: int, j: int, n: int)
    requires
        eimt_prefix(g, cs, k, j) is Err,
        0 <= j <= n,
    ensures
        eimt_prefix(g, cs, k, n) == eimt_prefix(g, cs, k, j),
    decreases n - j,
{
    if n > j {
        lemma_eimt_err_persists(g, cs, k, j, n - 1);
    }
}

/// A failed prefix of the upstream-completion fold stays failed.
pub proof fn lemma_upstream_err_persists(g: RtiGraph, cs: Seq<CoordView>, k: int, j: int, n: int)
    requires
        upstream_completed_prefix(g, cs, k, j) is Err,
        0 <= j <= n,
    ensures
        upstream_completed_prefix(g, cs, k, n) == upstream_completed_prefix(g, cs, k, j),
    decreases n - j,
{
    if n > j {
        lemma_upstream_err_persists(g, cs, k, j, n - 1);
    }
}

/// A failed prefix of the grant evaluation stays failed.
pub proof fn lemma_grants_err_persists(g: RtiGraph, cs: Seq<CoordView>, aff: Seq<usize>, j: int, n: int)
    requires
        grants_prefix(g, cs, aff, j) is Err,
        0 <= j <= n,
    ensures
        grants_prefix(g, cs, aff, n) == grants_prefix(g, cs, aff, j),
    decreases n - j,
{
    if n > j {
        lemma_grants_err_persists(g, cs, aff, j, n - 1);
    }
}

/// Removing a key keeps every remaining key below a bound.
pub proof fn lemma_without_bounded(s: Seq<usize>, f: usize, n: int)
    requires
        forall|j: int| 0 <= j < s.len() ==> s[j] < n,
    ensures
        forall|j: int| 0 <= j < without(s, f).len() ==> without(s, f)[j] < n,
    decreases s.len(),
{
    if s.len() > 0 {
        lemma_without_bounded(s.drop_last(), f, n);
        let w = without(s.drop_last(), f);
        if s.last() != f {
            assert forall|j: int| 0 <= j < without(s, f).len() implies without(s, f)[j] < n by {
                if j < w.len() {
                    assert(without(s, f)[j] == w[j]);
                }
            }
        }
    }
}

/// Identity keys are unique in a compiled graph.
pub proof fn lemma_key_of(g: RtiGraph, id: Seq<char>, k: int)
    requires
        g.wf(),
        0 <= k < g.fed_count(),
        g.fed_id(k) == id,
    ensures
        key_of(g, id) == Some(k),
{
    let c = choose|c: int| 0 <= c < g.fed_count() && g.fed_id(c) == id;
    if c != k {
        assert(g.fed_ids()[c] == g.fed_id(c));
        assert(g.fed_ids()[k] == g.fed_id(k));
        crate::ids::lemma_seq_lt_order(id, id, id);
    }
}

/// Endpoint keys are unique in a compiled graph.
pub proof fn lemma_endpoint_key_of(g: RtiGraph, id: Seq<char>, e: int)
    requires
        g.wf(),
        0 <= e < g.ep_count(),
        g.ep_id(e) == id,
    ensures
        endpoint_key_of(g, id) == Some(e),
{
    let c = choose|c: int| 0 <= c < g.ep_count() && g.ep_id(c) == id;
    if c != e {
        assert(g.ep_ids()[c] == g.ep_id(c));
        assert(g.ep_ids()[e] == g.ep_id(e));
        crate::ids::lemma_seq_lt_order(id, id, id);
    }
}

/// Delays a tag along an edge, or reports the overflow.
pub fn apply_edge_delay(tag: WireTag, delay: WireDelay) -> (r: Result<WireTag, RtiError>)
    ensures
        match r {
            Ok(t) => spec_apply_edge_delay(tag, delay) == Ok::<WireTag, RtiErrorView>(t),
            Err(e) => spec_apply_edge_delay(tag, delay) == Err::<WireTag, RtiErrorView>(e@),
        },
{
    match tag.checked_delay(delay) {
        Some(t) => Ok(t),
        None => Err(RtiError::TagDelayOverflow { tag, delay_ns: delay.as_nanos() }),
    }
}

/// The latest tag strictly before `tag`; sentinels are preserved.
pub fn latest_tag_strictly_before(tag: WireTag) -> (r: Option<WireTag>)
    ensures
        r == spec_predecessor(tag),
{
    tag.checked_predecessor()
}

/// `Forever` or a finite tag with a nonnegative offset.
pub fn is_nonnegative_wire_tag(tag: WireTag) -> (b: bool)
    ensures
        b == spec_nonnegative_wire(tag),
{
    tag.same(&WireTag::Forever) || is_nonnegative_finite_tag(tag)
}

/// A finite tag with a nonnegative offset.
pub fn is_nonnegative_finite_tag(tag: WireTag) -> (b: bool)
    ensures
        b == spec_nonnegative_finite(tag),
{
    match tag {
        WireTag::Finite { offset_ns, .. } => offset_ns >= 0,
        _ => false,
    }
}

/// Deterministic RTI state for static TAG/NET/LTC/MSG coordination.
#[derive(Debug)]
pub struct RtiState {
    graph: RtiGraph,
    federates: Vec<FederateCoordination>,
}

impl RtiState {
    /// The compiled graph.
    pub closed spec fn spec_graph(&self) -> RtiGraph {
        self.graph
    }

    /// Coordination state of every Federate, by dense key.
    pub closed spec fn coords(&self) -> Seq<CoordView> {
        self.federates@.map_values(|c: FederateCoordination| c@)
    }

    /// Structural invariant.
    pub closed spec fn wf(&self) -> bool {
        &&& self.graph.wf()
        &&& self.federates@.len() == self.graph.fed_count()
        &&& forall|k: int| 0 <= k < self.federates@.len() ==> (#[trigger] self.federates@[k]).wf()
    }

    /// A well-formed RTI holds a well-formed graph and exactly one coordination state per
    /// Federate of the graph, indexed by the Federate's dense key.
    pub proof fn lemma_wf_shape(&self)
        requires
            self.wf(),
        ensures
            self.spec_graph().wf(),
            self.coords().len() == self.spec_graph().fed_count(),
    {
    }

    /// The coordination state of `k`, or `staged` when `k` is `f`.
    fn state_at<'a>(&'a self, f: usize, staged: &'a FederateCoordination, k: usize) -> (c: &'a FederateCoordination)
        requires
            self.wf(),
            staged.wf(),
            k < self.graph.fed_count(),
        ensures
            c.wf(),
            c@ == (if k == f { staged@ } else { self.coords()[k as int] }),
    {
        if k == f {
            staged
        } else {
            &self.federates[k]
        }
    }

    fn eimt(&self, f: usize, staged: &FederateCoordination, k: usize) -> (r: Result<Option<WireTag>, RtiError>)
        requires
            self.wf(),
            staged.wf(),
            f < self.graph.fed_count(),
            k < self.graph.fed_count(),
        ensures
            ({
                let cs = self.coords().update(f as int, staged@);
                match r {
                    Ok(t) => eimt(self.graph, cs, k as int) == Ok::<Option<WireTag>, RtiErrorView>(t),
                    Err(e) => eimt(self.graph, cs, k as int) == Err::<Option<WireTag>, RtiErrorView>(e@),
                }
            }),
    {
        let ghost cs = self.coords().update(f as int, staged@);
        let paths = self.graph.transitive_incoming(k);
        let mut earliest: Option<WireTag> = None;
        let mut j: usize = 0;
        while j < paths.len()
            invariant
                self.wf(),
                staged.wf(),
                f < self.graph.fed_count(),
                k < self.graph.fed_count(),
                cs == self.coords().update(f as int, staged@),
                paths@ == self.graph.transitive_of(k as int),
                j <= paths@.len(),
                eimt_prefix(self.graph, cs, k as int, j as int) == Ok::<Option<WireTag>, RtiErrorView>(earliest),
            decreases paths@.len() - j,
        {
            let p = paths[j];
            proof {
                assert(self.graph.transitive_of(k as int)[j as int] == p);
                assert(p.source < self.graph.fed_count());
            }
            let upstream = self.state_at(f, staged, p.source);
            proof {
                assert(cs[p.source as int] == upstream@);
            }
            let candidate = match apply_edge_delay(upstream.effective_next_event(), p.delay) {
                Ok(t) => t,
                Err(e) => {
                    proof {
                        assert(eimt_prefix(self.graph, cs, k as int, j + 1) is Err);
                        lemma_eimt_err_persists(self.graph, cs, k as int, j + 1, paths@.len() as int);
                    }
                    return Err(e);
                },
            };
            earliest = match earliest {
                None => Some(candidate),
                Some(current) => if candidate.lt(&current) {
                    Some(candidate)
                } else {
                    Some(current)
                },
            };
            j = j + 1;
        }
        Ok(earliest)
    }

    fn upstream_completed(&self, f: usize, staged: &FederateCoordination, k: usize) -> (r: Result<WireTag, RtiError>)
        requires
            self.wf(),
            staged.wf(),
            f < self.graph.fed_count(),
            k < self.graph.fed_count(),
        ensures
            ({
                let cs = self.coords().update(f as int, staged@);
                match r {
                    Ok(t) => upstream_completed(self.graph, cs, k as int) == Ok::<WireTag, RtiErrorView>(t),
                    Err(e) => upstream_completed(self.graph, cs, k as int) == Err::<WireTag, RtiErrorView>(e@),
                }
            }),
    {
        let ghost cs = self.coords().update(f as int, staged@);
        let deps = self.graph.incoming(k);
        let mut minimum = WireTag::Forever;
        let mut j: usize = 0;
        while j < deps.len()
            invariant
                self.wf(),
                staged.wf(),
                f < self.graph.fed_count(),
                k < self.graph.fed_count(),
                cs == self.coords().update(f as int, staged@),
                deps@ == self.graph.incoming_of(k as int),
                j <= deps@.len(),
                upstream_completed_prefix(self.graph, cs, k as int, j as int) == Ok::<WireTag, RtiErrorView>(minimum),
            decreases deps@.len() - j,
        {
            let d = deps[j];
            proof {
                assert(self.graph.incoming_of(k as int)[j as int] == d);
                assert(d.endpoint < self.graph.ep_count());
                assert(0 <= self.graph.ep_source(d.endpoint as int) < self.graph.fed_count());
            }
            let upstream = self.state_at(f, staged, d.source);
            proof {
                assert(cs[d.source as int] == upstream@);
            }
            if !upstream.is_stopped() {
                let candidate = match apply_edge_delay(upstream.last_completed(), d.delay) {
                    Ok(t) => t,
                    Err(e) => {
                        proof {
                            assert(upstream_completed_prefix(self.graph, cs, k as int, j + 1) is Err);
                            lemma_upstream_err_persists(self.graph, cs, k as int, j + 1, deps@.len() as int);
                        }
                        return Err(e);
                    },
                };
                minimum = minimum.min_tag(candidate);
            }
            j = j + 1;
        }
        Ok(minimum)
    }

    fn evaluate_grant_tag(&self, f: usize, staged: &FederateCoordination, k: usize) -> (r: Result<GrantDecision, RtiError>)
        requires
            self.wf(),
            staged.wf(),
            f < self.graph.fed_count(),
            k < self.graph.fed_count(),
        ensures
            ({
                let cs = self.coords().update(f as int, staged@);
                match r {
                    Ok(d) => spec_evaluate(self.graph, cs, k as int) == Ok::<GrantDecision, RtiErrorView>(d),
                    Err(e) => spec_evaluate(self.graph, cs, k as int) == Err::<GrantDecision, RtiErrorView>(e@),
                }
            }),
    {
        let state = self.state_at(f, staged, k);
        if state.is_stopped() {
            return Ok(GrantDecision::Blocked { requested: WireTag::Forever, earliest_incoming: None });
        }
        let requested = match state.requested_tag() {
            Some(tag) => tag,
            None => {
                return Ok(GrantDecision::Blocked { requested: WireTag::Forever, earliest_incoming: None });
            },
        };
        if requested.same(&WireTag::Forever) {
            let earliest = match self.eimt(f, staged, k) {
                Ok(t) => t,
                Err(e) => {
                    return Err(e);
                },
            };
            return Ok(GrantDecision::Blocked { requested, earliest_incoming: earliest });
        }
        let requested = state.effective_next_event().min_tag(requested);
        if let Some(last_granted) = state.last_granted() {
            if requested.le(&last_granted) {
                return Ok(GrantDecision::AlreadyGranted { tag: requested });
            }
        }
        if self.graph.incoming(k).len() == 0 {
            return Ok(GrantDecision::Granted { tag: requested });
        }
        let last_granted = match state.last_granted() {
            Some(t) => t,
            None => WireTag::Never,
        };
        let minimum_upstream_completed = match self.upstream_completed(f, staged, k) {
            Ok(t) => t,
            Err(e) => {
                return Err(e);
            },
        };
        if last_granted.lt(&minimum_upstream_completed) && requested.le(&minimum_upstream_completed) {
            return Ok(GrantDecision::Granted { tag: minimum_upstream_completed });
        }
        let earliest_incoming = match self.eimt(f, staged, k) {
            Ok(t) => t,
            Err(e) => {
                return Err(e);
            },
        };
        if let Some(incoming) = earliest_incoming {
            if requested.lt(&incoming) {
                let safe = match latest_tag_strictly_before(incoming) {
                    Some(t) => t,
                    None => {
                        return Err(RtiError::TagPredecessorUnderflow { tag: incoming });
                    },
                };
                if last_granted.lt(&safe) {
                    return Ok(GrantDecision::Granted { tag: safe });
                }
            }
        }
        Ok(GrantDecision::Blocked { requested, earliest_incoming })
    }

    fn identity_check(&self, auth: usize, claimed: &FederateId, event: &'static str) -> (r: Result<(), RtiError>)
        requires
            self.wf(),
            auth < self.graph.fed_count(),
        ensures
            match r {
                Ok(_) => identity_error(self.graph, auth as int, claimed@, event@) is None,
                Err(e) => identity_error(self.graph, auth as int, claimed@, event@) == Some(e@),
            },
    {
        let authenticated = self.graph.federate_id(auth);
        if authenticated.same(claimed) {
            Ok(())
        } else {
            Err(RtiError::FederateIdentityMismatch {
                event,
                authenticated_federate: authenticated.duplicate(),
                claimed_federate: claimed.duplicate(),
            })
        }
    }

    /// Validates a message received on the endpoint of the Federate with key `auth`.
    pub fn validate_message(&self, auth: usize, message: FederateToRti) -> (r: Result<ResolvedRtiEvent, RtiError>)
        requires
            self.wf(),
            auth < self.spec_graph().fed_count(),
        ensures
            match r {
                Ok(ev) => spec_validate(self.spec_graph(), self.coords(), auth as int, message@) == Ok::<ResolvedView, RtiErrorView>(ev@)
                    && resolved_in_graph(self.spec_graph(), ev@),
                Err(e) => spec_validate(self.spec_graph(), self.coords(), auth as int, message@) == Err::<ResolvedView, RtiErrorView>(e@),
            },
    {
        let ghost m = message@;
        let state = &self.federates[auth];
        match message {
            FederateToRti::Hello { federate_id } => {
                match self.identity_check(auth, &federate_id, "Hello") {
                    Err(e) => Err(e),
                    Ok(_) => Ok(ResolvedRtiEvent::Hello { federate: auth }),
                }
            },
            FederateToRti::Net { federate_id, tag } => {
                if let Err(e) = self.identity_check(auth, &federate_id, "NET") {
                    return Err(e);
                }
                if tag.same(&WireTag::Never) || !is_nonnegative_wire_tag(tag) {
                    return Err(RtiError::InvalidTag { event: "NET", federate_id, tag });
                }
                match state.lifecycle() {
                    FederateLifecycle::Stopped => Err(RtiError::InvalidLifecycleTransition {
                        federate_id,
                        event: "NET",
                        lifecycle: "stopped",
                    }),
                    FederateLifecycle::Running { next_event: NextEvent::NoFuture } => Err(
                        RtiError::InvalidLifecycleTransition {
                            federate_id,
                            event: "NET",
                            lifecycle: "no-future",
                        },
                    ),
                    _ => if tag.lt(&state.last_completed()) {
                        Err(RtiError::RegressingNet {
                            federate_id,
                            previous: state.last_completed(),
                            requested: tag,
                        })
                    } else {
                        Ok(ResolvedRtiEvent::Net { federate: auth, tag })
                    },
                }
            },
            FederateToRti::Ltc { federate_id, tag } => {
                if let Err(e) = self.identity_check(auth, &federate_id, "LTC") {
                    return Err(e);
                }
                if !is_nonnegative_finite_tag(tag) {
                    return Err(RtiError::InvalidTag { event: "LTC", federate_id, tag });
                }
                if state.is_stopped() {
                    return Err(RtiError::InvalidLifecycleTransition {
                        federate_id,
                        event: "LTC",
                        lifecycle: "stopped",
                    });
                }
                if tag.lt(&state.last_completed()) {
                    return Err(RtiError::RegressingLtc {
                        federate_id,
                        previous: state.last_completed(),
                        completed: tag,
                    });
                }
                Ok(ResolvedRtiEvent::Ltc { federate: auth, tag })
            },
            FederateToRti::Msg { source, target, endpoint, tag, payload } => {
                if let Err(e) = self.identity_check(auth, &source, "MSG") {
                    return Err(e);
                }
                let target_key = match self.graph.federate_key(&target) {
                    Some(t) => t,
                    None => {
                        return Err(RtiError::UnknownFederate(target));
                    },
                };
                proof {
                    lemma_key_of(self.graph, target@, target_key as int);
                }
                if !is_nonnegative_finite_tag(tag) {
                    return Err(RtiError::InvalidTag { event: "MSG", federate_id: source, tag });
                }
                if state.is_stopped() {
                    return Err(RtiError::InvalidLifecycleTransition {
                        federate_id: source,
                        event: "MSG",
                        lifecycle: "stopped",
                    });
                }
                let endpoint_key = match self.graph.endpoint_key(&endpoint) {
                    Some(e) => e,
                    None => {
                        return Err(RtiError::InvalidRoute {
                            source_federate: source,
                            target_federate: target,
                            endpoint,
                        });
                    },
                };
                proof {
                    lemma_endpoint_key_of(self.graph, endpoint@, endpoint_key as int);
                }
                let (route_source, route_target, _) = self.graph.endpoint(endpoint_key);
                if route_source != auth || route_target != target_key {
                    return Err(RtiError::InvalidRoute {
                        source_federate: source,
                        target_federate: target,
                        endpoint,
                    });
                }
                Ok(ResolvedRtiEvent::Msg {
                    source: auth,
                    target: target_key,
                    endpoint: endpoint_key,
                    tag,
                    payload,
                })
            },
            FederateToRti::Stop { federate_id } => {
                if let Err(e) = self.identity_check(auth, &federate_id, "Stop") {
                    return Err(e);
                }
                match state.lifecycle() {
                    FederateLifecycle::Running { next_event: NextEvent::NoFuture } => Ok(
                        ResolvedRtiEvent::Stop { federate: auth },
                    ),
                    FederateLifecycle::Running { .. } => Err(
                        RtiError::InvalidLifecycleTransition {
                            federate_id,
                            event: "Stop",
                            lifecycle: "running with future events",
                        },
                    ),
                    FederateLifecycle::Stopped => Err(RtiError::InvalidLifecycleTransition {
                        federate_id,
                        event: "Stop",
                        lifecycle: "stopped",
                    }),
                }
            },
        }
    }

    fn evaluate_grants(&self, affected: &Vec<usize>, f: usize, staged: &FederateCoordination) -> (r: Result<
        Vec<(usize, GrantDecision)>,
        RtiError,
    >)
        requires
            self.wf(),
            staged.wf(),
            f < self.graph.fed_count(),
            forall|j: int| 0 <= j < affected@.len() ==> affected@[j] < self.graph.fed_count(),
        ensures
            ({
                let cs = self.coords().update(f as int, staged@);
                match r {
                    Ok(gs) => spec_grants(self.graph, cs, affected@) == Ok::<Seq<(usize, GrantDecision)>, RtiErrorView>(gs@)
                        && gs@.len() == affected@.len()
                        && forall|j: int| 0 <= j < gs@.len() ==> (#[trigger] gs@[j]).0 == affected@[j],
                    Err(e) => spec_grants(self.graph, cs, affected@) == Err::<Seq<(usize, GrantDecision)>, RtiErrorView>(e@),
                }
            }),
    {
        let ghost cs = self.coords().update(f as int, staged@);
        let mut grants: Vec<(usize, GrantDecision)> = Vec::new();
        let mut j: usize = 0;
        while j < affected.len()
            invariant
                self.wf(),
                staged.wf(),
                f < self.graph.fed_count(),
                cs == self.coords().update(f as int, staged@),
                forall|x: int| 0 <= x < affected@.len() ==> affected@[x] < self.graph.fed_count(),
                j <= affected@.len(),
                grants_prefix(self.graph, cs, affected@, j as int) == Ok::<Seq<(usize, GrantDecision)>, RtiErrorView>(grants@),
                grants@.len() == j,
                forall|x: int| 0 <= x < j ==> (#[trigger] grants@[x]).0 == affected@[x],
            decreases affected@.len() - j,
        {
            let k = affected[j];
            match self.evaluate_grant_tag(f, staged, k) {
                Ok(d) => {
                    grants.push((k, d));
                },
                Err(e) => {
                    proof {
                        lemma_grants_err_persists(self.graph, cs, affected@, j + 1, affected@.len() as int);
                    }
                    return Err(e);
                },
            }
            j = j + 1;
        }
        Ok(grants)
    }

    fn commit_transition(
        &mut self,
        f: usize,
        staged: FederateCoordination,
        grants: Vec<(usize, GrantDecision)>,
    ) -> (deliveries: Vec<RtiDelivery>)
        requires
            old(self).wf(),
            staged.wf(),
            f < old(self).graph.fed_count(),
            forall|j: int| 0 <= j < grants@.len() ==> grants@[j].0 < old(self).graph.fed_count(),
        ensures
            final(self).wf(),
            final(self).graph == old(self).graph,
            final(self).coords() == commit_coords(old(self).coords().update(f as int, staged@), grants@),
            deliveries@.map_values(|d: RtiDelivery| d@) == commit_deliveries(old(self).graph, grants@),
    {
        let ghost cs1 = old(self).coords().update(f as int, staged@);
        self.federates.set(f, staged);
        proof {
            assert(self.coords() =~= cs1);
        }
        let mut deliveries: Vec<RtiDelivery> = Vec::new();
        let mut j: usize = 0;
        while j < grants.len()
            invariant
                self.wf(),
                self.graph == old(self).graph,
                forall|x: int| 0 <= x < grants@.len() ==> grants@[x].0 < self.graph.fed_count(),
                j <= grants@.len(),
                self.coords() == commit_coords(cs1, grants@.subrange(0, j as int)),
                deliveries@.map_values(|d: RtiDelivery| d@) == commit_deliveries(self.graph, grants@.subrange(0, j as int)),
            decreases grants@.len() - j,
        {
            let (k, d) = grants[j];
            proof {
                assert(grants@.subrange(0, j + 1).drop_last() =~= grants@.subrange(0, j as int));
                assert(grants@.subrange(0, j + 1).last() == (k, d));
            }
            if let GrantDecision::Granted { tag } = d {
                let mut c = self.federates[k].duplicate();
                c.grant(tag);
                let ghost before = self.coords();
                self.federates.set(k, c);
                proof {
                    assert(self.coords() =~= before.update(k as int, spec_granted(before[k as int], tag)));
                }
                let ghost dbefore = deliveries@.map_values(|x: RtiDelivery| x@);
                deliveries.push(RtiDelivery::new(
                    self.graph.federate_id(k).duplicate(),
                    RtiToFederate::Tag { tag },
                ));
                proof {
                    assert(deliveries@.map_values(|x: RtiDelivery| x@) =~= dbefore.push(
                        DeliveryView { federate_id: self.graph.fed_id(k as int), message: RtiToFederateView::Tag { tag } },
                    ));
                }
            }
            j = j + 1;
        }
        proof {
            assert(grants@.subrange(0, grants@.len() as int) =~= grants@);
        }
        deliveries
    }

    fn net_affected_federates(&self, f: usize) -> (r: Vec<usize>)
        requires
            self.wf(),
            f < self.graph.fed_count(),
        ensures
            r@ == net_affected(self.graph, f as int),
            forall|j: int| 0 <= j < r@.len() ==> r@[j] < self.graph.fed_count(),
    {
        let downstream = self.graph.affected_downstream(f);
        let mut rest: Vec<usize> = Vec::new();
        let mut i: usize = 0;
        while i < downstream.len()
            invariant
                self.wf(),
                f < self.graph.fed_count(),
                downstream@ == self.graph.affected_of(f as int),
                i <= downstream@.len(),
                rest@ == without(downstream@.subrange(0, i as int), f),
            decreases downstream@.len() - i,
        {
            proof {
                assert(downstream@.subrange(0, i + 1).drop_last() =~= downstream@.subrange(0, i as int));
            }
            if downstream[i] != f {
                rest.push(downstream[i]);
            }
            i = i + 1;
        }
        proof {
            assert(downstream@.subrange(0, downstream@.len() as int) =~= downstream@);
            lemma_without_bounded(downstream@, f, self.graph.fed_count() as int);
        }
        let mut r: Vec<usize> = Vec::new();
        r.push(f);
        r.append(&mut rest);
        proof {
            assert(r@ =~= seq![f] + without(downstream@, f));
        }
        r
    }


    fn transition(&mut self, f: usize, staged: FederateCoordination, affected: Vec<usize>) -> (r: Result<
        Vec<RtiDelivery>,
        RtiError,
    >)
        requires
            old(self).wf(),
            staged.wf(),
            f < old(self).graph.fed_count(),
            forall|j: int| 0 <= j < affected@.len() ==> affected@[j] < old(self).graph.fed_count(),
        ensures
            final(self).wf(),
            final(self).graph == old(self).graph,
            match r {
                Ok(ds) => spec_transition(old(self).graph, old(self).coords(), f as int, staged@, affected@)
                    == Ok::<(Seq<CoordView>, Seq<DeliveryView>), RtiErrorView>(
                    (final(self).coords(), ds@.map_values(|d: RtiDelivery| d@)),
                ),
                Err(e) => spec_transition(old(self).graph, old(self).coords(), f as int, staged@, affected@)
                    == Err::<(Seq<CoordView>, Seq<DeliveryView>), RtiErrorView>(e@)
                    && final(self).coords() == old(self).coords(),
            },
    {
        let grants = match self.evaluate_grants(&affected, f, &staged) {
            Ok(gs) => gs,
            Err(e) => {
                return Err(e);
            },
        };
        let deliveries = self.commit_transition(f, staged, grants);
        Ok(deliveries)
    }

    /// Applies a validated event: all grant evaluations happen against the staged state, and
    /// nothing changes unless every evaluation succeeds.
    pub fn handle_validated(&mut self, event: ResolvedRtiEvent) -> (r: Result<Vec<RtiDelivery>, RtiError>)
        requires
            old(self).wf(),
            resolved_in_graph(old(self).spec_graph(), event@),
        ensures
            final(self).wf(),
            final(self).spec_graph() == old(self).spec_graph(),
            match r {
                Ok(ds) => spec_handle_validated(old(self).spec_graph(), old(self).coords(), event@)
                    == Ok::<(Seq<CoordView>, Seq<DeliveryView>), RtiErrorView>(
                    (final(self).coords(), ds@.map_values(|d: RtiDelivery| d@)),
                ),
                Err(e) => spec_handle_validated(old(self).spec_graph(), old(self).coords(), event@)
                    == Err::<(Seq<CoordView>, Seq<DeliveryView>), RtiErrorView>(e@)
                    && final(self).coords() == old(self).coords(),
            },
    {
        let ghost ev = event@;
        match event {
            ResolvedRtiEvent::Hello { .. } => {
                let deliveries: Vec<RtiDelivery> = Vec::new();
                assert(deliveries@.map_values(|d: RtiDelivery| d@) =~= Seq::empty());
                Ok(deliveries)
            },
            ResolvedRtiEvent::Net { federate, tag } => {
                let mut staged = self.federates[federate].duplicate();
                staged.request(tag);
                let affected = self.net_affected_federates(federate);
                self.transition(federate, staged, affected)
            },
            ResolvedRtiEvent::Ltc { federate, tag } => {
                let mut staged = self.federates[federate].duplicate();
                staged.complete(tag);
                let affected = self.net_affected_federates(federate);
                self.transition(federate, staged, affected)
            },
            ResolvedRtiEvent::Msg { source, target, endpoint, tag, payload } => {
                let mut c = self.federates[target].duplicate();
                c.record_message(tag);
                let ghost before = self.coords();
                self.federates.set(target, c);
                proof {
                    assert(self.coords() =~= before.update(target as int, spec_record_message(before[target as int], tag)));
                }
                let mut deliveries: Vec<RtiDelivery> = Vec::new();
                deliveries.push(RtiDelivery::new(
                    self.graph.federate_id(target).duplicate(),
                    RtiToFederate::Msg {
                        source: self.graph.federate_id(source).duplicate(),
                        endpoint: self.graph.endpoint_id(endpoint).duplicate(),
                        tag,
                        payload,
                    },
                ));
                proof {
                    assert(deliveries@.map_values(|d: RtiDelivery| d@) =~= seq![
                        DeliveryView {
                            federate_id: self.graph.fed_id(target as int),
                            message: RtiToFederateView::Msg {
                                source: self.graph.fed_id(source as int),
                                endpoint: self.graph.ep_id(endpoint as int),
                                tag,
                                payload: ev->Msg_payload,
                            },
                        },
                    ]);
                }
                Ok(deliveries)
            },
            ResolvedRtiEvent::Stop { federate } => {
                let mut staged = self.federates[federate].duplicate();
                staged.stop();
                let affected = self.graph.affected_downstream(federate).clone();
                self.transition(federate, staged, affected)
            },
        }
    }

    /// Handles one message received on the authenticated endpoint of `authenticated_federate`.
    ///
    /// On success the RTI state moves as [`spec_handle_from`] says and the returned deliveries
    /// are the TAG and MSG frames to send; on any error nothing changes.
    pub fn handle_from(&mut self, authenticated_federate: &FederateId, message: FederateToRti) -> (r: Result<
        Vec<RtiDelivery>,
        RtiError,
    >)
        requires
            old(self).wf(),
        ensures
            final(self).wf(),
            final(self).spec_graph() == old(self).spec_graph(),
            match r {
                Ok(ds) => spec_handle_from(old(self).spec_graph(), old(self).coords(), authenticated_federate@, message@)
                    == Ok::<(Seq<CoordView>, Seq<DeliveryView>), RtiErrorView>(
                    (final(self).coords(), ds@.map_values(|d: RtiDelivery| d@)),
                ),
                Err(e) => spec_handle_from(old(self).spec_graph(), old(self).coords(), authenticated_federate@, message@)
                    == Err::<(Seq<CoordView>, Seq<DeliveryView>), RtiErrorView>(e@)
                    && final(self).coords() == old(self).coords(),
            },
    {
        let auth = match self.graph.federate_key(authenticated_federate) {
            Some(k) => k,
            None => {
                return Err(RtiError::UnknownFederate(authenticated_federate.duplicate()));
            },
        };
        proof {
            lemma_key_of(self.graph, authenticated_federate@, auth as int);
        }
        self.handle_from_key(auth, message)
    }

    /// Handles one message received on the endpoint of the Federate with dense key `auth`.
    pub fn handle_from_key(&mut self, auth: usize, message: FederateToRti) -> (r: Result<Vec<RtiDelivery>, RtiError>)
        requires
            old(self).wf(),
            auth < old(self).spec_graph().fed_count(),
        ensures
            final(self).wf(),
            final(self).spec_graph() == old(self).spec_graph(),
            match r {
                Ok(ds) => ({
                    let v = spec_validate(old(self).spec_graph(), old(self).coords(), auth as int, message@);
                    &&& v is Ok
                    &&& spec_handle_validated(old(self).spec_graph(), old(self).coords(), v->Ok_0)
                        == Ok::<(Seq<CoordView>, Seq<DeliveryView>), RtiErrorView>(
                        (final(self).coords(), ds@.map_values(|d: RtiDelivery| d@)),
                    )
                }),
                Err(e) => final(self).coords() == old(self).coords() && match spec_validate(
                    old(self).spec_graph(),
                    old(self).coords(),
                    auth as int,
                    message@,
                ) {
                    Err(ve) => ve == e@,
                    Ok(ev) => spec_handle_validated(old(self).spec_graph(), old(self).coords(), ev)
                        == Err::<(Seq<CoordView>, Seq<DeliveryView>), RtiErrorView>(e@),
                },
            },
    {
        let event = match self.validate_message(auth, message) {
            Ok(ev) => ev,
            Err(e) => {
                return Err(e);
            },
        };
        self.handle_validated(event)
    }

    /// The RTI for a compiled graph, with every Federate yet to advertise anything.
    pub fn from_graph(graph: RtiGraph) -> (s: Self)
        requires
            graph.wf(),
        ensures
            s.wf(),
            s.spec_graph() == graph,
            s.coords().len() == graph.fed_count(),
            forall|k: int| 0 <= k < graph.fed_count() ==> (#[trigger] s.coords()[k]) == (CoordView {
                lifecycle: FederateLifecycle::Running { next_event: NextEvent::Unknown },
                last_completed: WireTag::Never,
                last_granted: None,
                in_transit: Set::empty(),
            }),
    {
        let n = graph.federate_count();
        let mut federates: Vec<FederateCoordination> = Vec::new();
        let mut k: usize = 0;
        while k < n
            invariant
                k <= n,
                federates@.len() == k,
                forall|j: int| 0 <= j < k ==> (#[trigger] federates@[j]).wf() && federates@[j]@ == (CoordView {
                    lifecycle: FederateLifecycle::Running { next_event: NextEvent::Unknown },
                    last_completed: WireTag::Never,
                    last_granted: None,
                    in_transit: Set::empty(),
                }),
            decreases n - k,
        {
            federates.push(FederateCoordination::new());
            k = k + 1;
        }
        RtiState { graph, federates }
    }

    /// The compiled graph.
    pub fn graph(&self) -> (g: &RtiGraph)
        ensures
            *g == self.spec_graph(),
    {
        &self.graph
    }

    /// Dense key of a Federate identity.
    pub fn federate_key(&self, federate_id: &FederateId) -> (r: Option<usize>)
        requires
            self.wf(),
        ensures
            match r {
                Some(k) => key_of(self.spec_graph(), federate_id@) == Some(k as int),
                None => key_of(self.spec_graph(), federate_id@) is None,
            },
    {
        let r = self.graph.federate_key(federate_id);
        proof {
            if let Some(k) = r {
                lemma_key_of(self.graph, federate_id@, k as int);
            }
        }
        r
    }

    /// Coordination state of a Federate, by identity.
    pub fn coordination_of(&self, federate_id: &FederateId) -> (r: Option<&FederateCoordination>)
        requires
            self.wf(),
        ensures
            match r {
                Some(c) => key_of(self.spec_graph(), federate_id@) is Some && c@ == self.coords()[key_of(
                    self.spec_graph(),
                    federate_id@,
                )->0],
                None => key_of(self.spec_graph(), federate_id@) is None,
            },
    {
        match self.federate_key(federate_id) {
            Some(k) => Some(&self.federates[k]),
            None => None,
        }
    }

}

/// Every key of a validated event names a Federate or endpoint of the graph.
pub open spec fn resolved_in_graph(g: RtiGraph, ev: ResolvedView) -> bool {
    match ev {
        ResolvedView::Hello { federate } => 0 <= federate < g.fed_count(),
        ResolvedView::Net { federate, .. } => 0 <= federate < g.fed_count(),
        ResolvedView::Ltc { federate, .. } => 0 <= federate < g.fed_count(),
        ResolvedView::Msg { source, target, endpoint, .. } => 0 <= source < g.fed_count() && 0 <= target
            < g.fed_count() && 0 <= endpoint < g.ep_count(),
        ResolvedView::Stop { federate } => 0 <= federate < g.fed_count(),
    }
}


/// `a` is not later than `b` as a last-grant record: no grant, or grants that do not decrease.
pub open spec fn grant_le(a: Option<WireTag>, b: Option<WireTag>) -> bool {
    match a {
        None => true,
        Some(x) => match b {
            None => false,
            Some(y) => tag_le(x, y),
        },
    }
}

/// What every RTI step keeps for one Federate: a stopped Federate stays stopped, its completed
/// tag never decreases, and its last grant never decreases.
pub open spec fn coord_advances(before: CoordView, after: CoordView) -> bool {
    &&& (before.lifecycle is Stopped ==> after.lifecycle is Stopped)
    &&& tag_le(before.last_completed, after.last_completed)
    &&& grant_le(before.last_granted, after.last_granted)
}

/// A `Granted` decision always exceeds the Federate's previous grant.
pub proof fn lemma_evaluate_grant_exceeds(g: RtiGraph, cs: Seq<CoordView>, k: int)
    requires
        0 <= k < cs.len(),
    ensures
        spec_evaluate(g, cs, k) matches Ok(GrantDecision::Granted { tag }) ==> match cs[k].last_granted {
            None => true,
            Some(last) => tag_lt(last, tag),
        },
{
    let state = cs[k];
    if let Ok(GrantDecision::Granted { tag }) = spec_evaluate(g, cs, k) {
        if let Some(last) = state.last_granted {
            crate::protocol::lemma_tag_order_total(last, tag, tag);
        }
    }
}

/// Successful grant evaluation yields one decision per affected Federate, in order.
pub proof fn lemma_grants_shape(g: RtiGraph, cs: Seq<CoordView>, aff: Seq<usize>, j: int)
    requires
        0 <= j <= aff.len(),
        grants_prefix(g, cs, aff, j) is Ok,
    ensures
        grants_prefix(g, cs, aff, j)->Ok_0.len() == j,
        forall|x: int|
            0 <= x < j ==> (#[trigger] grants_prefix(g, cs, aff, j)->Ok_0[x]).0 == aff[x]
                && spec_evaluate(g, cs, aff[x] as int) == Ok::<GrantDecision, RtiErrorView>(
                grants_prefix(g, cs, aff, j)->Ok_0[x].1,
            ),
    decreases j,
{
    if j > 0 {
        lemma_grants_shape(g, cs, aff, j - 1);
    }
}

/// Committing grants keeps lifecycles and completions, and leaves each Federate either with its
/// previous grant or with one of the granted tags addressed to it.
pub proof fn lemma_commit_coords(cs: Seq<CoordView>, gs: Seq<(usize, GrantDecision)>)
    requires
        forall|j: int| 0 <= j < gs.len() ==> (#[trigger] gs[j]).0 < cs.len(),
    ensures
        commit_coords(cs, gs).len() == cs.len(),
        forall|k: int|
            0 <= k < cs.len() ==> {
                let c = #[trigger] commit_coords(cs, gs)[k];
                &&& c.lifecycle == cs[k].lifecycle
                &&& c.last_completed == cs[k].last_completed
                &&& (c.last_granted == cs[k].last_granted || exists|j: int|
                    0 <= j < gs.len() && gs[j].0 == k && gs[j].1 == (GrantDecision::Granted {
                        tag: c.last_granted->0,
                    }) && c.last_granted is Some)
            },
    decreases gs.len(),
{
    if gs.len() > 0 {
        let rest = gs.drop_last();
        assert forall|j: int| 0 <= j < rest.len() implies (#[trigger] rest[j]).0 < cs.len() by {
            assert(rest[j] == gs[j]);
        }
        lemma_commit_coords(cs, rest);
        let prev = commit_coords(cs, rest);
        assert forall|k: int| 0 <= k < cs.len() implies {
            let c = #[trigger] commit_coords(cs, gs)[k];
            &&& c.lifecycle == cs[k].lifecycle
            &&& c.last_completed == cs[k].last_completed
            &&& (c.last_granted == cs[k].last_granted || exists|j: int|
                0 <= j < gs.len() && gs[j].0 == k && gs[j].1 == (GrantDecision::Granted {
                    tag: c.last_granted->0,
                }) && c.last_granted is Some)
        } by {
            let c = commit_coords(cs, gs)[k];
            let p = prev[k];
            if c.last_granted != cs[k].last_granted && c == p {
                let j = choose|j: int|
                    0 <= j < rest.len() && rest[j].0 == k && rest[j].1 == (GrantDecision::Granted {
                        tag: p.last_granted->0,
                    }) && p.last_granted is Some;
                assert(gs[j] == rest[j]);
            }
            if c != p {
                assert(gs[gs.len() - 1] == gs.last());
            }
        }
    }
}

/// Every grant committed by a transition exceeds the grantee's previous grant, so the staged
/// Federate and every other Federate advance.
pub proof fn lemma_transition_advances(
    g: RtiGraph,
    cs: Seq<CoordView>,
    f: int,
    staged: CoordView,
    aff: Seq<usize>,
)
    requires
        0 <= f < cs.len(),
        coord_advances(cs[f], staged),
        staged.last_granted == cs[f].last_granted,
        forall|j: int| 0 <= j < aff.len() ==> (#[trigger] aff[j]) < cs.len(),
        spec_transition(g, cs, f, staged, aff) is Ok,
    ensures
        spec_transition(g, cs, f, staged, aff)->Ok_0.0.len() == cs.len(),
        forall|k: int|
            0 <= k < cs.len() ==> coord_advances(cs[k], #[trigger] spec_transition(g, cs, f, staged, aff)->Ok_0.0[k]),
{
    let cs1 = cs.update(f, staged);
    let gs = spec_grants(g, cs1, aff)->Ok_0;
    lemma_grants_shape(g, cs1, aff, aff.len() as int);
    assert forall|j: int| 0 <= j < gs.len() implies (#[trigger] gs[j]).0 < cs1.len() by {
        assert(aff[j] < cs.len());
    }
    lemma_commit_coords(cs1, gs);
    let out = commit_coords(cs1, gs);
    assert forall|k: int| 0 <= k < cs.len() implies coord_advances(cs[k], #[trigger] out[k]) by {
        let c = out[k];
        crate::protocol::lemma_tag_order_total(cs[k].last_completed, cs1[k].last_completed, c.last_completed);
        crate::protocol::lemma_tag_order_total(cs[k].last_completed, cs[k].last_completed, cs[k].last_completed);
        if c.last_granted != cs1[k].last_granted {
            let j = choose|j: int|
                0 <= j < gs.len() && gs[j].0 == k && gs[j].1 == (GrantDecision::Granted {
                    tag: c.last_granted->0,
                }) && c.last_granted is Some;
            lemma_evaluate_grant_exceeds(g, cs1, k);
            assert(spec_evaluate(g, cs1, aff[j] as int) == Ok::<GrantDecision, RtiErrorView>(gs[j].1));
        } else if let Some(x) = cs[k].last_granted {
            crate::protocol::lemma_tag_order_total(x, x, x);
        }
    }
}

/// Law of the RTI: every accepted message keeps each Federate's lifecycle, completion and grant
/// moving forward only — a stopped Federate stays stopped, completed tags never decrease, and
/// grants never decrease.
pub proof fn lemma_handle_from_advances(g: RtiGraph, cs: Seq<CoordView>, id: Seq<char>, m: FederateToRtiView)
    requires
        g.wf(),
        cs.len() == g.fed_count(),
        spec_handle_from(g, cs, id, m) is Ok,
    ensures
        spec_handle_from(g, cs, id, m)->Ok_0.0.len() == cs.len(),
        forall|k: int|
            0 <= k < cs.len() ==> coord_advances(cs[k], #[trigger] spec_handle_from(g, cs, id, m)->Ok_0.0[k]),
{
    let a = key_of(g, id)->0;
    assert(0 <= a < g.fed_count());
    let ev = spec_validate(g, cs, a, m)->Ok_0;
    let out = spec_handle_from(g, cs, id, m)->Ok_0.0;
    assert forall|k: int| 0 <= k < cs.len() implies tag_le(cs[k].last_completed, cs[k].last_completed)
        && grant_le(cs[k].last_granted, cs[k].last_granted) by {
        crate::protocol::lemma_tag_order_total(cs[k].last_completed, cs[k].last_completed, cs[k].last_completed);
        if let Some(x) = cs[k].last_granted {
            crate::protocol::lemma_tag_order_total(x, x, x);
        }
    }
    match ev {
        ResolvedView::Hello { .. } => {},
        ResolvedView::Net { federate, tag } => {
            let staged = spec_request(cs[federate], tag);
            lemma_without_bounded(g.affected_of(federate), federate as usize, g.fed_count() as int);
            let aff = net_affected(g, federate);
            assert forall|j: int| 0 <= j < aff.len() implies (#[trigger] aff[j]) < cs.len() by {
                if j > 0 {
                    assert(aff[j] == without(g.affected_of(federate), federate as usize)[j - 1]);
                }
            }
            lemma_transition_advances(g, cs, federate, staged, aff);
        },
        ResolvedView::Ltc { federate, tag } => {
            let staged = spec_complete(cs[federate], tag);
            crate::protocol::lemma_tag_order_total(cs[federate].last_completed, tag, tag);
            lemma_without_bounded(g.affected_of(federate), federate as usize, g.fed_count() as int);
            let aff = net_affected(g, federate);
            assert forall|j: int| 0 <= j < aff.len() implies (#[trigger] aff[j]) < cs.len() by {
                if j > 0 {
                    assert(aff[j] == without(g.affected_of(federate), federate as usize)[j - 1]);
                }
            }
            lemma_transition_advances(g, cs, federate, staged, aff);
        },
        ResolvedView::Msg { source, target, endpoint, tag, payload } => {
            assert forall|k: int| 0 <= k < cs.len() implies coord_advances(cs[k], #[trigger] out[k]) by {}
        },
        ResolvedView::Stop { federate } => {
            let staged = spec_stop(cs[federate]);
            let aff = g.affected_of(federate);
            assert forall|j: int| 0 <= j < aff.len() implies (#[trigger] aff[j]) < cs.len() by {}
            lemma_transition_advances(g, cs, federate, staged, aff);
        },
    }
}

/// The tag at which a message sent along upstream path `p` could arrive at the earliest: the
/// path source's effective next event, delayed by the path's delay.
pub open spec fn path_arrival(cs: Seq<CoordView>, p: graph::IncomingPath) -> Result<WireTag, RtiErrorView> {
    spec_apply_edge_delay(effective(cs[p.source as int]), p.delay)
}

proof fn lemma_eimt_prefix_least(g: RtiGraph, cs: Seq<CoordView>, k: int, j: int)
    requires
        0 <= j <= g.transitive_of(k).len(),
    ensures
        eimt_prefix(g, cs, k, j) matches Ok(r) ==> {
            &&& (r is None <==> j == 0)
            &&& forall|i: int|
                0 <= i < j ==> (path_arrival(cs, #[trigger] g.transitive_of(k)[i]) matches Ok(c) && tag_le(
                    r->0,
                    c,
                ))
            &&& r matches Some(e) ==> exists|i: int|
                0 <= i < j && path_arrival(cs, #[trigger] g.transitive_of(k)[i]) == Ok::<WireTag, RtiErrorView>(e)
        },
        eimt_prefix(g, cs, k, j) matches Err(x) ==> exists|i: int|
            0 <= i < j && path_arrival(cs, #[trigger] g.transitive_of(k)[i]) == Err::<WireTag, RtiErrorView>(x),
    decreases j,
{
    if j > 0 {
        lemma_eimt_prefix_least(g, cs, k, j - 1);
        let ps = g.transitive_of(k);
        if let Err(x) = eimt_prefix(g, cs, k, j) {
            if eimt_prefix(g, cs, k, j - 1) is Err {
                let i = choose|i: int| 0 <= i < j - 1 && path_arrival(cs, #[trigger] ps[i]) == Err::<WireTag, RtiErrorView>(x);
                assert(path_arrival(cs, ps[i]) == Err::<WireTag, RtiErrorView>(x));
            } else {
                assert(path_arrival(cs, ps[j - 1]) == Err::<WireTag, RtiErrorView>(x));
            }
        }
        if let Ok(r) = eimt_prefix(g, cs, k, j) {
            let prev = eimt_prefix(g, cs, k, j - 1)->Ok_0;
            let c = path_arrival(cs, ps[j - 1])->Ok_0;
            let e = r->0;
            crate::protocol::lemma_tag_order_total(e, c, c);
            if let Some(cur) = prev {
                crate::protocol::lemma_tag_order_total(c, cur, c);
                crate::protocol::lemma_tag_order_total(cur, c, cur);
                assert forall|i: int| 0 <= i < j implies (path_arrival(cs, #[trigger] ps[i]) matches Ok(x) && tag_le(e, x)) by {
                    if i < j - 1 {
                        let x = path_arrival(cs, ps[i])->Ok_0;
                        crate::protocol::lemma_tag_order_total(e, cur, x);
                    }
                }
                if e == cur {
                    let i = choose|i: int| 0 <= i < j - 1 && path_arrival(cs, #[trigger] ps[i]) == Ok::<WireTag, RtiErrorView>(cur);
                    assert(path_arrival(cs, ps[i]) == Ok::<WireTag, RtiErrorView>(e));
                } else {
                    assert(path_arrival(cs, ps[j - 1]) == Ok::<WireTag, RtiErrorView>(e));
                }
            } else {
                assert(path_arrival(cs, ps[j - 1]) == Ok::<WireTag, RtiErrorView>(e));
            }
        }
    }
}

/// Law of grant evaluation: the earliest incoming message tag of Federate `k` is the least
/// arrival tag over all its transitive upstream paths: it is at most the arrival tag of every
/// path, and it is the arrival tag of one of them; there is none exactly when `k` has no
/// upstream path.
pub proof fn lemma_eimt_is_least_arrival(g: RtiGraph, cs: Seq<CoordView>, k: int)
    ensures
        eimt(g, cs, k) matches Ok(r) ==> {
            &&& (r is None <==> g.transitive_of(k).len() == 0)
            &&& forall|i: int|
                0 <= i < g.transitive_of(k).len() ==> (path_arrival(cs, #[trigger] g.transitive_of(k)[i]) matches Ok(
                    c,
                ) && tag_le(r->0, c))
            &&& r matches Some(e) ==> exists|i: int|
                0 <= i < g.transitive_of(k).len() && path_arrival(cs, #[trigger] g.transitive_of(k)[i]) == Ok::<
                    WireTag,
                    RtiErrorView,
                >(e)
        },
        eimt(g, cs, k) matches Err(x) ==> exists|i: int|
            0 <= i < g.transitive_of(k).len() && path_arrival(cs, #[trigger] g.transitive_of(k)[i]) == Err::<
                WireTag,
                RtiErrorView,
            >(x),
{
    lemma_eimt_prefix_least(g, cs, k, g.transitive_of(k).len() as int);
}

/// The tag up to which direct upstream dependency `d` has completed, as seen downstream: its
/// source's last completed tag delayed by the dependency's delay.
pub open spec fn dependency_completion(cs: Seq<CoordView>, d: graph::IncomingDependency) -> Result<
    WireTag,
    RtiErrorView,
> {
    spec_apply_edge_delay(cs[d.source as int].last_completed, d.delay)
}

/// Whether the source of dependency `d` still runs.
pub open spec fn dependency_live(cs: Seq<CoordView>, d: graph::IncomingDependency) -> bool {
    !(cs[d.source as int].lifecycle is Stopped)
}

proof fn lemma_upstream_completed_prefix_least(g: RtiGraph, cs: Seq<CoordView>, k: int, j: int)
    requires
        0 <= j <= g.incoming_of(k).len(),
    ensures
        upstream_completed_prefix(g, cs, k, j) matches Ok(u) ==> {
            &&& forall|i: int|
                0 <= i < j && dependency_live(cs, #[trigger] g.incoming_of(k)[i]) ==> (dependency_completion(
                    cs,
                    g.incoming_of(k)[i],
                ) matches Ok(c) && tag_le(u, c))
            &&& (u == WireTag::Forever || exists|i: int|
                0 <= i < j && dependency_live(cs, #[trigger] g.incoming_of(k)[i]) && dependency_completion(
                    cs,
                    g.incoming_of(k)[i],
                ) == Ok::<WireTag, RtiErrorView>(u))
        },
        upstream_completed_prefix(g, cs, k, j) matches Err(x) ==> exists|i: int|
            0 <= i < j && dependency_live(cs, #[trigger] g.incoming_of(k)[i]) && dependency_completion(
                cs,
                g.incoming_of(k)[i],
            ) == Err::<WireTag, RtiErrorView>(x),
    decreases j,
{
    if j > 0 {
        lemma_upstream_completed_prefix_least(g, cs, k, j - 1);
        let ds = g.incoming_of(k);
        let d = ds[j - 1];
        match upstream_completed_prefix(g, cs, k, j - 1) {
            Err(x) => {
                let i = choose|i: int|
                    0 <= i < j - 1 && dependency_live(cs, #[trigger] ds[i]) && dependency_completion(cs, ds[i]) == Err::<
                        WireTag,
                        RtiErrorView,
                    >(x);
                assert(dependency_live(cs, ds[i]));
            },
            Ok(prev) => {
                if !dependency_live(cs, d) {
                    if let Ok(u) = upstream_completed_prefix(g, cs, k, j) {
                        assert(u == prev);
                        assert forall|i: int| 0 <= i < j && dependency_live(cs, #[trigger] ds[i]) implies (
                        dependency_completion(cs, ds[i]) matches Ok(c) && tag_le(u, c)) by {
                            assert(i < j - 1);
                        }
                        if u != WireTag::Forever {
                            let i = choose|i: int|
                                0 <= i < j - 1 && dependency_live(cs, #[trigger] ds[i]) && dependency_completion(
                                    cs,
                                    ds[i],
                                ) == Ok::<WireTag, RtiErrorView>(u);
                            assert(dependency_live(cs, ds[i]));
                        }
                    }
                } else {
                    match dependency_completion(cs, d) {
                        Err(x) => {
                            assert(dependency_live(cs, ds[j - 1]));
                        },
                        Ok(c) => {
                            let u = tag_min(prev, c);
                            crate::protocol::lemma_tag_order_total(prev, c, c);
                            crate::protocol::lemma_tag_order_total(u, prev, c);
                            crate::protocol::lemma_tag_order_total(u, c, prev);
                            assert forall|i: int| 0 <= i < j && dependency_live(cs, #[trigger] ds[i]) implies (
                            dependency_completion(cs, ds[i]) matches Ok(x) && tag_le(u, x)) by {
                                if i < j - 1 {
                                    let x = dependency_completion(cs, ds[i])->Ok_0;
                                    crate::protocol::lemma_tag_order_total(u, prev, x);
                                }
                            }
                            if u == c {
                                assert(dependency_live(cs, ds[j - 1]));
                            } else if prev != WireTag::Forever {
                                let i = choose|i: int|
                                    0 <= i < j - 1 && dependency_live(cs, #[trigger] ds[i]) && dependency_completion(
                                        cs,
                                        ds[i],
                                    ) == Ok::<WireTag, RtiErrorView>(prev);
                                assert(dependency_live(cs, ds[i]));
                            }
                        },
                    }
                }
            },
        }
    }
}

/// Law of grant evaluation: the upstream completion of Federate `k` is the least delayed last
/// completion over its direct upstream dependencies that still run: at most each of them, and
/// one of them unless none runs (then `Forever`). It fails only on the overflow of one of them.
pub proof fn lemma_upstream_completed_is_least(g: RtiGraph, cs: Seq<CoordView>, k: int)
    ensures
        upstream_completed(g, cs, k) matches Ok(u) ==> {
            &&& forall|i: int|
                0 <= i < g.incoming_of(k).len() && dependency_live(cs, #[trigger] g.incoming_of(k)[i])
                    ==> (dependency_completion(cs, g.incoming_of(k)[i]) matches Ok(c) && tag_le(u, c))
            &&& (u == WireTag::Forever || exists|i: int|
                0 <= i < g.incoming_of(k).len() && dependency_live(cs, #[trigger] g.incoming_of(k)[i])
                    && dependency_completion(cs, g.incoming_of(k)[i]) == Ok::<WireTag, RtiErrorView>(u))
        },
        upstream_completed(g, cs, k) matches Err(x) ==> exists|i: int|
            0 <= i < g.incoming_of(k).len() && dependency_live(cs, #[trigger] g.incoming_of(k)[i])
                && dependency_completion(cs, g.incoming_of(k)[i]) == Err::<WireTag, RtiErrorView>(x),
{
    lemma_upstream_completed_prefix_least(g, cs, k, g.incoming_of(k).len() as int);
}

} // verus!
