//! Properties of the scheduler barrier that span its calls.
use vstd::prelude::*;

use crate::client::{
    spec_begin_complete, spec_begin_stop, spec_begin_wait, spec_coordinator_complete, spec_coordinator_stop,
    spec_on_frame, spec_poll_frame, spec_submit_net, BarrierView, ClientErrorView, CoordinatorView,
    FrameOutcomeView, RouteView, WaitStart,
};
use crate::protocol::{tag_le, RtiToFederateView, WireTag};
use crate::runtime::EndpointErrorView;

verus! {

/// A stopped barrier refuses every wait with `RtiStopped`, unchanged, and stopping it again
/// sends nothing.
pub proof fn lemma_stopped_barrier_refuses_every_wait(
    s: BarrierView,
    requested: WireTag,
    fault: Option<EndpointErrorView>,
)
    requires
        s.stopped,
    ensures
        spec_begin_wait(s, requested, fault) == (s, Err::<WaitStart, ClientErrorView>(ClientErrorView::RtiStopped)),
        spec_begin_stop(s) == (s, false),
{
}

/// A failed barrier refuses LTC, and every wait unless it stopped, with `BarrierFailed`, unchanged.
pub proof fn lemma_failed_barrier_refuses(s: BarrierView, requested: WireTag, fault: Option<EndpointErrorView>)
    requires
        s.failed,
    ensures
        spec_begin_complete(s, fault) == (s, Err::<(), ClientErrorView>(ClientErrorView::BarrierFailed)),
        !s.stopped ==> spec_begin_wait(s, requested, fault) == (s, Err::<WaitStart, ClientErrorView>(
            ClientErrorView::BarrierFailed,
        )),
{
}

/// The barrier releases a tag only when the last TAG it accepted reaches it.
pub proof fn lemma_grants_are_covered(
    s: BarrierView,
    routes: Seq<RouteView>,
    me: Seq<char>,
    requested: WireTag,
    fault: Option<EndpointErrorView>,
    frame: RtiToFederateView,
)
    ensures
        spec_begin_wait(s, requested, fault).1 == Ok::<WaitStart, ClientErrorView>(WaitStart::Granted) ==> (
        spec_begin_wait(s, requested, fault).0.last_granted matches Some(g) && tag_le(requested, g)),
        spec_on_frame(s, routes, me, requested, frame).1 matches Ok(FrameOutcomeView::Granted) ==> (spec_on_frame(
            s,
            routes,
            me,
            requested,
            frame,
        ).0.last_granted matches Some(g) && tag_le(requested, g)),
{
}

/// NET is sent once per request: a wait that sends NET for `requested` leaves it pending, and
/// waiting for it again sends nothing more.
pub proof fn lemma_net_sent_once(s: BarrierView, requested: WireTag)
    ensures
        spec_begin_wait(s, requested, None).1 matches Ok(WaitStart::SendNet(t)) ==> {
            let s1 = spec_begin_wait(s, requested, None).0;
            &&& t == requested
            &&& s1.pending_request == Some(requested)
            &&& spec_begin_wait(s1, requested, None) == (s1, Ok::<WaitStart, ClientErrorView>(WaitStart::Await))
        },
{
}

/// A frame that ends a wait with an error ends every later wait with an error too.
pub proof fn lemma_frame_errors_are_terminal(
    s: BarrierView,
    routes: Seq<RouteView>,
    me: Seq<char>,
    requested: WireTag,
    frame: RtiToFederateView,
    next: WireTag,
    fault: Option<EndpointErrorView>,
)
    ensures
        spec_on_frame(s, routes, me, requested, frame).1 is Err ==> spec_begin_wait(
            spec_on_frame(s, routes, me, requested, frame).0,
            next,
            fault,
        ).1 is Err,
{
}

/// A stopped coordinator refuses every request with `RtiStopped`, unchanged, and stopping it
/// again sends nothing.
pub proof fn lemma_stopped_coordinator_refuses_requests(
    s: CoordinatorView,
    requested: WireTag,
    fault: Option<EndpointErrorView>,
)
    requires
        s.stopped,
    ensures
        spec_submit_net(s, requested, fault) == (s, Err::<bool, ClientErrorView>(ClientErrorView::RtiStopped)),
        spec_coordinator_stop(s) == (s, false),
{
}

/// A failed coordinator refuses LTC, and every request unless it stopped, with
/// `CoordinationFailed`, unchanged.
pub proof fn lemma_failed_coordinator_refuses(s: CoordinatorView, requested: WireTag, fault: Option<EndpointErrorView>)
    requires
        s.failed,
    ensures
        spec_coordinator_complete(s, fault) == (s, Err::<(), ClientErrorView>(ClientErrorView::CoordinationFailed)),
        !s.stopped ==> spec_submit_net(s, requested, fault) == (s, Err::<bool, ClientErrorView>(
            ClientErrorView::CoordinationFailed,
        )),
{
}

/// The coordinator sends NET once per request: a submission that sends it leaves the request
/// pending, and submitting it again sends nothing.
pub proof fn lemma_coordinator_net_sent_once(s: CoordinatorView, requested: WireTag)
    ensures
        spec_submit_net(s, requested, None).1 == Ok::<bool, ClientErrorView>(true) ==> {
            let s1 = spec_submit_net(s, requested, None).0;
            &&& s1.pending_request == Some(requested)
            &&& spec_submit_net(s1, requested, None) == (s1, Ok::<bool, ClientErrorView>(false))
        },
{
}

/// A TAG answers the pending request exactly when it reaches it; a smaller TAG leaves the request
/// pending, so it is not sent again.
pub proof fn lemma_tag_answers_pending_request_it_reaches(
    s: CoordinatorView,
    routes: Seq<RouteView>,
    me: Seq<char>,
    pending: WireTag,
    granted: WireTag,
)
    requires
        s.pending_request == Some(pending),
        !s.stopped,
        !s.failed,
    ensures
        ({
            let s1 = spec_poll_frame(s, routes, me, RtiToFederateView::Tag { tag: granted }).0;
            &&& tag_le(pending, granted) ==> s1.pending_request is None
            &&& !tag_le(pending, granted) ==> s1.pending_request == Some(pending)
                && spec_submit_net(s1, pending, None).1 == Ok::<bool, ClientErrorView>(false)
        }),
{
}

/// A frame that the coordinator refuses ends every later request with an error too.
pub proof fn lemma_coordinator_frame_errors_are_terminal(
    s: CoordinatorView,
    routes: Seq<RouteView>,
    me: Seq<char>,
    frame: RtiToFederateView,
    next: WireTag,
    fault: Option<EndpointErrorView>,
)
    ensures
        spec_poll_frame(s, routes, me, frame).1 is Err ==> spec_submit_net(
            spec_poll_frame(s, routes, me, frame).0,
            next,
            fault,
        ).1 is Err,
{
}

} // verus!
