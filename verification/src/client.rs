//! Decisions of a Federate's protocol client toward the RTI.
//!
//! A Federate asks the RTI for a tag with NET, waits for a sufficient TAG, hands inbound MSG
//! frames to its scheduler, reports LTC and finally stops. Two adapters make these decisions:
//! the per-Enclave scheduler barrier and the Federate-wide logical-time coordinator. The
//! protocol connection and the scheduler stay with the caller: each method here decides what to
//! send and what the scheduler is told, and records the outcome.
use vstd::prelude::*;
use vstd::string::StringExecFns;

use crate::ids::{EndpointId, FederateId};
use crate::protocol::{tag_le, FederateToRti, FederateToRtiView, RtiToFederate, RtiToFederateView, WireTag};
use crate::runtime::{endpoint_error_text, EndpointErrorView, FederatedEndpointError, FederatedFaultState};

verus! {

/// Failure of a Federate's protocol client or scheduler barrier.
#[derive(Debug, Clone, PartialEq, Eq)]
pub enum FederateClientError {
    /// The protocol was violated.
    Protocol(String),
    /// The RTI refused a frame.
    RtiError { message: String },
    /// The RTI stopped the Federate session.
    RtiStopped,
    /// An earlier protocol, transport or admission failure made further grants unsafe.
    BarrierFailed,
    /// An earlier protocol, transport or admission failure made further coordination unsafe.
    CoordinationFailed,
    /// The protocol client is closed.
    ClientClosed,
    /// A federated endpoint of this Federate failed.
    RuntimeEndpoint(FederatedEndpointError),
    /// Two routes name the same endpoint.
    DuplicateRoute(EndpointId),
    /// No route names the endpoint.
    UnknownRoute(EndpointId),
    /// The route has no inbound runtime binding.
    UnboundInboundRoute(EndpointId),
    /// The route already has an inbound runtime binding.
    DuplicateInboundBinding(EndpointId),
    /// The scheduler event channel closed after an inbound endpoint was scheduled.
    SchedulerEventChannelClosed { endpoint: EndpointId },
    /// The route of an inbound MSG targets another Federate.
    RouteTargetMismatch { endpoint: EndpointId, route_target: FederateId, federate_id: FederateId },
    /// An inbound MSG came from another source than its route's.
    InboundSourceMismatch { endpoint: EndpointId, observed_source: FederateId, route_source: FederateId },
}

/// Mathematical view of a [`FederateClientError`].
pub enum ClientErrorView {
    Protocol(Seq<char>),
    RtiError { message: Seq<char> },
    RtiStopped,
    BarrierFailed,
    CoordinationFailed,
    ClientClosed,
    RuntimeEndpoint(EndpointErrorView),
    DuplicateRoute(Seq<char>),
    UnknownRoute(Seq<char>),
    UnboundInboundRoute(Seq<char>),
    DuplicateInboundBinding(Seq<char>),
    SchedulerEventChannelClosed { endpoint: Seq<char> },
    RouteTargetMismatch { endpoint: Seq<char>, route_target: Seq<char>, federate_id: Seq<char> },
    InboundSourceMismatch { endpoint: Seq<char>, observed_source: Seq<char>, route_source: Seq<char> },
}

impl View for FederateClientError {
    type V = ClientErrorView;

    open spec fn view(&self) -> ClientErrorView {
        match self {
            FederateClientError::Protocol(m) => ClientErrorView::Protocol(m@),
            FederateClientError::RtiError { message } => ClientErrorView::RtiError { message: message@ },
            FederateClientError::RtiStopped => ClientErrorView::RtiStopped,
            FederateClientError::BarrierFailed => ClientErrorView::BarrierFailed,
            FederateClientError::CoordinationFailed => ClientErrorView::CoordinationFailed,
            FederateClientError::ClientClosed => ClientErrorView::ClientClosed,
            FederateClientError::RuntimeEndpoint(e) => ClientErrorView::RuntimeEndpoint(e@),
            FederateClientError::DuplicateRoute(e) => ClientErrorView::DuplicateRoute(e@),
            FederateClientError::UnknownRoute(e) => ClientErrorView::UnknownRoute(e@),
            FederateClientError::UnboundInboundRoute(e) => ClientErrorView::UnboundInboundRoute(e@),
            FederateClientError::DuplicateInboundBinding(e) => ClientErrorView::DuplicateInboundBinding(e@),
            FederateClientError::SchedulerEventChannelClosed { endpoint } =>
                ClientErrorView::SchedulerEventChannelClosed { endpoint: endpoint@ },
            FederateClientError::RouteTargetMismatch { endpoint, route_target, federate_id } =>
                ClientErrorView::RouteTargetMismatch {
                endpoint: endpoint@,
                route_target: route_target@,
                federate_id: federate_id@,
            },
            FederateClientError::InboundSourceMismatch { endpoint, observed_source, route_source } =>
                ClientErrorView::InboundSourceMismatch {
                endpoint: endpoint@,
                observed_source: observed_source@,
                route_source: route_source@,
            },
        }
    }
}

/// How a client error reads.
pub open spec fn client_error_text(e: ClientErrorView) -> Seq<char> {
    match e {
        ClientErrorView::Protocol(m) => "protocol error: "@ + m,
        ClientErrorView::RtiError { message } => "RTI error: "@ + message,
        ClientErrorView::RtiStopped => "RTI stopped the federate session"@,
        ClientErrorView::BarrierFailed =>
            "federated scheduler barrier is terminal after an earlier protocol or admission failure"@,
        ClientErrorView::CoordinationFailed =>
            "RTI logical-time coordinator is terminal after an earlier protocol or admission failure"@,
        ClientErrorView::ClientClosed => "federate protocol client is closed"@,
        ClientErrorView::RuntimeEndpoint(e) => "runtime endpoint error: "@ + endpoint_error_text(e),
        ClientErrorView::DuplicateRoute(e) => "duplicate federated client route for endpoint `"@ + e + "`"@,
        ClientErrorView::UnknownRoute(e) => "unknown federated client route for endpoint `"@ + e + "`"@,
        ClientErrorView::UnboundInboundRoute(e) => "federated client route for endpoint `"@ + e
            + "` has no inbound runtime binding"@,
        ClientErrorView::DuplicateInboundBinding(e) => "federated client route for endpoint `"@ + e
            + "` already has an inbound runtime binding"@,
        ClientErrorView::SchedulerEventChannelClosed { endpoint } =>
            "scheduler event channel closed after scheduling inbound endpoint `"@ + endpoint + "`"@,
        ClientErrorView::RouteTargetMismatch { endpoint, route_target, federate_id } => "route for endpoint `"@
            + endpoint + "` has target `"@ + route_target + "`, expected `"@ + federate_id + "`"@,
        ClientErrorView::InboundSourceMismatch { endpoint, observed_source, route_source } =>
            "inbound MSG for endpoint `"@ + endpoint + "` came from `"@ + observed_source
            + "`, but route source is `"@ + route_source + "`"@,
    }
}

/// `prefix`, `id` and `suffix` joined.
fn framed(prefix: &str, id: &str, suffix: &str) -> (s: String)
    ensures
        s@ == prefix@ + id@ + suffix@,
{
    let mut s = prefix.to_owned();
    s.append(id);
    s.append(suffix);
    s
}

impl FederateClientError {
    /// How this error reads.
    pub fn message(&self) -> (s: String)
        ensures
            s@ == client_error_text(self@),
    {
        proof {
            reveal_strlit("");
        }
        match self {
            FederateClientError::Protocol(m) => framed("protocol error: ", m.as_str(), ""),
            FederateClientError::RtiError { message } => framed("RTI error: ", message.as_str(), ""),
            FederateClientError::RtiStopped => "RTI stopped the federate session".to_owned(),
            FederateClientError::BarrierFailed =>
                "federated scheduler barrier is terminal after an earlier protocol or admission failure".to_owned(),
            FederateClientError::CoordinationFailed =>
                "RTI logical-time coordinator is terminal after an earlier protocol or admission failure".to_owned(),
            FederateClientError::ClientClosed => "federate protocol client is closed".to_owned(),
            FederateClientError::RuntimeEndpoint(e) => {
                let inner = e.message();
                framed("runtime endpoint error: ", inner.as_str(), "")
            },
            FederateClientError::DuplicateRoute(e) => framed(
                "duplicate federated client route for endpoint `",
                e.as_str(),
                "`",
            ),
            FederateClientError::UnknownRoute(e) => framed("unknown federated client route for endpoint `", e.as_str(), "`"),
            FederateClientError::UnboundInboundRoute(e) => framed(
                "federated client route for endpoint `",
                e.as_str(),
                "` has no inbound runtime binding",
            ),
            FederateClientError::DuplicateInboundBinding(e) => framed(
                "federated client route for endpoint `",
                e.as_str(),
                "` already has an inbound runtime binding",
            ),
            FederateClientError::SchedulerEventChannelClosed { endpoint } => framed(
                "scheduler event channel closed after scheduling inbound endpoint `",
                endpoint.as_str(),
                "`",
            ),
            FederateClientError::RouteTargetMismatch { endpoint, route_target, federate_id } => {
                let mut s = framed("route for endpoint `", endpoint.as_str(), "` has target `");
                s.append(route_target.as_str());
                s.append("`, expected `");
                s.append(federate_id.as_str());
                s.append("`");
                s
            },
            FederateClientError::InboundSourceMismatch { endpoint, observed_source, route_source } => {
                let mut s = framed("inbound MSG for endpoint `", endpoint.as_str(), "` came from `");
                s.append(observed_source.as_str());
                s.append("`, but route source is `");
                s.append(route_source.as_str());
                s.append("`");
                s
            },
        }
    }
}

/// Route metadata binding one federated endpoint to its source and target Federates.
#[derive(Debug, Clone, PartialEq, Eq)]
pub struct FederateClientRoute {
    pub endpoint: EndpointId,
    pub source: FederateId,
    pub target: FederateId,
}

/// Mathematical view of a route.
pub struct RouteView {
    pub endpoint: Seq<char>,
    pub source: Seq<char>,
    pub target: Seq<char>,
}

impl View for FederateClientRoute {
    type V = RouteView;

    open spec fn view(&self) -> RouteView {
        RouteView { endpoint: self.endpoint@, source: self.source@, target: self.target@ }
    }
}

impl FederateClientRoute {
    /// Route metadata for one runtime federated endpoint.
    pub fn new(endpoint: EndpointId, source: FederateId, target: FederateId) -> (r: Self)
        ensures
            r.endpoint == endpoint,
            r.source == source,
            r.target == target,
    {
        FederateClientRoute { endpoint, source, target }
    }

    /// An identical copy.
    pub fn duplicate(&self) -> (r: Self)
        ensures
            r@ == self@,
    {
        FederateClientRoute {
            endpoint: self.endpoint.duplicate(),
            source: self.source.duplicate(),
            target: self.target.duplicate(),
        }
    }
}

/// The views of routes.
pub open spec fn routes_view(v: Seq<FederateClientRoute>) -> Seq<RouteView> {
    v.map_values(|r: FederateClientRoute| r@)
}

/// Whether route `i` names an endpoint that an earlier route already names.
pub open spec fn repeats_earlier(routes: Seq<RouteView>, i: int) -> bool {
    exists|j: int| 0 <= j < i && #[trigger] routes[j].endpoint == routes[i].endpoint
}

/// The first route, among the first `n`, that repeats an earlier endpoint.
pub open spec fn first_repeat_upto(routes: Seq<RouteView>, n: int) -> Option<int>
    decreases n,
{
    if n <= 0 {
        None
    } else {
        match first_repeat_upto(routes, n - 1) {
            Some(i) => Some(i),
            None => if repeats_earlier(routes, n - 1) {
                Some(n - 1)
            } else {
                None
            },
        }
    }
}

/// No two routes name the same endpoint.
pub open spec fn endpoints_distinct(routes: Seq<RouteView>) -> bool {
    forall|i: int, j: int|
        0 <= i < routes.len() && 0 <= j < routes.len() && i != j ==> #[trigger] routes[i].endpoint
            != #[trigger] routes[j].endpoint
}

/// `first_repeat_upto` finds nothing exactly when no route among the first `n` repeats an
/// earlier endpoint, and what it finds repeats one.
pub proof fn lemma_first_repeat_upto(routes: Seq<RouteView>, n: int)
    requires
        0 <= n <= routes.len(),
    ensures
        first_repeat_upto(routes, n) is None <==> forall|i: int, j: int|
            0 <= j < i < n ==> #[trigger] routes[j].endpoint != #[trigger] routes[i].endpoint,
        first_repeat_upto(routes, n) matches Some(i) ==> 0 <= i < n && repeats_earlier(routes, i),
    decreases n,
{
    if n > 0 {
        lemma_first_repeat_upto(routes, n - 1);
        if first_repeat_upto(routes, n - 1) is None && !repeats_earlier(routes, n - 1) {
            assert forall|i: int, j: int| 0 <= j < i < n implies #[trigger] routes[j].endpoint
                != #[trigger] routes[i].endpoint by {
                if i == n - 1 && routes[j].endpoint == routes[i].endpoint {
                    assert(repeats_earlier(routes, n - 1));
                }
            }
        }
    }
}

proof fn lemma_first_repeat_stays(routes: Seq<RouteView>, a: int, b: int)
    requires
        a <= b,
        first_repeat_upto(routes, a) is Some,
    ensures
        first_repeat_upto(routes, b) == first_repeat_upto(routes, a),
    decreases b - a,
{
    if a < b {
        lemma_first_repeat_stays(routes, a, b - 1);
    }
}

/// The route naming `endpoint`, if any: the first such route.
pub open spec fn find_route(routes: Seq<RouteView>, endpoint: Seq<char>) -> Option<RouteView>
    decreases routes.len(),
{
    if routes.len() == 0 {
        None
    } else if routes[0].endpoint == endpoint {
        Some(routes[0])
    } else {
        find_route(routes.drop_first(), endpoint)
    }
}

/// What is wrong with an inbound MSG from `source` on `endpoint` at Federate `me`, if anything:
/// its route must exist, target `me` and come from `source`.
pub open spec fn inbound_problem(routes: Seq<RouteView>, me: Seq<char>, source: Seq<char>, endpoint: Seq<char>) -> Option<
    ClientErrorView,
> {
    match find_route(routes, endpoint) {
        None => Some(ClientErrorView::UnknownRoute(endpoint)),
        Some(r) => if r.target != me {
            Some(ClientErrorView::RouteTargetMismatch { endpoint, route_target: r.target, federate_id: me })
        } else if r.source != source {
            Some(
                ClientErrorView::InboundSourceMismatch { endpoint, observed_source: source, route_source: r.source },
            )
        } else {
            None
        },
    }
}

/// Mathematical view of a barrier's grant bookkeeping.
pub struct BarrierView {
    /// Most recently accepted RTI grant.
    pub last_granted: Option<WireTag>,
    /// NET sent and still awaiting a sufficient TAG.
    pub pending_request: Option<WireTag>,
    /// The barrier stopped for good.
    pub stopped: bool,
    /// An earlier failure made further grants unsafe.
    pub failed: bool,
}

/// The barrier after a failure: no request is pending and no grant will be given again.
pub open spec fn failed_view(s: BarrierView) -> BarrierView {
    BarrierView { pending_request: None, failed: true, ..s }
}

/// How a wait for a tag begins.
#[derive(Debug, Clone, Copy, PartialEq, Eq, Structural)]
pub enum WaitStart {
    /// An earlier grant already covers the tag.
    Granted,
    /// Send NET for this tag, then await frames.
    SendNet(WireTag),
    /// NET for this tag is already pending: await frames.
    Await,
}

/// How a wait for `requested` begins, given the Federate's recorded endpoint fault.
pub open spec fn spec_begin_wait(s: BarrierView, requested: WireTag, fault: Option<EndpointErrorView>) -> (
    BarrierView,
    Result<WaitStart, ClientErrorView>,
) {
    if s.stopped {
        (s, Err(ClientErrorView::RtiStopped))
    } else if s.failed {
        (s, Err(ClientErrorView::BarrierFailed))
    } else if s.last_granted matches Some(g) && tag_le(requested, g) {
        (s, Ok(WaitStart::Granted))
    } else {
        match fault {
            Some(e) => (failed_view(s), Err(ClientErrorView::RuntimeEndpoint(e))),
            None => if s.pending_request != Some(requested) {
                (BarrierView { pending_request: Some(requested), ..s }, Ok(WaitStart::SendNet(requested)))
            } else {
                (s, Ok(WaitStart::Await))
            },
        }
    }
}

/// What a frame received while waiting means.
#[derive(Debug, Clone, PartialEq, Eq)]
pub enum FrameOutcome {
    /// The requested tag is granted.
    Granted,
    /// Keep waiting.
    Continue,
    /// Schedule this inbound payload; the wait ends with the scheduler's wake event.
    Schedule { source: FederateId, endpoint: EndpointId, tag: WireTag, payload: Vec<u8> },
}

/// Mathematical view of a [`FrameOutcome`].
pub enum FrameOutcomeView {
    Granted,
    Continue,
    Schedule { source: Seq<char>, endpoint: Seq<char>, tag: WireTag, payload: Seq<u8> },
}

impl View for FrameOutcome {
    type V = FrameOutcomeView;

    open spec fn view(&self) -> FrameOutcomeView {
        match self {
            FrameOutcome::Granted => FrameOutcomeView::Granted,
            FrameOutcome::Continue => FrameOutcomeView::Continue,
            FrameOutcome::Schedule { source, endpoint, tag, payload } => FrameOutcomeView::Schedule {
                source: source@,
                endpoint: endpoint@,
                tag: *tag,
                payload: payload@,
            },
        }
    }
}

/// The bookkeeping after TAG `granted`: it becomes the last grant, and it answers a pending
/// request it reaches.
pub open spec fn after_grant(s: BarrierView, granted: WireTag) -> BarrierView {
    BarrierView {
        last_granted: Some(granted),
        pending_request: match s.pending_request {
            Some(p) => if tag_le(p, granted) {
                None
            } else {
                Some(p)
            },
            None => None,
        },
        ..s
    }
}

/// What a frame from the RTI means while Federate `me` waits for `requested`.
pub open spec fn spec_on_frame(
    s: BarrierView,
    routes: Seq<RouteView>,
    me: Seq<char>,
    requested: WireTag,
    frame: RtiToFederateView,
) -> (BarrierView, Result<FrameOutcomeView, ClientErrorView>) {
    match frame {
        RtiToFederateView::Tag { tag } => (
            after_grant(s, tag),
            Ok(
                if tag_le(requested, tag) {
                    FrameOutcomeView::Granted
                } else {
                    FrameOutcomeView::Continue
                },
            ),
        ),
        RtiToFederateView::Msg { source, endpoint, tag, payload } => match inbound_problem(
            routes,
            me,
            source,
            endpoint,
        ) {
            Some(e) => (failed_view(s), Err(e)),
            None => (s, Ok(FrameOutcomeView::Schedule { source, endpoint, tag, payload })),
        },
        RtiToFederateView::Stop => (
            BarrierView { pending_request: None, stopped: true, ..s },
            Err(ClientErrorView::RtiStopped),
        ),
        RtiToFederateView::Error { message } => (failed_view(s), Err(ClientErrorView::RtiError { message })),
        RtiToFederateView::Start { .. } => (
            failed_view(s),
            Err(ClientErrorView::Protocol("unexpected duplicate Start frame"@)),
        ),
    }
}

/// Whether LTC may be reported, given the Federate's recorded endpoint fault.
pub open spec fn spec_begin_complete(s: BarrierView, fault: Option<EndpointErrorView>) -> (
    BarrierView,
    Result<(), ClientErrorView>,
) {
    if s.failed {
        (s, Err(ClientErrorView::BarrierFailed))
    } else {
        match fault {
            Some(e) => (failed_view(s), Err(ClientErrorView::RuntimeEndpoint(e))),
            None => (s, Ok(())),
        }
    }
}

/// The bookkeeping after stopping, and whether the final frames are still to be sent.
pub open spec fn spec_begin_stop(s: BarrierView) -> (BarrierView, bool) {
    if s.stopped {
        (s, false)
    } else {
        (BarrierView { pending_request: None, stopped: true, ..s }, true)
    }
}

/// Federated scheduler barrier for one Federate: its identity, its routes, and the grant
/// bookkeeping.
#[derive(Debug)]
pub struct RtiFederatedTimeBarrier {
    federate_id: FederateId,
    routes: Vec<FederateClientRoute>,
    last_granted: Option<WireTag>,
    pending_request: Option<WireTag>,
    stopped: bool,
    failed: bool,
}

impl View for RtiFederatedTimeBarrier {
    type V = BarrierView;

    closed spec fn view(&self) -> BarrierView {
        BarrierView {
            last_granted: self.last_granted,
            pending_request: self.pending_request,
            stopped: self.stopped,
            failed: self.failed,
        }
    }
}

/// The view of a wait's beginning.
pub open spec fn wait_view(r: Result<WaitStart, FederateClientError>) -> Result<WaitStart, ClientErrorView> {
    match r {
        Ok(w) => Ok(w),
        Err(e) => Err(e@),
    }
}

/// The view of a frame's meaning.
pub open spec fn frame_result_view(r: Result<FrameOutcome, FederateClientError>) -> Result<
    FrameOutcomeView,
    ClientErrorView,
> {
    match r {
        Ok(o) => Ok(o@),
        Err(e) => Err(e@),
    }
}

/// The views of frames.
pub open spec fn frames_view(v: Seq<FederateToRti>) -> Seq<FederateToRtiView> {
    v.map_values(|f: FederateToRti| f@)
}

/// The frames a stopping Federate `me` sends: NET for the end of time, then Stop.
pub open spec fn stop_frames(me: Seq<char>) -> Seq<FederateToRtiView> {
    seq![
        FederateToRtiView::Net { federate_id: me, tag: WireTag::Forever },
        FederateToRtiView::Stop { federate_id: me },
    ]
}

/// Checks that no two routes name one endpoint; the first repeated endpoint is refused.
pub fn check_routes(routes: &Vec<FederateClientRoute>) -> (r: Result<(), FederateClientError>)
    ensures
        match first_repeat_upto(routes_view(routes@), routes@.len() as int) {
            Some(i) => r is Err && r->Err_0@ == ClientErrorView::DuplicateRoute(routes@[i].endpoint@),
            None => r is Ok && endpoints_distinct(routes_view(routes@)),
        },
{
    let ghost rv = routes_view(routes@);
    let n = routes.len();
    let mut i: usize = 0;
    while i < n
        invariant
            n == routes@.len(),
            rv == routes_view(routes@),
            i <= n,
            first_repeat_upto(rv, i as int) is None,
        decreases n - i,
    {
        let mut j: usize = 0;
        while j < i
            invariant
                n == routes@.len(),
                rv == routes_view(routes@),
                i < n,
                j <= i,
                first_repeat_upto(rv, i as int) is None,
                forall|k: int| 0 <= k < j ==> rv[k].endpoint != rv[i as int].endpoint,
            decreases i - j,
        {
            if routes[j].endpoint.same(&routes[i].endpoint) {
                proof {
                    assert(rv[j as int].endpoint == rv[i as int].endpoint);
                    assert(repeats_earlier(rv, i as int));
                    assert(first_repeat_upto(rv, i as int + 1) == Some(i as int));
                    lemma_first_repeat_stays(rv, i + 1, n as int);
                }
                return Err(FederateClientError::DuplicateRoute(routes[i].endpoint.duplicate()));
            }
            j = j + 1;
        }
        proof {
            if repeats_earlier(rv, i as int) {
                let k = choose|k: int| 0 <= k < i && #[trigger] rv[k].endpoint == rv[i as int].endpoint;
                assert(rv[k].endpoint != rv[i as int].endpoint);
            }
        }
        i = i + 1;
    }
    proof {
        lemma_first_repeat_upto(rv, n as int);
        assert forall|a: int, b: int|
            0 <= a < rv.len() && 0 <= b < rv.len() && a != b implies #[trigger] rv[a].endpoint
            != #[trigger] rv[b].endpoint by {
            if a < b {
                assert(rv[a].endpoint != rv[b].endpoint);
            } else {
                assert(rv[b].endpoint != rv[a].endpoint);
            }
        }
    }
    Ok(())
}

/// Index of the route naming `endpoint`.
pub fn route_index(routes: &Vec<FederateClientRoute>, endpoint: &EndpointId) -> (r: Option<usize>)
    ensures
        match r {
            Some(i) => i < routes@.len() && find_route(routes_view(routes@), endpoint@) == Some(
                routes_view(routes@)[i as int],
            ),
            None => find_route(routes_view(routes@), endpoint@) is None,
        },
{
    let ghost rv = routes_view(routes@);
    let n = routes.len();
    let mut i: usize = 0;
    assert(rv.subrange(0, n as int) =~= rv);
    while i < n
        invariant
            n == routes@.len(),
            rv == routes_view(routes@),
            rv.len() == n,
            i <= n,
            find_route(rv, endpoint@) == find_route(rv.subrange(i as int, n as int), endpoint@),
        decreases n - i,
    {
        assert(rv.subrange(i as int, n as int)[0] == rv[i as int]);
        if routes[i].endpoint.same(endpoint) {
            return Some(i);
        }
        assert(rv.subrange(i as int, n as int).drop_first() =~= rv.subrange(i + 1, n as int));
        i = i + 1;
    }
    assert(rv.subrange(n as int, n as int).len() == 0);
    None
}

/// Checks an inbound MSG from `source` on `endpoint` at Federate `me` against the routes (see
/// [`inbound_problem`]).
pub fn check_inbound(
    routes: &Vec<FederateClientRoute>,
    me: &FederateId,
    source: &FederateId,
    endpoint: &EndpointId,
) -> (r: Result<(), FederateClientError>)
    ensures
        match inbound_problem(routes_view(routes@), me@, source@, endpoint@) {
            Some(e) => r is Err && r->Err_0@ == e,
            None => r is Ok,
        },
{
    match route_index(routes, endpoint) {
        None => Err(FederateClientError::UnknownRoute(endpoint.duplicate())),
        Some(i) => {
            let route = &routes[i];
            if !route.target.same(me) {
                Err(
                    FederateClientError::RouteTargetMismatch {
                        endpoint: endpoint.duplicate(),
                        route_target: route.target.duplicate(),
                        federate_id: me.duplicate(),
                    },
                )
            } else if !route.source.same(source) {
                Err(
                    FederateClientError::InboundSourceMismatch {
                        endpoint: endpoint.duplicate(),
                        observed_source: source.duplicate(),
                        route_source: route.source.duplicate(),
                    },
                )
            } else {
                Ok(())
            }
        },
    }
}
impl RtiFederatedTimeBarrier {
    /// The Federate this barrier belongs to.
    pub closed spec fn spec_federate_id(&self) -> Seq<char> {
        self.federate_id@
    }

    /// The barrier's routes, in the order they were given.
    pub closed spec fn spec_routes(&self) -> Seq<RouteView> {
        routes_view(self.routes@)
    }


    /// A barrier over `routes` that has granted nothing; two routes naming one endpoint are
    /// refused with the first repeated endpoint.
    pub fn new(federate_id: FederateId, routes: Vec<FederateClientRoute>) -> (r: Result<Self, FederateClientError>)
        ensures
            match first_repeat_upto(routes_view(routes@), routes@.len() as int) {
                Some(i) => r is Err && r->Err_0@ == ClientErrorView::DuplicateRoute(routes@[i].endpoint@),
                None => r matches Ok(b) && b@ == (BarrierView {
                    last_granted: None,
                    pending_request: None,
                    stopped: false,
                    failed: false,
                }) && b.spec_federate_id() == federate_id@ && b.spec_routes() == routes_view(routes@)
                    && endpoints_distinct(b.spec_routes()),
            },
    {
        match check_routes(&routes) {
            Err(e) => Err(e),
            Ok(()) => Ok(
                RtiFederatedTimeBarrier {
                    federate_id,
                    routes,
                    last_granted: None,
                    pending_request: None,
                    stopped: false,
                    failed: false,
                },
            ),
        }
    }

    /// The Federate this barrier belongs to.
    pub fn federate_id(&self) -> (id: &FederateId)
        ensures
            id@ == self.spec_federate_id(),
    {
        &self.federate_id
    }

    /// The most recently accepted grant.
    pub fn last_granted(&self) -> (t: Option<WireTag>)
        ensures
            t == self@.last_granted,
    {
        self.last_granted
    }

    /// The NET still awaiting a sufficient TAG.
    pub fn pending_request(&self) -> (t: Option<WireTag>)
        ensures
            t == self@.pending_request,
    {
        self.pending_request
    }

    /// Whether the barrier stopped for good.
    pub fn is_stopped(&self) -> (b: bool)
        ensures
            b == self@.stopped,
    {
        self.stopped
    }

    /// Whether an earlier failure made further grants unsafe.
    pub fn is_failed(&self) -> (b: bool)
        ensures
            b == self@.failed,
    {
        self.failed
    }

    /// Records a failure: nothing is pending and nothing will be granted again.
    pub fn fail(&mut self)
        ensures
            final(self)@ == failed_view(old(self)@),
            final(self).spec_federate_id() == old(self).spec_federate_id(),
            final(self).spec_routes() == old(self).spec_routes(),
    {
        self.pending_request = None;
        self.failed = true;
    }

    /// Begins a wait for `tag` (see [`spec_begin_wait`]); `faults` is the Federate's endpoint
    /// fault record.
    pub fn begin_wait(&mut self, tag: WireTag, faults: &FederatedFaultState) -> (r: Result<WaitStart, FederateClientError>)
        ensures
            spec_begin_wait(old(self)@, tag, faults@) == (final(self)@, wait_view(r)),
            final(self).spec_federate_id() == old(self).spec_federate_id(),
            final(self).spec_routes() == old(self).spec_routes(),
    {
        if self.stopped {
            return Err(FederateClientError::RtiStopped);
        }
        if self.failed {
            return Err(FederateClientError::BarrierFailed);
        }
        if let Some(g) = self.last_granted {
            if tag.le(&g) {
                return Ok(WaitStart::Granted);
            }
        }
        match faults.get() {
            Some(e) => {
                self.fail();
                Err(FederateClientError::RuntimeEndpoint(e))
            },
            None => {
                let pending_same = match self.pending_request {
                    Some(p) => p.same(&tag),
                    None => false,
                };
                if pending_same {
                    Ok(WaitStart::Await)
                } else {
                    self.pending_request = Some(tag);
                    Ok(WaitStart::SendNet(tag))
                }
            },
        }
    }



    /// What `frame` means while this barrier waits for `requested` (see [`spec_on_frame`]).
    pub fn on_frame(&mut self, requested: WireTag, frame: RtiToFederate) -> (r: Result<FrameOutcome, FederateClientError>)
        ensures
            spec_on_frame(old(self)@, old(self).spec_routes(), old(self).spec_federate_id(), requested, frame@)
                == (final(self)@, frame_result_view(r)),
            final(self).spec_federate_id() == old(self).spec_federate_id(),
            final(self).spec_routes() == old(self).spec_routes(),
    {
        match frame {
            RtiToFederate::Tag { tag } => {
                self.last_granted = Some(tag);
                if let Some(p) = self.pending_request {
                    if p.le(&tag) {
                        self.pending_request = None;
                    }
                }
                if requested.le(&tag) {
                    Ok(FrameOutcome::Granted)
                } else {
                    Ok(FrameOutcome::Continue)
                }
            },
            RtiToFederate::Msg { source, endpoint, tag, payload } => {
                match check_inbound(&self.routes, &self.federate_id, &source, &endpoint) {
                    Err(e) => {
                        self.fail();
                        Err(e)
                    },
                    Ok(()) => Ok(FrameOutcome::Schedule { source, endpoint, tag, payload }),
                }
            },
            RtiToFederate::Stop => {
                self.pending_request = None;
                self.stopped = true;
                Err(FederateClientError::RtiStopped)
            },
            RtiToFederate::Error { message } => {
                self.fail();
                Err(FederateClientError::RtiError { message })
            },
            RtiToFederate::Start { .. } => {
                self.fail();
                proof {
                    reveal_strlit("unexpected duplicate Start frame");
                }
                Err(FederateClientError::Protocol("unexpected duplicate Start frame".to_owned()))
            },
        }
    }

    /// Whether LTC for `tag` may be reported (see [`spec_begin_complete`]); if so, the LTC frame
    /// to send.
    pub fn begin_complete(&mut self, tag: WireTag, faults: &FederatedFaultState) -> (r: Result<
        FederateToRti,
        FederateClientError,
    >)
        ensures
            spec_begin_complete(old(self)@, faults@).0 == final(self)@,
            match spec_begin_complete(old(self)@, faults@).1 {
                Ok(()) => r matches Ok(f) && f@ == (FederateToRtiView::Ltc {
                    federate_id: old(self).spec_federate_id(),
                    tag,
                }),
                Err(e) => r is Err && r->Err_0@ == e,
            },
            final(self).spec_federate_id() == old(self).spec_federate_id(),
            final(self).spec_routes() == old(self).spec_routes(),
    {
        if self.failed {
            return Err(FederateClientError::BarrierFailed);
        }
        match faults.get() {
            Some(e) => {
                self.fail();
                Err(FederateClientError::RuntimeEndpoint(e))
            },
            None => Ok(FederateToRti::Ltc { federate_id: self.federate_id.duplicate(), tag }),
        }
    }

    /// Stops the barrier; the frames still to send: NET for the end of time, then Stop, or
    /// nothing if it already stopped.
    pub fn begin_stop(&mut self) -> (frames: Vec<FederateToRti>)
        ensures
            spec_begin_stop(old(self)@).0 == final(self)@,
            frames_view(frames@) == (if spec_begin_stop(old(self)@).1 {
                stop_frames(old(self).spec_federate_id())
            } else {
                Seq::empty()
            }),
            final(self).spec_federate_id() == old(self).spec_federate_id(),
            final(self).spec_routes() == old(self).spec_routes(),
    {
        if self.stopped {
            let frames: Vec<FederateToRti> = Vec::new();
            assert(frames_view(frames@) =~= Seq::<FederateToRtiView>::empty());
            return frames;
        }
        self.pending_request = None;
        self.stopped = true;
        let mut frames: Vec<FederateToRti> = Vec::new();
        frames.push(FederateToRti::Net { federate_id: self.federate_id.duplicate(), tag: WireTag::Forever });
        frames.push(FederateToRti::Stop { federate_id: self.federate_id.duplicate() });
        assert(frames_view(frames@) =~= stop_frames(old(self).spec_federate_id()));
        frames
    }
}

/// Mathematical view of the logical-time coordinator's request bookkeeping.
pub struct CoordinatorView {
    /// NET sent and still awaiting a sufficient TAG.
    pub pending_request: Option<WireTag>,
    /// The coordinator stopped for good.
    pub stopped: bool,
    /// An earlier failure made further coordination unsafe.
    pub failed: bool,
}

/// The coordinator after a failure: no request is pending and none will be submitted again.
pub open spec fn coordinator_failed(s: CoordinatorView) -> CoordinatorView {
    CoordinatorView { pending_request: None, failed: true, ..s }
}

/// Whether NET for `requested` is to be sent, given the Federate's recorded endpoint fault: it is
/// sent once per pending request.
pub open spec fn spec_submit_net(s: CoordinatorView, requested: WireTag, fault: Option<EndpointErrorView>) -> (
    CoordinatorView,
    Result<bool, ClientErrorView>,
) {
    if s.stopped {
        (s, Err(ClientErrorView::RtiStopped))
    } else if s.failed {
        (s, Err(ClientErrorView::CoordinationFailed))
    } else {
        match fault {
            Some(e) => (coordinator_failed(s), Err(ClientErrorView::RuntimeEndpoint(e))),
            None => if s.pending_request != Some(requested) {
                (CoordinatorView { pending_request: Some(requested), ..s }, Ok(true))
            } else {
                (s, Ok(false))
            },
        }
    }
}

/// What a frame from the RTI means to the coordinator.
#[derive(Debug, Clone, PartialEq, Eq)]
pub enum PollOutcome {
    /// The RTI granted this tag.
    Granted(WireTag),
    /// Schedule this inbound payload.
    Schedule { source: FederateId, endpoint: EndpointId, tag: WireTag, payload: Vec<u8> },
}

/// Mathematical view of a [`PollOutcome`].
pub enum PollOutcomeView {
    Granted(WireTag),
    Schedule { source: Seq<char>, endpoint: Seq<char>, tag: WireTag, payload: Seq<u8> },
}

impl View for PollOutcome {
    type V = PollOutcomeView;

    open spec fn view(&self) -> PollOutcomeView {
        match self {
            PollOutcome::Granted(t) => PollOutcomeView::Granted(*t),
            PollOutcome::Schedule { source, endpoint, tag, payload } => PollOutcomeView::Schedule {
                source: source@,
                endpoint: endpoint@,
                tag: *tag,
                payload: payload@,
            },
        }
    }
}

/// The view of a poll's meaning.
pub open spec fn poll_result_view(r: Result<PollOutcome, FederateClientError>) -> Result<PollOutcomeView, ClientErrorView> {
    match r {
        Ok(o) => Ok(o@),
        Err(e) => Err(e@),
    }
}

/// What a frame from the RTI means to the coordinator of Federate `me`.
pub open spec fn spec_poll_frame(s: CoordinatorView, routes: Seq<RouteView>, me: Seq<char>, frame: RtiToFederateView) -> (
    CoordinatorView,
    Result<PollOutcomeView, ClientErrorView>,
) {
    match frame {
        RtiToFederateView::Tag { tag } => (
            CoordinatorView {
                pending_request: match s.pending_request {
                    Some(p) => if tag_le(p, tag) {
                        None
                    } else {
                        Some(p)
                    },
                    None => None,
                },
                ..s
            },
            Ok(PollOutcomeView::Granted(tag)),
        ),
        RtiToFederateView::Msg { source, endpoint, tag, payload } => match inbound_problem(
            routes,
            me,
            source,
            endpoint,
        ) {
            Some(e) => (coordinator_failed(s), Err(e)),
            None => (s, Ok(PollOutcomeView::Schedule { source, endpoint, tag, payload })),
        },
        RtiToFederateView::Stop => (
            CoordinatorView { pending_request: None, stopped: true, ..s },
            Err(ClientErrorView::RtiStopped),
        ),
        RtiToFederateView::Error { message } => (coordinator_failed(s), Err(ClientErrorView::RtiError { message })),
        RtiToFederateView::Start { .. } => (
            coordinator_failed(s),
            Err(ClientErrorView::Protocol("unexpected duplicate Start frame"@)),
        ),
    }
}

/// Whether LTC may be reported by the coordinator, given the Federate's recorded endpoint fault.
pub open spec fn spec_coordinator_complete(s: CoordinatorView, fault: Option<EndpointErrorView>) -> (
    CoordinatorView,
    Result<(), ClientErrorView>,
) {
    if s.failed {
        (s, Err(ClientErrorView::CoordinationFailed))
    } else {
        match fault {
            Some(e) => (coordinator_failed(s), Err(ClientErrorView::RuntimeEndpoint(e))),
            None => (s, Ok(())),
        }
    }
}

/// The coordinator after stopping, and whether the final frames are still to be sent.
pub open spec fn spec_coordinator_stop(s: CoordinatorView) -> (CoordinatorView, bool) {
    if s.stopped {
        (s, false)
    } else {
        (CoordinatorView { pending_request: None, stopped: true, ..s }, true)
    }
}

/// Federate-wide RTI protocol adapter: its identity, its routes, and the request bookkeeping.
#[derive(Debug)]
pub struct RtiLogicalTimeCoordinator {
    federate_id: FederateId,
    routes: Vec<FederateClientRoute>,
    pending_request: Option<WireTag>,
    stopped: bool,
    failed: bool,
}

impl View for RtiLogicalTimeCoordinator {
    type V = CoordinatorView;

    closed spec fn view(&self) -> CoordinatorView {
        CoordinatorView { pending_request: self.pending_request, stopped: self.stopped, failed: self.failed }
    }
}

impl RtiLogicalTimeCoordinator {
    /// The Federate this coordinator belongs to.
    pub closed spec fn spec_federate_id(&self) -> Seq<char> {
        self.federate_id@
    }

    /// The coordinator's routes, in the order they were given.
    pub closed spec fn spec_routes(&self) -> Seq<RouteView> {
        routes_view(self.routes@)
    }

    /// A coordinator over `routes` with nothing pending; two routes naming one endpoint are
    /// refused with the first repeated endpoint.
    pub fn new(federate_id: FederateId, routes: Vec<FederateClientRoute>) -> (r: Result<Self, FederateClientError>)
        ensures
            match first_repeat_upto(routes_view(routes@), routes@.len() as int) {
                Some(i) => r is Err && r->Err_0@ == ClientErrorView::DuplicateRoute(routes@[i].endpoint@),
                None => r matches Ok(c) && c@ == (CoordinatorView {
                    pending_request: None,
                    stopped: false,
                    failed: false,
                }) && c.spec_federate_id() == federate_id@ && c.spec_routes() == routes_view(routes@)
                    && endpoints_distinct(c.spec_routes()),
            },
    {
        match check_routes(&routes) {
            Err(e) => Err(e),
            Ok(()) => Ok(
                RtiLogicalTimeCoordinator { federate_id, routes, pending_request: None, stopped: false, failed: false },
            ),
        }
    }

    /// The NET still awaiting a sufficient TAG.
    pub fn pending_request(&self) -> (t: Option<WireTag>)
        ensures
            t == self@.pending_request,
    {
        self.pending_request
    }

    /// Whether the coordinator stopped for good.
    pub fn is_stopped(&self) -> (b: bool)
        ensures
            b == self@.stopped,
    {
        self.stopped
    }

    /// Whether an earlier failure made further coordination unsafe.
    pub fn is_failed(&self) -> (b: bool)
        ensures
            b == self@.failed,
    {
        self.failed
    }

    /// Records a failure: nothing is pending and nothing will be submitted again.
    pub fn fail(&mut self)
        ensures
            final(self)@ == coordinator_failed(old(self)@),
            final(self).spec_federate_id() == old(self).spec_federate_id(),
            final(self).spec_routes() == old(self).spec_routes(),
    {
        self.pending_request = None;
        self.failed = true;
    }

    /// Submits a request for `tag` (see [`spec_submit_net`]); the NET frame to send, if any.
    pub fn submit_net(&mut self, tag: WireTag, faults: &FederatedFaultState) -> (r: Result<
        Option<FederateToRti>,
        FederateClientError,
    >)
        ensures
            spec_submit_net(old(self)@, tag, faults@).0 == final(self)@,
            match spec_submit_net(old(self)@, tag, faults@).1 {
                Ok(send) => r matches Ok(f) && (send <==> f is Some) && (f matches Some(net) ==> net@
                    == (FederateToRtiView::Net { federate_id: old(self).spec_federate_id(), tag })),
                Err(e) => r is Err && r->Err_0@ == e,
            },
            final(self).spec_federate_id() == old(self).spec_federate_id(),
            final(self).spec_routes() == old(self).spec_routes(),
    {
        if self.stopped {
            return Err(FederateClientError::RtiStopped);
        }
        if self.failed {
            return Err(FederateClientError::CoordinationFailed);
        }
        match faults.get() {
            Some(e) => {
                self.fail();
                Err(FederateClientError::RuntimeEndpoint(e))
            },
            None => {
                let pending_same = match self.pending_request {
                    Some(p) => p.same(&tag),
                    None => false,
                };
                if pending_same {
                    Ok(None)
                } else {
                    self.pending_request = Some(tag);
                    Ok(Some(FederateToRti::Net { federate_id: self.federate_id.duplicate(), tag }))
                }
            },
        }
    }

    /// What `frame` from the RTI means (see [`spec_poll_frame`]).
    pub fn poll_frame(&mut self, frame: RtiToFederate) -> (r: Result<PollOutcome, FederateClientError>)
        ensures
            spec_poll_frame(old(self)@, old(self).spec_routes(), old(self).spec_federate_id(), frame@) == (
                final(self)@,
                poll_result_view(r),
            ),
            final(self).spec_federate_id() == old(self).spec_federate_id(),
            final(self).spec_routes() == old(self).spec_routes(),
    {
        match frame {
            RtiToFederate::Tag { tag } => {
                if let Some(p) = self.pending_request {
                    if p.le(&tag) {
                        self.pending_request = None;
                    }
                }
                Ok(PollOutcome::Granted(tag))
            },
            RtiToFederate::Msg { source, endpoint, tag, payload } => {
                match check_inbound(&self.routes, &self.federate_id, &source, &endpoint) {
                    Err(e) => {
                        self.fail();
                        Err(e)
                    },
                    Ok(()) => Ok(PollOutcome::Schedule { source, endpoint, tag, payload }),
                }
            },
            RtiToFederate::Stop => {
                self.pending_request = None;
                self.stopped = true;
                Err(FederateClientError::RtiStopped)
            },
            RtiToFederate::Error { message } => {
                self.fail();
                Err(FederateClientError::RtiError { message })
            },
            RtiToFederate::Start { .. } => {
                self.fail();
                proof {
                    reveal_strlit("unexpected duplicate Start frame");
                }
                Err(FederateClientError::Protocol("unexpected duplicate Start frame".to_owned()))
            },
        }
    }

    /// Whether LTC for `tag` may be reported (see [`spec_coordinator_complete`]); if so, the LTC
    /// frame to send.
    pub fn report_logical_tag_complete(&mut self, tag: WireTag, faults: &FederatedFaultState) -> (r: Result<
        FederateToRti,
        FederateClientError,
    >)
        ensures
            spec_coordinator_complete(old(self)@, faults@).0 == final(self)@,
            match spec_coordinator_complete(old(self)@, faults@).1 {
                Ok(()) => r matches Ok(f) && f@ == (FederateToRtiView::Ltc {
                    federate_id: old(self).spec_federate_id(),
                    tag,
                }),
                Err(e) => r is Err && r->Err_0@ == e,
            },
            final(self).spec_federate_id() == old(self).spec_federate_id(),
            final(self).spec_routes() == old(self).spec_routes(),
    {
        if self.failed {
            return Err(FederateClientError::CoordinationFailed);
        }
        match faults.get() {
            Some(e) => {
                self.fail();
                Err(FederateClientError::RuntimeEndpoint(e))
            },
            None => Ok(FederateToRti::Ltc { federate_id: self.federate_id.duplicate(), tag }),
        }
    }

    /// Stops the coordinator; the frames still to send: NET for the end of time, then Stop, or
    /// nothing if it already stopped.
    pub fn stop(&mut self) -> (frames: Vec<FederateToRti>)
        ensures
            spec_coordinator_stop(old(self)@).0 == final(self)@,
            frames_view(frames@) == (if spec_coordinator_stop(old(self)@).1 {
                stop_frames(old(self).spec_federate_id())
            } else {
                Seq::empty()
            }),
            final(self).spec_federate_id() == old(self).spec_federate_id(),
            final(self).spec_routes() == old(self).spec_routes(),
    {
        if self.stopped {
            let frames: Vec<FederateToRti> = Vec::new();
            assert(frames_view(frames@) =~= Seq::<FederateToRtiView>::empty());
            return frames;
        }
        self.pending_request = None;
        self.stopped = true;
        let mut frames: Vec<FederateToRti> = Vec::new();
        frames.push(FederateToRti::Net { federate_id: self.federate_id.duplicate(), tag: WireTag::Forever });
        frames.push(FederateToRti::Stop { federate_id: self.federate_id.duplicate() });
        assert(frames_view(frames@) =~= stop_frames(old(self).spec_federate_id()));
        frames
    }
}

} // verus!
