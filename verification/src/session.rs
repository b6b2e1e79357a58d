//! The decisions of a static in-memory RTI session: which frames every Federate endpoint must
//! send, in which phase, and what the RTI answers. Transport I/O stays with the driver, which
//! feeds each received input to [`SessionState::step`] and sends the frames it returns.
use vstd::prelude::*;
use vstd::string::StringExecFns;

use crate::ids::{id_views, FederateId};
use crate::protocol::{FederateToRti, FederateToRtiView, RtiToFederate, RtiToFederateView};
use crate::rti::message::rti_error_text;
use crate::rti::{RtiDelivery, RtiError, RtiErrorView};
use crate::topology::rti::{federate_index, fresh_for, spec_handle, RtiState, StaticRtiView};
use crate::topology::{edge_views, EdgeView, FederatedTopology};

verus! {

/// A failure of a Federate's transport, described by the transport.
#[derive(Debug, Clone, PartialEq, Eq)]
pub struct TransportError {
    pub message: String,
}

/// One frame on a Federate connection.
#[derive(Debug, Clone, PartialEq, Eq)]
pub enum ProtocolFrame {
    FederateToRti(FederateToRti),
    RtiToFederate(RtiToFederate),
}

/// Mathematical view of a [`ProtocolFrame`].
pub enum FrameView {
    FederateToRti(FederateToRtiView),
    RtiToFederate(RtiToFederateView),
}

impl View for ProtocolFrame {
    type V = FrameView;

    open spec fn view(&self) -> FrameView {
        match self {
            ProtocolFrame::FederateToRti(m) => FrameView::FederateToRti(m@),
            ProtocolFrame::RtiToFederate(m) => FrameView::RtiToFederate(m@),
        }
    }
}

/// One federate's RTI-side transport halves, and the first frame if it was consumed while
/// identifying the peer.
#[derive(Debug)]
pub struct RtiSessionEndpoint<S, R> {
    sink: S,
    stream: R,
    initial_frame: Option<ProtocolFrame>,
}

impl<S, R> RtiSessionEndpoint<S, R> {
    /// The frame consumed while identifying the peer, if any.
    pub closed spec fn spec_initial_frame(&self) -> Option<ProtocolFrame> {
        self.initial_frame
    }

    /// The sink frames to the Federate go to.
    pub closed spec fn spec_sink(&self) -> S {
        self.sink
    }

    /// The stream frames from the Federate arrive on.
    pub closed spec fn spec_stream(&self) -> R {
        self.stream
    }

    /// An endpoint whose frames all still arrive on `stream`.
    pub fn new(sink: S, stream: R) -> (e: Self)
        ensures
            e.spec_sink() == sink,
            e.spec_stream() == stream,
            e.spec_initial_frame() is None,
    {
        RtiSessionEndpoint { sink, stream, initial_frame: None }
    }

    /// An endpoint whose first frame was consumed while identifying the peer.
    pub fn with_initial_frame(sink: S, stream: R, frame: ProtocolFrame) -> (e: Self)
        ensures
            e.spec_sink() == sink,
            e.spec_stream() == stream,
            e.spec_initial_frame() == Some(frame),
    {
        RtiSessionEndpoint { sink, stream, initial_frame: Some(frame) }
    }

    /// The sink, the stream and the consumed first frame.
    pub fn into_parts(self) -> (r: (S, R, Option<ProtocolFrame>))
        ensures
            r.0 == self.spec_sink(),
            r.1 == self.spec_stream(),
            r.2 == self.spec_initial_frame(),
    {
        (self.sink, self.stream, self.initial_frame)
    }
}

/// Why a session ended in failure.
#[derive(Debug, Clone, PartialEq, Eq)]
pub enum SessionError {
    /// A Federate's transport failed.
    Transport { federate_id: FederateId, source: TransportError },
    /// The RTI refused a Hello.
    Rti(RtiError),
    /// A Federate broke the session protocol; it was told why.
    Protocol { federate_id: FederateId, message: String },
    /// The session could not go on.
    Shutdown(String),
}

/// Mathematical view of a [`SessionError`].
pub enum SessionErrorView {
    Transport { federate_id: Seq<char>, source: Seq<char> },
    Rti(RtiErrorView),
    Protocol { federate_id: Seq<char>, message: Seq<char> },
    Shutdown(Seq<char>),
}

impl View for SessionError {
    type V = SessionErrorView;

    open spec fn view(&self) -> SessionErrorView {
        match self {
            SessionError::Transport { federate_id, source } => SessionErrorView::Transport {
                federate_id: federate_id@,
                source: source.message@,
            },
            SessionError::Rti(e) => SessionErrorView::Rti(e@),
            SessionError::Protocol { federate_id, message } => SessionErrorView::Protocol {
                federate_id: federate_id@,
                message: message@,
            },
            SessionError::Shutdown(m) => SessionErrorView::Shutdown(m@),
        }
    }
}

/// How a session error reads.
pub open spec fn session_error_text(e: SessionErrorView) -> Seq<char> {
    match e {
        SessionErrorView::Transport { federate_id, source } => "transport error for federate `"@ + federate_id
            + "`: "@ + source,
        SessionErrorView::Rti(e) => "RTI error: "@ + rti_error_text(e),
        SessionErrorView::Protocol { federate_id, message } => "protocol error for federate `"@ + federate_id
            + "`: "@ + message,
        SessionErrorView::Shutdown(m) => "session shutdown error: "@ + m,
    }
}

impl SessionError {
    /// How this error reads.
    pub fn message(&self) -> (s: String)
        ensures
            s@ == session_error_text(self@),
    {
        match self {
            SessionError::Transport { federate_id, source } => {
                let mut s = "transport error for federate `".to_owned();
                s.append(federate_id.as_str());
                s.append("`: ");
                s.append(source.message.as_str());
                s
            },
            SessionError::Rti(e) => {
                let mut s = "RTI error: ".to_owned();
                let inner = e.message();
                s.append(inner.as_str());
                s
            },
            SessionError::Protocol { federate_id, message } => {
                let mut s = "protocol error for federate `".to_owned();
                s.append(federate_id.as_str());
                s.append("`: ");
                s.append(message.as_str());
                s
            },
            SessionError::Shutdown(m) => {
                let mut s = "session shutdown error: ".to_owned();
                s.append(m.as_str());
                s
            },
        }
    }
}

/// Whether the topology has a route from `source` to `target` through `endpoint`.
pub open spec fn route_known(edges: Seq<EdgeView>, source: Seq<char>, target: Seq<char>, endpoint: Seq<char>) -> bool {
    exists|i: int|
        0 <= i < edges.len() && (#[trigger] edges[i]).source == source && edges[i].target == target
            && edges[i].endpoint == endpoint
}

/// Why a message received on `endpoint`'s connection must be refused, if it must: it names
/// another Federate, or is a payload on a route the topology lacks.
pub open spec fn message_problem(edges: Seq<EdgeView>, endpoint: Seq<char>, message: FederateToRtiView) -> Option<
    Seq<char>,
> {
    match message {
        FederateToRtiView::Msg { source, target, endpoint: route_endpoint, .. } => if source != endpoint {
            Some("MSG source `"@ + source + "` does not match endpoint `"@ + endpoint + "`"@)
        } else if !route_known(edges, source, target, route_endpoint) {
            Some(
                "MSG route "@ + source + " -> "@ + target + " endpoint `"@ + route_endpoint
                    + "` is not in the RTI topology"@,
            )
        } else {
            None
        },
        _ => {
            let named = match message {
                FederateToRtiView::Hello { federate_id } => federate_id,
                FederateToRtiView::Net { federate_id, .. } => federate_id,
                FederateToRtiView::Ltc { federate_id, .. } => federate_id,
                FederateToRtiView::Stop { federate_id } => federate_id,
                FederateToRtiView::Msg { source, .. } => source,
            };
            if named != endpoint {
                Some(
                    "message identified federate `"@ + named + "`, but endpoint is `"@ + endpoint
                        + "`"@,
                )
            } else {
                None
            }
        },
    }
}

fn has_route(topology: &FederatedTopology, source: &FederateId, target: &FederateId, endpoint: &crate::ids::EndpointId) -> (b: bool)
    ensures
        b == route_known(topology@.edges, source@, target@, endpoint@),
{
    let edges = topology.edges();
    let mut i: usize = 0;
    while i < edges.len()
        invariant
            edge_views(edges@) == topology@.edges,
            i <= edges@.len(),
            forall|j: int|
                0 <= j < i ==> !((#[trigger] topology@.edges[j]).source == source@
                    && topology@.edges[j].target == target@ && topology@.edges[j].endpoint == endpoint@),
        decreases edges@.len() - i,
    {
        let e = &edges[i];
        assert(topology@.edges[i as int] == e@);
        if e.source.same(source) && e.target.same(target) && e.endpoint.same(endpoint) {
            assert(route_known(topology@.edges, source@, target@, endpoint@));
            return true;
        }
        i = i + 1;
    }
    false
}

/// Checks a message received on `endpoint`'s connection (see [`message_problem`]).
pub fn validate_federate_message(topology: &FederatedTopology, endpoint: &FederateId, message: &FederateToRti) -> (r:
    Result<(), String>)
    ensures
        match message_problem(topology@.edges, endpoint@, message@) {
            Some(m) => r is Err && r->Err_0@ == m,
            None => r is Ok,
        },
{
    match message {
        FederateToRti::Msg { source, target, endpoint: route_endpoint, .. } => {
            if !source.same(endpoint) {
                let mut m = "MSG source `".to_owned();
                m.append(source.as_str());
                m.append("` does not match endpoint `");
                m.append(endpoint.as_str());
                m.append("`");
                return Err(m);
            }
            if has_route(topology, source, target, route_endpoint) {
                return Ok(());
            }
            let mut m = "MSG route ".to_owned();
            m.append(source.as_str());
            m.append(" -> ");
            m.append(target.as_str());
            m.append(" endpoint `");
            m.append(route_endpoint.as_str());
            m.append("` is not in the RTI topology");
            Err(m)
        },
        FederateToRti::Hello { federate_id } | FederateToRti::Net { federate_id, .. } | FederateToRti::Ltc {
            federate_id,
            ..
        } | FederateToRti::Stop { federate_id } => {
            if !federate_id.same(endpoint) {
                let mut m = "message identified federate `".to_owned();
                m.append(federate_id.as_str());
                m.append("`, but endpoint is `");
                m.append(endpoint.as_str());
                m.append("`");
                return Err(m);
            }
            Ok(())
        },
    }
}

/// Where a session stands.
#[derive(Debug, Clone, Copy, PartialEq, Eq, Structural)]
pub enum SessionPhase {
    /// Waiting for every Federate's Hello.
    AwaitingHellos,
    /// Started: relaying NET, LTC, MSG and Stop until every Federate stopped.
    Running,
    /// Over, successfully or not.
    Finished,
}

/// An input from one Federate's connection.
#[derive(Debug, Clone, PartialEq, Eq)]
pub enum SessionInput {
    Frame { federate_id: FederateId, frame: ProtocolFrame },
    Closed { federate_id: FederateId },
    TransportError { federate_id: FederateId, error: TransportError },
}

/// Mathematical view of a [`SessionInput`].
pub enum InputView {
    Frame { federate_id: Seq<char>, frame: FrameView },
    Closed { federate_id: Seq<char> },
    TransportError { federate_id: Seq<char>, error: Seq<char> },
}

impl View for SessionInput {
    type V = InputView;

    open spec fn view(&self) -> InputView {
        match self {
            SessionInput::Frame { federate_id, frame } => InputView::Frame {
                federate_id: federate_id@,
                frame: frame@,
            },
            SessionInput::Closed { federate_id } => InputView::Closed { federate_id: federate_id@ },
            SessionInput::TransportError { federate_id, error } => InputView::TransportError {
                federate_id: federate_id@,
                error: error.message@,
            },
        }
    }
}

/// Frames to send, each to one Federate, in order.
pub type SendsView = Seq<(Seq<char>, RtiToFederateView)>;

/// Mathematical view of the session: `seen[k]` and `stopped[k]` belong to the RTI's Federate `k`.
pub struct SessionView {
    pub rti: StaticRtiView,
    pub seen: Seq<bool>,
    pub stopped: Seq<bool>,
    pub phase: SessionPhase,
    pub start_unix_epoch_ns: i128,
}

/// What one step decides: the next state, the frames to send, and the outcome once the session
/// is over.
pub type StepView = (SessionView, SendsView, Option<Result<(), SessionErrorView>>);

/// Ends the session: `id` is told `message`, and the session fails with a protocol error.
pub open spec fn protocol_error(s: SessionView, id: Seq<char>, message: Seq<char>) -> StepView {
    (
        SessionView { phase: SessionPhase::Finished, ..s },
        seq![(id, RtiToFederateView::Error { message })],
        Some(Err(SessionErrorView::Protocol { federate_id: id, message })),
    )
}

/// Ends the session with `error`, sending nothing.
pub open spec fn session_failure(s: SessionView, error: SessionErrorView) -> StepView {
    (SessionView { phase: SessionPhase::Finished, ..s }, Seq::empty(), Some(Err(error)))
}

/// The same message to every Federate, in order.
pub open spec fn to_all(ids: Seq<Seq<char>>, message: RtiToFederateView) -> SendsView {
    ids.map_values(|id: Seq<char>| (id, message))
}

/// Whether every flag is set.
pub open spec fn all_set(flags: Seq<bool>) -> bool {
    forall|i: int| 0 <= i < flags.len() ==> #[trigger] flags[i]
}

/// The views of RTI deliveries.
pub open spec fn deliveries_view(v: Seq<RtiDelivery>) -> Seq<crate::rti::DeliveryView> {
    v.map_values(|d: RtiDelivery| d@)
}

/// The frames RTI deliveries become.
pub open spec fn delivery_sends(d: Seq<crate::rti::DeliveryView>) -> SendsView {
    d.map_values(|x: crate::rti::DeliveryView| (x.federate_id, x.message))
}

/// A frame on `id`'s connection before Start: only its own first Hello is accepted; once every
/// Federate said Hello, each is sent Start.
pub open spec fn hello_step(s: SessionView, id: Seq<char>, frame: FrameView) -> StepView {
    match frame {
        FrameView::FederateToRti(FederateToRtiView::Hello { federate_id }) => if federate_id != id {
            protocol_error(
                s,
                id,
                "Hello identified federate `"@ + federate_id + "`, but endpoint is `"@ + id + "`"@,
            )
        } else if s.rti.federates.contains(id) && s.seen[crate::topology::rti::federate_index(s.rti, id)] {
            protocol_error(s, id, "duplicate Hello"@)
        } else {
            let (rti, out) = spec_handle(s.rti, FederateToRtiView::Hello { federate_id: id });
            match out {
                Err(e) => session_failure(SessionView { rti, ..s }, SessionErrorView::Rti(e)),
                Ok(_) => {
                    let seen = s.seen.update(crate::topology::rti::federate_index(s.rti, id), true);
                    if all_set(seen) {
                        (
                            SessionView { rti, seen, phase: SessionPhase::Running, ..s },
                            to_all(s.rti.federates, RtiToFederateView::Start { start_unix_epoch_ns: s.start_unix_epoch_ns }),
                            None,
                        )
                    } else {
                        (SessionView { rti, seen, ..s }, Seq::empty(), None)
                    }
                },
            }
        },
        _ => protocol_error(s, id, "expected Hello before Start"@),
    }
}

/// A frame on `id`'s connection after Start: a valid message is handled by the RTI and its
/// deliveries are sent; once every Federate stopped, each is sent Stop.
pub open spec fn running_step(s: SessionView, id: Seq<char>, frame: FrameView) -> StepView {
    if s.rti.federates.contains(id) && s.stopped[crate::topology::rti::federate_index(s.rti, id)] {
        protocol_error(s, id, "received protocol frame after Stop"@)
    } else {
        match frame {
            FrameView::RtiToFederate(_) => protocol_error(s, id, "federate sent an RTI-to-federate frame"@),
            FrameView::FederateToRti(message) => match message_problem(s.rti.edges, id, message) {
                Some(problem) => protocol_error(s, id, problem),
                None => if message is Hello {
                    protocol_error(s, id, "unexpected Hello after Start"@)
                } else {
                    let (rti, out) = spec_handle(s.rti, message);
                    match out {
                        Err(e) => protocol_error(SessionView { rti, ..s }, id, rti_error_text(e)),
                        Ok(d) => if message is Stop {
                            let stopped = s.stopped.update(crate::topology::rti::federate_index(s.rti, id), true);
                            if all_set(stopped) {
                                (
                                    SessionView { rti, stopped, phase: SessionPhase::Finished, ..s },
                                    delivery_sends(d) + to_all(s.rti.federates, RtiToFederateView::Stop),
                                    Some(Ok(())),
                                )
                            } else {
                                (SessionView { rti, stopped, ..s }, delivery_sends(d), None)
                            }
                        } else {
                            (SessionView { rti, ..s }, delivery_sends(d), None)
                        },
                    }
                },
            },
        }
    }
}

/// One input, in the current phase.
pub open spec fn spec_step(s: SessionView, input: InputView) -> StepView {
    match input {
        InputView::Frame { federate_id, frame } => if s.phase == SessionPhase::AwaitingHellos {
            hello_step(s, federate_id, frame)
        } else {
            running_step(s, federate_id, frame)
        },
        InputView::Closed { federate_id } => session_failure(
            s,
            SessionErrorView::Shutdown(
                "federate `"@ + federate_id + if s.phase == SessionPhase::AwaitingHellos {
                    "` closed before Hello"@
                } else {
                    "` closed before Stop"@
                },
            ),
        ),
        InputView::TransportError { federate_id, error } => session_failure(
            s,
            SessionErrorView::Transport { federate_id, source: error },
        ),
    }
}

/// Session state that decides every step of a static RTI session.
pub struct SessionState {
    rti: RtiState,
    seen: Vec<bool>,
    stopped: Vec<bool>,
    phase: SessionPhase,
    start_unix_epoch_ns: i128,
}

impl View for SessionState {
    type V = SessionView;

    closed spec fn view(&self) -> SessionView {
        SessionView {
            rti: self.rti@,
            seen: self.seen@,
            stopped: self.stopped@,
            phase: self.phase,
            start_unix_epoch_ns: self.start_unix_epoch_ns,
        }
    }
}

/// The frames a step sends.
#[derive(Debug)]
pub struct SessionStep {
    pub sends: Vec<(FederateId, RtiToFederate)>,
    pub outcome: Option<Result<(), SessionError>>,
}

/// The view of the frames a step sends.
pub open spec fn sends_view(v: Seq<(FederateId, RtiToFederate)>) -> SendsView {
    v.map_values(|x: (FederateId, RtiToFederate)| (x.0@, x.1@))
}

/// The view of a step's outcome.
pub open spec fn step_outcome_view(o: Option<Result<(), SessionError>>) -> Option<Result<(), SessionErrorView>> {
    match o {
        None => None,
        Some(Ok(())) => Some(Ok(())),
        Some(Err(e)) => Some(Err(e@)),
    }
}

/// Whether a step's result matches the decision it is specified by.
pub open spec fn step_matches(after: SessionView, step: SessionStep, expected: StepView) -> bool {
    &&& after == expected.0
    &&& sends_view(step.sends@) == expected.1
    &&& step_outcome_view(step.outcome) == expected.2
}

/// Starting the session: with no Federate at all it is over at once.
pub open spec fn spec_begin(s: SessionView) -> StepView {
    if s.rti.federates.len() == 0 {
        (SessionView { phase: SessionPhase::Finished, ..s }, Seq::empty(), Some(Ok(())))
    } else {
        (s, Seq::empty(), None)
    }
}

/// A name for how std's `Debug` renders a list of strings, such as `["a", "b"]`.
pub uninterp spec fn debug_list_text(items: Seq<Seq<char>>) -> Seq<char>;

/// The views of strings.
pub open spec fn strings_view(v: Seq<String>) -> Seq<Seq<char>> {
    v.map_values(|x: String| x@)
}

/// `format!("{:?}", items)`: std's `Debug` rendering of a list of strings.
#[verifier::external_body]
fn debug_list(items: &Vec<String>) -> (s: String)
    ensures
        s@ == debug_list_text(strings_view(items@)),
{
    format!("{:?}", items)
}

/// Whether the endpoints present are exactly the topology's Federates.
pub open spec fn endpoints_match(federates: Seq<Seq<char>>, observed: Seq<Seq<char>>) -> bool {
    forall|id: Seq<char>| federates.contains(id) <==> observed.contains(id)
}

/// Why the endpoint set is refused, listing the missing Federates in Federate order and the
/// unexpected endpoints in the order given.
pub open spec fn endpoint_mismatch_text(federates: Seq<Seq<char>>, observed: Seq<Seq<char>>) -> Seq<char> {
    "session endpoint set does not match topology; missing="@ + debug_list_text(
        federates.filter(|id: Seq<char>| !observed.contains(id)),
    ) + ", unexpected="@ + debug_list_text(observed.filter(|id: Seq<char>| !federates.contains(id)))
}

proof fn lemma_filter_absent_empty(a: Seq<Seq<char>>, b: Seq<Seq<char>>)
    ensures
        a.filter(|id: Seq<char>| !b.contains(id)).len() == 0 <==> forall|id: Seq<char>|
            a.contains(id) ==> b.contains(id),
    decreases a.len(),
{
    if a.len() > 0 {
        let last = a.last();
        let init = a.drop_last();
        lemma_filter_absent_empty(init, b);
        assert(a =~= init.push(last));
        init.lemma_filter_push(last, |id: Seq<char>| !b.contains(id));
        assert forall|id: Seq<char>| a.contains(id) <==> (init.contains(id) || id == last) by {
            if a.contains(id) {
                let w = choose|w: int| 0 <= w < a.len() && a[w] == id;
                if w < a.len() - 1 {
                    assert(init[w] == id);
                }
            }
            if init.contains(id) {
                let w = choose|w: int| 0 <= w < init.len() && init[w] == id;
                assert(a[w] == id);
            }
            if id == last {
                assert(a[a.len() - 1] == id);
            }
        }
    } else {
        assert(a.filter(|id: Seq<char>| !b.contains(id)) =~= Seq::<Seq<char>>::empty());
    }
}

/// The identities of `a` absent from `b`, in the order of `a`.
fn absent_from(a: &Vec<FederateId>, b: &Vec<FederateId>) -> (r: Vec<String>)
    ensures
        strings_view(r@) == id_views(a@).filter(|id: Seq<char>| !id_views(b@).contains(id)),
{
    let ghost av = id_views(a@);
    let ghost bv = id_views(b@);
    let mut r: Vec<String> = Vec::new();
    let mut i: usize = 0;
    while i < a.len()
        invariant
            av == id_views(a@),
            bv == id_views(b@),
            i <= a@.len(),
            strings_view(r@) == av.subrange(0, i as int).filter(|id: Seq<char>| !bv.contains(id)),
        decreases a@.len() - i,
    {
        let mut present = false;
        let mut j: usize = 0;
        while j < b.len()
            invariant
                bv == id_views(b@),
                i < a@.len(),
                j <= b@.len(),
                present == (exists|x: int| 0 <= x < j && bv[x] == a@[i as int]@),
            decreases b@.len() - j,
        {
            assert(bv[j as int] == b@[j as int]@);
            if b[j].same(&a[i]) {
                present = true;
            }
            j = j + 1;
        }
        assert(av[i as int] == a@[i as int]@);
        assert(present == bv.contains(av[i as int]));
        proof {
            assert(av.subrange(0, i + 1) =~= av.subrange(0, i as int).push(av[i as int]));
            av.subrange(0, i as int).lemma_filter_push(av[i as int], |id: Seq<char>| !bv.contains(id));
        }
        if !present {
            let ghost prev = strings_view(r@);
            let name = a[i].as_str().to_owned();
            r.push(name);
            assert(strings_view(r@) =~= prev.push(av[i as int]));
        }
        i = i + 1;
    }
    assert(av.subrange(0, a@.len() as int) =~= av);
    r
}

impl SessionState {
    /// The RTI is well formed and one Hello flag and one Stop flag exist per Federate.
    pub closed spec fn wf(&self) -> bool {
        &&& self.rti.wf()
        &&& self.seen@.len() == self@.rti.federates.len()
        &&& self.stopped@.len() == self@.rti.federates.len()
    }

    /// A session over the RTI for `topology` that starts logical time at `start_unix_epoch_ns`;
    /// no Federate said Hello yet.
    pub fn new(topology: FederatedTopology, start_unix_epoch_ns: i128) -> (s: Self)
        requires
            topology.wf(),
        ensures
            s.wf(),
            fresh_for(s@.rti, topology@),
            s@.seen == Seq::new(s@.rti.federates.len(), |k: int| false),
            s@.stopped == Seq::new(s@.rti.federates.len(), |k: int| false),
            s@.phase == SessionPhase::AwaitingHellos,
            s@.start_unix_epoch_ns == start_unix_epoch_ns,
    {
        let rti = RtiState::new(topology);
        let n = rti.federate_count();
        let mut seen: Vec<bool> = Vec::new();
        let mut stopped: Vec<bool> = Vec::new();
        let mut k: usize = 0;
        while k < n
            invariant
                k <= n,
                seen@ == Seq::new(k as nat, |j: int| false),
                stopped@ == Seq::new(k as nat, |j: int| false),
            decreases n - k,
        {
            seen.push(false);
            stopped.push(false);
            assert(seen@ =~= Seq::new((k + 1) as nat, |j: int| false));
            assert(stopped@ =~= Seq::new((k + 1) as nat, |j: int| false));
            k = k + 1;
        }
        SessionState { rti, seen, stopped, phase: SessionPhase::AwaitingHellos, start_unix_epoch_ns }
    }

    /// The same session starting logical time at `start_unix_epoch_ns`.
    pub fn with_start_unix_epoch_ns(self, start_unix_epoch_ns: i128) -> (s: Self)
        requires
            self.wf(),
        ensures
            s.wf(),
            s@ == (SessionView { start_unix_epoch_ns, ..self@ }),
    {
        let mut s = self;
        s.start_unix_epoch_ns = start_unix_epoch_ns;
        s
    }

    /// The RTI this session drives.
    pub fn rti(&self) -> (r: &RtiState)
        ensures
            r@ == self@.rti,
    {
        &self.rti
    }

    /// Where the session stands.
    pub fn phase(&self) -> (p: SessionPhase)
        ensures
            p == self@.phase,
    {
        self.phase
    }

    /// Checks that the endpoints present (in map order) are exactly the topology's Federates.
    pub fn validate_endpoint_set(&self, observed: &Vec<FederateId>) -> (r: Result<(), SessionError>)
        requires
            self.wf(),
        ensures
            r is Ok <==> endpoints_match(self@.rti.federates, id_views(observed@)),
            r is Err ==> r->Err_0@ == SessionErrorView::Shutdown(
                endpoint_mismatch_text(self@.rti.federates, id_views(observed@)),
            ),
    {
        let federates = self.rti.topology().federates();
        let missing = absent_from(federates, observed);
        let unexpected = absent_from(observed, federates);
        let ghost fv = self@.rti.federates;
        let ghost ov = id_views(observed@);
        proof {
            lemma_filter_absent_empty(fv, ov);
            lemma_filter_absent_empty(ov, fv);
        }
        if missing.len() == 0 && unexpected.len() == 0 {
            return Ok(());
        }
        let mut message = "session endpoint set does not match topology; missing=".to_owned();
        message.append(debug_list(&missing).as_str());
        message.append(", unexpected=");
        message.append(debug_list(&unexpected).as_str());
        Err(SessionError::Shutdown(message))
    }

    /// Starts the session (see [`spec_begin`]).
    pub fn begin(&mut self) -> (step: SessionStep)
        requires
            old(self).wf(),
        ensures
            final(self).wf(),
            step_matches(final(self)@, step, spec_begin(old(self)@)),
    {
        let sends: Vec<(FederateId, RtiToFederate)> = Vec::new();
        assert(sends_view(sends@) =~= Seq::<(Seq<char>, RtiToFederateView)>::empty());
        if self.rti.federate_count() == 0 {
            self.phase = SessionPhase::Finished;
            SessionStep { sends, outcome: Some(Ok(())) }
        } else {
            SessionStep { sends, outcome: None }
        }
    }

    fn hello_step(&mut self, id: FederateId, frame: ProtocolFrame) -> (step: SessionStep)
        requires
            old(self).wf(),
        ensures
            final(self).wf(),
            step_matches(final(self)@, step, hello_step(old(self)@, id@, frame@)),
    {
        match frame {
            ProtocolFrame::FederateToRti(FederateToRti::Hello { federate_id }) => {
                if !federate_id.same(&id) {
                    let mut m = "Hello identified federate `".to_owned();
                    m.append(federate_id.as_str());
                    m.append("`, but endpoint is `");
                    m.append(id.as_str());
                    m.append("`");
                    return self.protocol_error(&id, m);
                }
                let position = self.rti.federate_position(&id);
                match position {
                    Some(k) => {
                        if self.seen[k] {
                            return self.protocol_error(&id, "duplicate Hello".to_owned());
                        }
                    },
                    None => {},
                }
                let ghost before = self@;
                match self.rti.handle(FederateToRti::Hello { federate_id: id.duplicate() }) {
                    Err(e) => {
                        return self.failure(SessionError::Rti(e));
                    },
                    Ok(_) => {},
                }
                assert(self@.rti == before.rti);
                let k = match position {
                    Some(k) => k,
                    None => {
                        assert(false);
                        return self.failure(SessionError::Shutdown("unknown Federate".to_owned()));
                    },
                };
                self.seen.set(k, true);
                if all_flags(&self.seen) {
                    self.phase = SessionPhase::Running;
                    let sends = self.start_all();
                    SessionStep { sends, outcome: None }
                } else {
                    let sends: Vec<(FederateId, RtiToFederate)> = Vec::new();
                    assert(sends_view(sends@) =~= Seq::<(Seq<char>, RtiToFederateView)>::empty());
                    SessionStep { sends, outcome: None }
                }
            },
            _ => self.protocol_error(&id, "expected Hello before Start".to_owned()),
        }
    }

    fn running_step(&mut self, id: FederateId, frame: ProtocolFrame) -> (step: SessionStep)
        requires
            old(self).wf(),
        ensures
            final(self).wf(),
            step_matches(final(self)@, step, running_step(old(self)@, id@, frame@)),
    {
        let position = self.rti.federate_position(&id);
        match position {
            Some(k) => {
                if self.stopped[k] {
                    return self.protocol_error(&id, "received protocol frame after Stop".to_owned());
                }
            },
            None => {},
        }
        let message = match frame {
            ProtocolFrame::RtiToFederate(_) => {
                return self.protocol_error(&id, "federate sent an RTI-to-federate frame".to_owned());
            },
            ProtocolFrame::FederateToRti(m) => m,
        };
        match validate_federate_message(self.rti.topology(), &id, &message) {
            Err(problem) => {
                return self.protocol_error(&id, problem);
            },
            Ok(()) => {},
        }
        let (is_hello, is_stop) = match &message {
            FederateToRti::Hello { .. } => (true, false),
            FederateToRti::Stop { .. } => (false, true),
            _ => (false, false),
        };
        if is_hello {
            return self.protocol_error(&id, "unexpected Hello after Start".to_owned());
        }
        let ghost before = self@;
        proof {
            crate::topology::rti::lemma_handle_keeps_shape(before.rti, message@);
        }
        match self.rti.handle(message) {
            Err(e) => {
                let m = e.message();
                self.protocol_error(&id, m)
            },
            Ok(deliveries) => {
                let mut sends = deliveries_to_sends(deliveries);
                if is_stop {
                    let k = match position {
                        Some(k) => k,
                        None => {
                            assert(false);
                            return self.failure(SessionError::Shutdown("unknown Federate".to_owned()));
                        },
                    };
                    self.stopped.set(k, true);
                    if all_flags(&self.stopped) {
                        self.phase = SessionPhase::Finished;
                        let ghost first = sends_view(sends@);
                        let mut stops = self.stop_all();
                        sends.append(&mut stops);
                        assert(sends_view(sends@) =~= first + to_all(before.rti.federates, RtiToFederateView::Stop));
                        return SessionStep { sends, outcome: Some(Ok(())) };
                    }
                }
                SessionStep { sends, outcome: None }
            },
        }
    }

    /// Decides one input (see [`spec_step`]).
    pub fn step(&mut self, input: SessionInput) -> (step: SessionStep)
        requires
            old(self).wf(),
        ensures
            final(self).wf(),
            step_matches(final(self)@, step, spec_step(old(self)@, input@)),
    {
        let hellos = self.phase == SessionPhase::AwaitingHellos;
        match input {
            SessionInput::Frame { federate_id, frame } => {
                if hellos {
                    self.hello_step(federate_id, frame)
                } else {
                    self.running_step(federate_id, frame)
                }
            },
            SessionInput::Closed { federate_id } => {
                let mut m = "federate `".to_owned();
                m.append(federate_id.as_str());
                if hellos {
                    m.append("` closed before Hello");
                } else {
                    m.append("` closed before Stop");
                }
                self.failure(SessionError::Shutdown(m))
            },
            SessionInput::TransportError { federate_id, error } => {
                self.failure(SessionError::Transport { federate_id, source: error })
            },
        }
    }

    /// Ends the session with a protocol error told to `id`.
    fn protocol_error(&mut self, id: &FederateId, message: String) -> (step: SessionStep)
        requires
            old(self).wf(),
        ensures
            final(self).wf(),
            step_matches(final(self)@, step, protocol_error(old(self)@, id@, message@)),
    {
        self.phase = SessionPhase::Finished;
        let told = message.clone();
        let mut sends: Vec<(FederateId, RtiToFederate)> = Vec::new();
        sends.push((id.duplicate(), RtiToFederate::Error { message: told }));
        assert(sends_view(sends@) =~= seq![(id@, RtiToFederateView::Error { message: message@ })]);
        SessionStep {
            sends,
            outcome: Some(Err(SessionError::Protocol { federate_id: id.duplicate(), message })),
        }
    }

    /// Ends the session with `error`, sending nothing.
    fn failure(&mut self, error: SessionError) -> (step: SessionStep)
        requires
            old(self).wf(),
        ensures
            final(self).wf(),
            step_matches(final(self)@, step, session_failure(old(self)@, error@)),
    {
        self.phase = SessionPhase::Finished;
        let sends: Vec<(FederateId, RtiToFederate)> = Vec::new();
        assert(sends_view(sends@) =~= Seq::<(Seq<char>, RtiToFederateView)>::empty());
        SessionStep { sends, outcome: Some(Err(error)) }
    }

    /// Start for every Federate, in order.
    fn start_all(&self) -> (sends: Vec<(FederateId, RtiToFederate)>)
        requires
            self.wf(),
        ensures
            sends_view(sends@) == to_all(
                self@.rti.federates,
                RtiToFederateView::Start { start_unix_epoch_ns: self@.start_unix_epoch_ns },
            ),
    {
        let n = self.rti.federate_count();
        let mut sends: Vec<(FederateId, RtiToFederate)> = Vec::new();
        let mut k: usize = 0;
        while k < n
            invariant
                self.wf(),
                n == self@.rti.federates.len(),
                k <= n,
                sends_view(sends@) == to_all(
                    self@.rti.federates.subrange(0, k as int),
                    RtiToFederateView::Start { start_unix_epoch_ns: self@.start_unix_epoch_ns },
                ),
            decreases n - k,
        {
            let id = self.rti.federate_at(k).duplicate();
            let ghost prev = sends_view(sends@);
            let ghost message = RtiToFederateView::Start { start_unix_epoch_ns: self@.start_unix_epoch_ns };
            let ghost id_view = id@;
            sends.push((id, RtiToFederate::Start { start_unix_epoch_ns: self.start_unix_epoch_ns }));
            assert(sends_view(sends@) =~= prev.push((id_view, message)));
            assert(to_all(self@.rti.federates.subrange(0, k + 1), message) =~= to_all(
                self@.rti.federates.subrange(0, k as int),
                message,
            ).push((self@.rti.federates[k as int], message)));
            k = k + 1;
        }
        assert(self@.rti.federates.subrange(0, n as int) =~= self@.rti.federates);
        sends
    }

    /// Stop for every Federate, in order.
    fn stop_all(&self) -> (sends: Vec<(FederateId, RtiToFederate)>)
        requires
            self.wf(),
        ensures
            sends_view(sends@) == to_all(self@.rti.federates, RtiToFederateView::Stop),
    {
        let n = self.rti.federate_count();
        let mut sends: Vec<(FederateId, RtiToFederate)> = Vec::new();
        let mut k: usize = 0;
        while k < n
            invariant
                self.wf(),
                n == self@.rti.federates.len(),
                k <= n,
                sends_view(sends@) == to_all(self@.rti.federates.subrange(0, k as int), RtiToFederateView::Stop),
            decreases n - k,
        {
            let id = self.rti.federate_at(k).duplicate();
            let ghost prev = sends_view(sends@);
            let ghost id_view = id@;
            sends.push((id, RtiToFederate::Stop));
            assert(sends_view(sends@) =~= prev.push((id_view, RtiToFederateView::Stop)));
            assert(to_all(self@.rti.federates.subrange(0, k + 1), RtiToFederateView::Stop) =~= to_all(
                self@.rti.federates.subrange(0, k as int),
                RtiToFederateView::Stop,
            ).push((self@.rti.federates[k as int], RtiToFederateView::Stop)));
            k = k + 1;
        }
        assert(self@.rti.federates.subrange(0, n as int) =~= self@.rti.federates);
        sends
    }
}

fn all_flags(flags: &Vec<bool>) -> (b: bool)
    ensures
        b == all_set(flags@),
{
    let mut i: usize = 0;
    while i < flags.len()
        invariant
            i <= flags@.len(),
            forall|j: int| 0 <= j < i ==> #[trigger] flags@[j],
        decreases flags@.len() - i,
    {
        if !flags[i] {
            return false;
        }
        i = i + 1;
    }
    true
}

fn deliveries_to_sends(deliveries: Vec<RtiDelivery>) -> (sends: Vec<(FederateId, RtiToFederate)>)
    ensures
        sends_view(sends@) == delivery_sends(deliveries_view(deliveries@)),
{
    let ghost all = deliveries_view(deliveries@);
    let mut rest = deliveries;
    let mut sends: Vec<(FederateId, RtiToFederate)> = Vec::new();
    let ghost mut taken: int = 0;
    while rest.len() > 0
        invariant
            0 <= taken <= all.len(),
            deliveries_view(rest@) == all.skip(taken),
            sends_view(sends@) == delivery_sends(all.take(taken)),
        decreases rest@.len(),
    {
        let ghost before = rest@;
        assert(deliveries_view(before) == all.skip(taken));
        let ghost prev_sends = sends_view(sends@);
        let d = rest.remove(0);
        assert(deliveries_view(before)[0] == d@);
        assert(all.skip(taken)[0] == d@);
        let ghost dv = d@;
        sends.push((d.federate_id, d.message));
        proof {
            assert(rest@ =~= before.subrange(1, before.len() as int));
            assert forall|j: int| 0 <= j < rest@.len() implies #[trigger] deliveries_view(rest@)[j]
                == all.skip(taken + 1)[j] by {
                assert(rest@[j] == before[j + 1]);
                assert(deliveries_view(rest@)[j] == rest@[j]@);
                assert(deliveries_view(before)[j + 1] == before[j + 1]@);
                assert(deliveries_view(before)[j + 1] == all.skip(taken)[j + 1]);
                assert(all.skip(taken)[j + 1] == all[taken + j + 1]);
                assert(all.skip(taken + 1)[j] == all[taken + 1 + j]);
            }
            assert(deliveries_view(rest@) =~= all.skip(taken + 1));
            assert(sends_view(sends@) =~= prev_sends.push((dv.federate_id, dv.message)));
            assert(all.take(taken + 1) =~= all.take(taken).push(dv));
            assert(delivery_sends(all.take(taken + 1)) =~= delivery_sends(all.take(taken)).push(
                (dv.federate_id, dv.message),
            ));
            taken = taken + 1;
        }
    }
    assert(all.skip(taken).len() == 0);
    assert(all.take(taken) =~= all);
    sends
}


} // verus!
