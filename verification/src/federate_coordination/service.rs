//! The Federate coordination service's decisions for one coordination action: what is sent to
//! the RTI, which participant is answered or woken, and which failure ends the service. The
//! request channels, reply channels and scheduler wake contexts stay with the caller.
use vstd::prelude::*;
use vstd::string::StringExecFns;

use super::state::{
    actions_view, failures_upto, fresh_participant, spec_fail, spec_release_request, ParticipantState, ActionView, CoordinationAction, FederateCoordinationState, StateView,
};
use super::{CoordinationWake, EnclaveKey, FederateCoordinationLayout};
use crate::client::{
    client_error_text, spec_coordinator_complete, spec_coordinator_stop, spec_submit_net, stop_frames,
    CoordinatorView, RouteView, RtiLogicalTimeCoordinator,
};
use crate::protocol::{FederateToRti, FederateToRtiView};
use crate::runtime::FederatedFaultState;
use crate::text::{decimal, render_unsigned};

verus! {

/// What executing one action asks of the caller.
#[derive(Debug, PartialEq, Eq)]
pub enum ServiceEffect {
    /// Send this frame to the RTI.
    Send(FederateToRti),
    /// Answer a participant's waiting request.
    Reply { participant: EnclaveKey, request_id: u64, result: Result<(), String> },
    /// Wake a participant's scheduler.
    Wake { participant: EnclaveKey, wake: CoordinationWake },
}

/// Mathematical view of a [`ServiceEffect`].
pub enum EffectView {
    Send(FederateToRtiView),
    Reply { participant: EnclaveKey, request_id: u64, result: Result<(), Seq<char>> },
    Wake { participant: EnclaveKey, wake: CoordinationWake },
}

impl View for ServiceEffect {
    type V = EffectView;

    open spec fn view(&self) -> EffectView {
        match self {
            ServiceEffect::Send(f) => EffectView::Send(f@),
            ServiceEffect::Reply { participant, request_id, result } => EffectView::Reply {
                participant: *participant,
                request_id: *request_id,
                result: match result {
                    Ok(()) => Ok(()),
                    Err(m) => Err(m@),
                },
            },
            ServiceEffect::Wake { participant, wake } => EffectView::Wake { participant: *participant, wake: *wake },
        }
    }
}

/// The views of effects.
pub open spec fn effects_view(v: Seq<ServiceEffect>) -> Seq<EffectView> {
    v.map_values(|e: ServiceEffect| e@)
}

/// Mathematical view of the service.
pub struct ServiceView {
    /// The Federate-wide coordination state.
    pub state: StateView,
    /// The RTI protocol adapter.
    pub coordinator: CoordinatorView,
    /// The Federate the service coordinates.
    pub federate_id: Seq<char>,
    /// The RTI protocol adapter's routes, by which inbound messages are checked.
    pub routes: Seq<RouteView>,
    /// The participants that have a scheduler wake context.
    pub wakes: Seq<EnclaveKey>,
    /// The requests waiting for a reply, in the order they arrived.
    pub pending: Seq<(EnclaveKey, u64)>,
}

/// The requests among the first `n` other than `key`.
pub open spec fn without_upto(pending: Seq<(EnclaveKey, u64)>, key: (EnclaveKey, u64), n: int) -> Seq<
    (EnclaveKey, u64),
>
    decreases n,
{
    if n <= 0 {
        Seq::empty()
    } else if pending[n - 1] == key {
        without_upto(pending, key, n - 1)
    } else {
        without_upto(pending, key, n - 1).push(pending[n - 1])
    }
}

/// The requests other than `key`.
pub open spec fn without(pending: Seq<(EnclaveKey, u64)>, key: (EnclaveKey, u64)) -> Seq<(EnclaveKey, u64)> {
    without_upto(pending, key, pending.len() as int)
}

/// Answers the waiting request `(participant, request_id)` with `result`, if it waits.
pub open spec fn answer(s: ServiceView, participant: EnclaveKey, request_id: u64, result: Result<(), Seq<char>>) -> (
    ServiceView,
    Seq<EffectView>,
) {
    if s.pending.contains((participant, request_id)) {
        (
            ServiceView { pending: without(s.pending, (participant, request_id)), ..s },
            seq![EffectView::Reply { participant, request_id, result }],
        )
    } else {
        (s, Seq::empty())
    }
}

/// The failure of a wake for a participant without a wake context.
pub open spec fn missing_wake_text(participant: EnclaveKey) -> Seq<char> {
    "missing wake context for "@ + decimal(participant as nat)
}

/// Executing `action` (given the Federate's recorded endpoint fault): the next service state and
/// the effects, or the failure that must end the service.
pub open spec fn spec_execute(s: ServiceView, action: ActionView, fault: Option<crate::runtime::EndpointErrorView>) -> (
    ServiceView,
    Result<Seq<EffectView>, Seq<char>>,
) {
    match action {
        ActionView::RequestNet { tag } => {
            let (c, r) = spec_submit_net(s.coordinator, tag, fault);
            let s1 = ServiceView { coordinator: c, ..s };
            match r {
                Ok(send) => (
                    s1,
                    Ok(
                        if send {
                            seq![EffectView::Send(FederateToRtiView::Net { federate_id: s.federate_id, tag })]
                        } else {
                            Seq::empty()
                        },
                    ),
                ),
                Err(e) => (s1, Err(client_error_text(e))),
            }
        },
        ActionView::WakeParticipant { participant, tag, observation_epoch } => if s.wakes.contains(participant) {
            (s, Ok(seq![EffectView::Wake { participant, wake: CoordinationWake { tag, observation_epoch } }]))
        } else {
            (s, Err(missing_wake_text(participant)))
        },
        ActionView::ReleaseAcquire { participant, request_id, .. } => {
            let s1 = ServiceView { state: spec_release_request(s.state, participant, request_id), ..s };
            let (s2, e) = answer(s1, participant, request_id, Ok(()));
            (s2, Ok(e))
        },
        ActionView::ReleaseCompletion { participant, request_id } => {
            let s1 = ServiceView { state: spec_release_request(s.state, participant, request_id), ..s };
            let (s2, e) = answer(s1, participant, request_id, Ok(()));
            (s2, Ok(e))
        },
        ActionView::FailRequest { participant, request_id, reason } => {
            let s1 = ServiceView { state: spec_release_request(s.state, participant, request_id), ..s };
            let (s2, e) = answer(s1, participant, request_id, Err(reason));
            (s2, Ok(e))
        },
        ActionView::ReportLtc { tag } => {
            let (c, r) = spec_coordinator_complete(s.coordinator, fault);
            let s1 = ServiceView { coordinator: c, ..s };
            match r {
                Ok(()) => (s1, Ok(seq![EffectView::Send(FederateToRtiView::Ltc { federate_id: s.federate_id, tag })])),
                Err(e) => (s1, Err(client_error_text(e))),
            }
        },
        ActionView::SendStop => {
            let (c, send) = spec_coordinator_stop(s.coordinator);
            (
                ServiceView { coordinator: c, ..s },
                Ok(
                    if send {
                        stop_frames(s.federate_id).map_values(|f: FederateToRtiView| EffectView::Send(f))
                    } else {
                        Seq::empty()
                    },
                ),
            )
        },
    }
}

/// One action of a terminal failure: a failed request is answered with its reason, and a stop
/// sends the Stop frames unless the RTI protocol adapter had stopped.
pub open spec fn terminal_step(s: ServiceView, action: ActionView) -> (ServiceView, Seq<EffectView>) {
    match action {
        ActionView::FailRequest { participant, request_id, reason } => answer(
            s,
            participant,
            request_id,
            Err(reason),
        ),
        ActionView::SendStop => {
            let (c, send) = spec_coordinator_stop(s.coordinator);
            (
                ServiceView { coordinator: c, ..s },
                if send {
                    stop_frames(s.federate_id).map_values(|f: FederateToRtiView| EffectView::Send(f))
                } else {
                    Seq::empty()
                },
            )
        },
        _ => (s, Seq::empty()),
    }
}

/// The actions of a terminal failure carried out in order: the service state they leave and
/// their effects.
pub open spec fn terminal_steps(s: ServiceView, actions: Seq<ActionView>) -> (ServiceView, Seq<EffectView>)
    decreases actions.len(),
{
    if actions.len() == 0 {
        (s, Seq::empty())
    } else {
        let (s1, e1) = terminal_steps(s, actions.drop_last());
        let (s2, e2) = terminal_step(s1, actions.last());
        (s2, e1 + e2)
    }
}

/// The replies that answer each of `pending` with the failure `message`, in arrival order.
pub open spec fn failure_replies(pending: Seq<(EnclaveKey, u64)>, message: Seq<char>) -> Seq<EffectView> {
    pending.map_values(
        |k: (EnclaveKey, u64)| EffectView::Reply { participant: k.0, request_id: k.1, result: Err(message) },
    )
}

/// Ending the service on the failure `reason`: the coordination state fails (its first terminal
/// failure sticks), the failure's actions are carried out, and every request still waiting is
/// answered with the first terminal failure. The final state, that failure and the effects.
pub open spec fn spec_terminate(s: ServiceView, reason: Seq<char>) -> (ServiceView, Seq<char>, Seq<EffectView>) {
    let (failed, actions) = spec_fail(s.state, reason);
    let first = failed.terminal_error->0;
    let (s1, e1) = terminal_steps(ServiceView { state: failed, ..s }, actions);
    (ServiceView { pending: Seq::empty(), ..s1 }, first, e1 + failure_replies(s1.pending, first))
}

proof fn lemma_terminal_steps_keep_state(s: ServiceView, actions: Seq<ActionView>)
    ensures
        terminal_steps(s, actions).0.state == s.state,
        terminal_steps(s, actions).0.federate_id == s.federate_id,
        terminal_steps(s, actions).0.routes == s.routes,
        terminal_steps(s, actions).0.wakes == s.wakes,
    decreases actions.len(),
{
    if actions.len() > 0 {
        lemma_terminal_steps_keep_state(s, actions.drop_last());
    }
}

proof fn lemma_without_upto(pending: Seq<(EnclaveKey, u64)>, key: (EnclaveKey, u64), n: int)
    requires
        0 <= n <= pending.len(),
    ensures
        !without_upto(pending, key, n).contains(key),
        forall|x: (EnclaveKey, u64)| x != key && pending.subrange(0, n).contains(x) ==> without_upto(
            pending,
            key,
            n,
        ).contains(x),
        forall|x: (EnclaveKey, u64)| without_upto(pending, key, n).contains(x) ==> pending.subrange(0, n).contains(
            x,
        ),
    decreases n,
{
    if n > 0 {
        lemma_without_upto(pending, key, n - 1);
        crate::seqs::lemma_prefix_contains(pending, n - 1);
        let prev = without_upto(pending, key, n - 1);
        if pending[n - 1] != key {
            assert(prev.push(pending[n - 1])[prev.len() as int] == pending[n - 1]);
            assert forall|x: (EnclaveKey, u64)| #[trigger] prev.push(pending[n - 1]).contains(x) implies x != key by {
                let j = choose|j: int| 0 <= j < prev.len() + 1 && #[trigger] prev.push(pending[n - 1])[j] == x;
                if j < prev.len() {
                    assert(prev[j] == x);
                }
            }
            assert forall|x: (EnclaveKey, u64)| x != key && prev.contains(x) implies #[trigger] prev.push(
                pending[n - 1],
            ).contains(x) by {
                let j = choose|j: int| 0 <= j < prev.len() && #[trigger] prev[j] == x;
                assert(prev.push(pending[n - 1])[j] == x);
            }
            assert forall|x: (EnclaveKey, u64)| #[trigger] prev.push(pending[n - 1]).contains(x) implies x
                == pending[n - 1] || prev.contains(x) by {
                let j = choose|j: int| 0 <= j < prev.len() + 1 && #[trigger] prev.push(pending[n - 1])[j] == x;
                if j < prev.len() {
                    assert(prev[j] == x);
                }
            }
        }
        assert forall|x: (EnclaveKey, u64)| #[trigger] without_upto(pending, key, n).contains(x) implies pending.subrange(
            0,
            n,
        ).contains(x) by {
            if prev.contains(x) {
                assert(pending.subrange(0, n - 1).contains(x));
            }
        }
    }
}

/// Law of the service: a request is answered once; after its reply it no longer waits, and
/// every other waiting request still does.
pub proof fn lemma_reply_answers_once(
    s: ServiceView,
    participant: EnclaveKey,
    request_id: u64,
    result: Result<(), Seq<char>>,
)
    ensures
        !answer(s, participant, request_id, result).0.pending.contains((participant, request_id)),
        forall|x: (EnclaveKey, u64)| x != (participant, request_id) && s.pending.contains(x) ==> answer(
            s,
            participant,
            request_id,
            result,
        ).0.pending.contains(x),
{
    lemma_without_upto(s.pending, (participant, request_id), s.pending.len() as int);
    assert(s.pending.subrange(0, s.pending.len() as int) =~= s.pending);
}

proof fn lemma_failures_name_reason(keys: Seq<EnclaveKey>, parts: Seq<ParticipantState>, reason: Seq<char>, n: int)
    ensures
        forall|i: int|
            0 <= i < failures_upto(keys, parts, reason, n).len() ==> ((#[trigger] failures_upto(
                keys,
                parts,
                reason,
                n,
            )[i]) matches ActionView::FailRequest { reason: r, .. } && r == reason),
    decreases n,
{
    if n > 0 {
        lemma_failures_name_reason(keys, parts, reason, n - 1);
    }
}

proof fn lemma_terminal_steps_answer(s: ServiceView, actions: Seq<ActionView>, first: Seq<char>)
    requires
        forall|i: int|
            0 <= i < actions.len() ==> (#[trigger] actions[i]) is SendStop || (actions[i] matches ActionView::FailRequest {
                reason,
                ..
            } && reason == first),
    ensures
        forall|x: (EnclaveKey, u64)| #[trigger] terminal_steps(s, actions).0.pending.contains(x) ==> s.pending.contains(x),
        forall|x: (EnclaveKey, u64)|
            s.pending.contains(x) && !terminal_steps(s, actions).0.pending.contains(x) ==> #[trigger] terminal_steps(
                s,
                actions,
            ).1.contains(EffectView::Reply { participant: x.0, request_id: x.1, result: Err(first) }),
        forall|i: int|
            0 <= i < terminal_steps(s, actions).1.len() ==> ((#[trigger] terminal_steps(s, actions).1[i]) matches EffectView::Reply {
                participant,
                request_id,
                result,
            } ==> result == Err::<(), Seq<char>>(first) && s.pending.contains((participant, request_id))),
    decreases actions.len(),
{
    if actions.len() > 0 {
        let init = actions.drop_last();
        assert forall|i: int|
            0 <= i < init.len() implies (#[trigger] init[i]) is SendStop || (init[i] matches ActionView::FailRequest {
            reason,
            ..
        } && reason == first) by {
            assert(init[i] == actions[i]);
        }
        lemma_terminal_steps_answer(s, init, first);
        let (s1, e1) = terminal_steps(s, init);
        let a = actions.last();
        assert(a == actions[actions.len() - 1]);
        let (s2, e2) = terminal_step(s1, a);
        let e = e1 + e2;
        if let ActionView::FailRequest { participant, request_id, reason } = a {
            let key = (participant, request_id);
            lemma_without_upto(s1.pending, key, s1.pending.len() as int);
            assert(s1.pending.subrange(0, s1.pending.len() as int) =~= s1.pending);
            if s1.pending.contains(key) {
                assert(e2[0] == EffectView::Reply { participant, request_id, result: Err::<(), Seq<char>>(first) });
                assert(e[e1.len() as int] == e2[0]);
            }
        }
        assert forall|x: (EnclaveKey, u64)| s.pending.contains(x) && !s2.pending.contains(x) implies #[trigger] e.contains(
            EffectView::Reply { participant: x.0, request_id: x.1, result: Err(first) },
        ) by {
            let r = EffectView::Reply { participant: x.0, request_id: x.1, result: Err::<(), Seq<char>>(first) };
            if !s1.pending.contains(x) {
                assert(e1.contains(r));
                let j = choose|j: int| 0 <= j < e1.len() && #[trigger] e1[j] == r;
                assert(e[j] == r);
            } else {
                assert(e[e1.len() as int] == r);
            }
        }
        assert forall|i: int| 0 <= i < e.len() implies ((#[trigger] e[i]) matches EffectView::Reply {
            participant,
            request_id,
            result,
        } ==> result == Err::<(), Seq<char>>(first) && s.pending.contains((participant, request_id))) by {
            if i < e1.len() {
                assert(e[i] == e1[i]);
            } else {
                assert(e[i] == e2[i - e1.len()]);
                if a is SendStop {
                    let (c, send) = spec_coordinator_stop(s1.coordinator);
                    if send {
                        assert(e2[i - e1.len()] == EffectView::Send(stop_frames(s1.federate_id)[i - e1.len()]));
                    }
                }
            }
        }
    }
}

/// Law of the service's end: when the service ends on a failure, no request is left waiting;
/// every request that waited is answered with the first terminal failure (the earlier terminal
/// failure if there was one, else `reason`), and every reply answers a request that waited, with
/// that failure.
pub proof fn lemma_terminate_answers_every_request(s: ServiceView, reason: Seq<char>)
    ensures
        spec_terminate(s, reason).0.pending.len() == 0,
        spec_terminate(s, reason).1 == match s.state.terminal_error {
            Some(e) => e,
            None => reason,
        },
        forall|x: (EnclaveKey, u64)|
            s.pending.contains(x) ==> #[trigger] spec_terminate(s, reason).2.contains(
                EffectView::Reply { participant: x.0, request_id: x.1, result: Err(spec_terminate(s, reason).1) },
            ),
        forall|i: int|
            0 <= i < spec_terminate(s, reason).2.len() ==> ((#[trigger] spec_terminate(s, reason).2[i]) matches EffectView::Reply {
                participant,
                request_id,
                result,
            } ==> result == Err::<(), Seq<char>>(spec_terminate(s, reason).1) && s.pending.contains(
                (participant, request_id),
            )),
{
    let (failed, actions) = spec_fail(s.state, reason);
    let first = failed.terminal_error->0;
    let start = ServiceView { state: failed, ..s };
    lemma_failures_name_reason(s.state.keys, s.state.parts, reason, s.state.parts.len() as int);
    if s.state.terminal_error is None {
        let fanout = failures_upto(s.state.keys, s.state.parts, reason, s.state.parts.len() as int);
        assert forall|i: int| 0 <= i < actions.len() implies (#[trigger] actions[i]) is SendStop || (
        actions[i] matches ActionView::FailRequest { reason: r, .. } && r == first) by {
            if i < fanout.len() {
                assert(actions[i] == fanout[i]);
            }
        }
    }
    lemma_terminal_steps_answer(start, actions, first);
    let (s1, e1) = terminal_steps(start, actions);
    let replies = failure_replies(s1.pending, first);
    let e = e1 + replies;
    assert forall|x: (EnclaveKey, u64)| s.pending.contains(x) implies #[trigger] e.contains(
        EffectView::Reply { participant: x.0, request_id: x.1, result: Err(first) },
    ) by {
        let r = EffectView::Reply { participant: x.0, request_id: x.1, result: Err::<(), Seq<char>>(first) };
        if s1.pending.contains(x) {
            let j = choose|j: int| 0 <= j < s1.pending.len() && #[trigger] s1.pending[j] == x;
            assert(replies[j] == r);
            assert(e[e1.len() + j] == r);
        } else {
            assert(start.pending.contains(x));
            assert(e1.contains(r));
            let j = choose|j: int| 0 <= j < e1.len() && #[trigger] e1[j] == r;
            assert(e[j] == r);
        }
    }
    assert forall|i: int| 0 <= i < e.len() implies ((#[trigger] e[i]) matches EffectView::Reply {
        participant,
        request_id,
        result,
    } ==> result == Err::<(), Seq<char>>(first) && s.pending.contains((participant, request_id))) by {
        if i < e1.len() {
            assert(e[i] == e1[i]);
        } else {
            let j = i - e1.len();
            assert(e[i] == replies[j]);
            assert(s1.pending.contains(s1.pending[j]));
        }
    }
}

/// The Federate coordination service: the coordination state, the RTI protocol adapter, the
/// participants' wake contexts, and the requests waiting for a reply.
#[derive(Debug)]
pub struct FederateCoordinationService {
    state: FederateCoordinationState,
    coordinator: RtiLogicalTimeCoordinator,
    wakes: Vec<EnclaveKey>,
    pending: Vec<(EnclaveKey, u64)>,
}

impl View for FederateCoordinationService {
    type V = ServiceView;

    closed spec fn view(&self) -> ServiceView {
        ServiceView {
            state: self.state@,
            coordinator: self.coordinator@,
            federate_id: self.coordinator.spec_federate_id(),
            routes: self.coordinator.spec_routes(),
            wakes: self.wakes@,
            pending: self.pending@,
        }
    }
}

impl FederateCoordinationService {
    /// The coordination state is well formed.
    pub closed spec fn wf(&self) -> bool {
        self.state.wf()
    }

    /// A service for `layout` over `coordinator`, with wake contexts for `wakes` and no request
    /// waiting.
    pub fn new(layout: FederateCoordinationLayout, coordinator: RtiLogicalTimeCoordinator, wakes: Vec<EnclaveKey>) -> (s:
        Self)
        ensures
            s.wf(),
            s@.state.keys == layout.spec_participants(),
            s@.state.parts == Seq::new(layout.spec_participants().len(), |i: int| fresh_participant()),
            s@.state.advertised_net is None,
            s@.state.grant_coverage is None,
            s@.state.round is None,
            s@.state.observation_epoch == 0,
            !s@.state.stopped,
            s@.state.terminal_error is None,
            s@.coordinator == coordinator@,
            s@.federate_id == coordinator.spec_federate_id(),
            s@.routes == coordinator.spec_routes(),
            s@.wakes == wakes@,
            s@.pending == Seq::<(EnclaveKey, u64)>::empty(),
    {
        FederateCoordinationService {
            state: FederateCoordinationState::new(layout),
            coordinator,
            wakes,
            pending: Vec::new(),
        }
    }

    /// The coordination state.
    pub fn state(&self) -> (st: &FederateCoordinationState)
        ensures
            st@ == self@.state,
    {
        &self.state
    }

    /// The coordination state, for the requests the caller applies to it.
    pub fn state_mut(&mut self) -> (st: &mut FederateCoordinationState)
        requires
            old(self).wf(),
        ensures
            st@ == old(self)@.state,
            st.wf(),
            final(self)@ == (ServiceView { state: final(st)@, ..old(self)@ }),
            final(self).wf() == final(st).wf(),
    {
        &mut self.state
    }

    /// The RTI protocol adapter, for the frames the caller polls from the RTI.
    pub fn coordinator_mut(&mut self) -> (c: &mut RtiLogicalTimeCoordinator)
        ensures
            c@ == old(self)@.coordinator,
            c.spec_federate_id() == old(self)@.federate_id,
            c.spec_routes() == old(self)@.routes,
            final(self)@ == (ServiceView {
                coordinator: final(c)@,
                federate_id: final(c).spec_federate_id(),
                routes: final(c).spec_routes(),
                ..old(self)@
            }),
            final(self).wf() == old(self).wf(),
    {
        &mut self.coordinator
    }

    /// Whether `participant` has a scheduler wake context.
    fn has_wake(&self, participant: EnclaveKey) -> (b: bool)
        ensures
            b == self@.wakes.contains(participant),
    {
        let mut k: usize = 0;
        while k < self.wakes.len()
            invariant
                k <= self.wakes@.len(),
                forall|j: int| 0 <= j < k ==> self.wakes@[j] != participant,
            decreases self.wakes@.len() - k,
        {
            if self.wakes[k] == participant {
                assert(self.wakes@[k as int] == participant);
                return true;
            }
            k = k + 1;
        }
        false
    }

    /// Records that `(participant, request_id)` waits for a reply.
    pub fn await_reply(&mut self, participant: EnclaveKey, request_id: u64)
        ensures
            final(self)@ == (ServiceView {
                pending: if old(self)@.pending.contains((participant, request_id)) {
                    old(self)@.pending
                } else {
                    old(self)@.pending.push((participant, request_id))
                },
                ..old(self)@
            }),
            final(self).wf() == old(self).wf(),
    {
        let mut k: usize = 0;
        while k < self.pending.len()
            invariant
                k <= self.pending@.len(),
                forall|j: int| 0 <= j < k ==> self.pending@[j] != (participant, request_id),
            decreases self.pending@.len() - k,
        {
            if self.pending[k].0 == participant && self.pending[k].1 == request_id {
                assert(self.pending@[k as int] == (participant, request_id));
                return;
            }
            k = k + 1;
        }
        self.pending.push((participant, request_id));
    }

    /// Answers the waiting request `(participant, request_id)` with `result`, if it waits.
    pub fn answer(&mut self, participant: EnclaveKey, request_id: u64, result: Result<(), String>) -> (effects: Vec<
        ServiceEffect,
    >)
        ensures
            answer(
                old(self)@,
                participant,
                request_id,
                match result {
                    Ok(()) => Ok(()),
                    Err(m) => Err(m@),
                },
            ) == (final(self)@, effects_view(effects@)),
            final(self).wf() == old(self).wf(),
    {
        let ghost old_pending = self.pending@;
        let ghost key = (participant, request_id);
        let mut kept: Vec<(EnclaveKey, u64)> = Vec::new();
        let mut found = false;
        let mut k: usize = 0;
        while k < self.pending.len()
            invariant
                self.pending@ == old_pending,
                key == (participant, request_id),
                k <= old_pending.len(),
                kept@ == without_upto(old_pending, key, k as int),
                found == old_pending.subrange(0, k as int).contains(key),
            decreases old_pending.len() - k,
        {
            let entry = self.pending[k];
            proof {
                assert(entry == old_pending[k as int]);
                crate::seqs::lemma_prefix_contains(old_pending, k as int);
            }
            if entry.0 == participant && entry.1 == request_id {
                found = true;
                assert(entry == key);
            } else {
                kept.push(entry);
                assert(entry != key);
            }
            k = k + 1;
        }
        proof {
            assert(old_pending.subrange(0, k as int) =~= old_pending);
        }
        if found {
            self.pending = kept;
            let mut effects: Vec<ServiceEffect> = Vec::new();
            effects.push(ServiceEffect::Reply { participant, request_id, result });
            assert(effects_view(effects@) =~= seq![effects@[0]@]);
            effects
        } else {
            let effects: Vec<ServiceEffect> = Vec::new();
            assert(effects_view(effects@) =~= Seq::<EffectView>::empty());
            effects
        }
    }

    /// Executes one coordination action (see [`spec_execute`]); `faults` is the Federate's
    /// endpoint fault record.
    pub fn execute(&mut self, action: CoordinationAction, faults: &FederatedFaultState) -> (r: Result<
        Vec<ServiceEffect>,
        String,
    >)
        requires
            old(self).wf(),
        ensures
            final(self).wf(),
            spec_execute(old(self)@, action@, faults@) == (
                final(self)@,
                match r {
                    Ok(v) => Ok(effects_view(v@)),
                    Err(m) => Err::<Seq<EffectView>, Seq<char>>(m@),
                },
            ),
    {
        match action {
            CoordinationAction::RequestNet { tag } => match self.coordinator.submit_net(tag, faults) {
                Ok(Some(frame)) => {
                    let mut effects: Vec<ServiceEffect> = Vec::new();
                    effects.push(ServiceEffect::Send(frame));
                    assert(effects_view(effects@) =~= seq![effects@[0]@]);
                    Ok(effects)
                },
                Ok(None) => {
                    let effects: Vec<ServiceEffect> = Vec::new();
                    assert(effects_view(effects@) =~= Seq::<EffectView>::empty());
                    Ok(effects)
                },
                Err(e) => Err(e.message()),
            },
            CoordinationAction::WakeParticipant { participant, tag, observation_epoch } => {
                if self.has_wake(participant) {
                    let mut effects: Vec<ServiceEffect> = Vec::new();
                    effects.push(ServiceEffect::Wake { participant, wake: CoordinationWake { tag, observation_epoch } });
                    assert(effects_view(effects@) =~= seq![effects@[0]@]);
                    return Ok(effects);
                }
                proof {
                    reveal_strlit("missing wake context for ");
                }
                let mut m = "missing wake context for ".to_owned();
                let digits = render_unsigned(participant as u128);
                assert(digits@ == decimal(participant as nat));
                m.append(digits.as_str());
                Err(m)
            },
            CoordinationAction::ReleaseAcquire { participant, request_id, .. } => {
                self.state.release_request(participant, request_id);
                Ok(self.answer(participant, request_id, Ok(())))
            },
            CoordinationAction::ReleaseCompletion { participant, request_id } => {
                self.state.release_request(participant, request_id);
                Ok(self.answer(participant, request_id, Ok(())))
            },
            CoordinationAction::FailRequest { participant, request_id, reason } => {
                self.state.release_request(participant, request_id);
                Ok(self.answer(participant, request_id, Err(reason)))
            },
            CoordinationAction::ReportLtc { tag } => match self.coordinator.report_logical_tag_complete(tag, faults) {
                Ok(frame) => {
                    let mut effects: Vec<ServiceEffect> = Vec::new();
                    effects.push(ServiceEffect::Send(frame));
                    assert(effects_view(effects@) =~= seq![effects@[0]@]);
                    Ok(effects)
                },
                Err(e) => Err(e.message()),
            },
            CoordinationAction::SendStop => Ok(self.send_stop()),
        }
    }

    /// Stops the RTI protocol adapter: the Stop frames to send, unless it had stopped already.
    fn send_stop(&mut self) -> (effects: Vec<ServiceEffect>)
        ensures
            final(self)@ == (ServiceView { coordinator: spec_coordinator_stop(old(self)@.coordinator).0, ..old(self)@ }),
            effects_view(effects@) == if spec_coordinator_stop(old(self)@.coordinator).1 {
                stop_frames(old(self)@.federate_id).map_values(|f: FederateToRtiView| EffectView::Send(f))
            } else {
                Seq::empty()
            },
            final(self).wf() == old(self).wf(),
    {
        let mut frames = self.coordinator.stop();
        let ghost all = crate::client::frames_view(frames@).map_values(|f: FederateToRtiView| EffectView::Send(f));
        let ghost total = frames@.len();
        let mut effects: Vec<ServiceEffect> = Vec::new();
        let ghost after = self@;
        let ghost after_wf = self.wf();
        while frames.len() > 0
            invariant
                self@ == after,
                self.wf() == after_wf,
                effects@.len() + frames@.len() == total,
                all.len() == total,
                effects_view(effects@) == all.subrange(0, effects@.len() as int),
                forall|j: int| 0 <= j < frames@.len() ==> all[effects@.len() + j] == EffectView::Send(
                    #[trigger] frames@[j]@,
                ),
            decreases frames@.len(),
        {
            let ghost before = frames@;
            let f = frames.remove(0);
            assert(all[effects@.len() as int] == EffectView::Send(f@));
            effects.push(ServiceEffect::Send(f));
            assert(effects_view(effects@) =~= all.subrange(0, effects@.len() as int));
            assert forall|j: int| 0 <= j < frames@.len() implies all[effects@.len() + j] == EffectView::Send(
                #[trigger] frames@[j]@,
            ) by {
                assert(frames@[j] == before[j + 1]);
            }
        }
        assert(all.subrange(0, effects@.len() as int) =~= all);
        proof {
            if !spec_coordinator_stop(old(self)@.coordinator).1 {
                assert(crate::client::frames_view(frames@).len() == 0);
                assert(all =~= Seq::<EffectView>::empty());
            }
        }
        effects
    }

    /// Ends the service on the failure `reason` (see [`spec_terminate`]): the first terminal
    /// failure and the effects that answer every waiting request and stop the RTI exchange.
    pub fn terminate(&mut self, reason: String) -> (r: (String, Vec<ServiceEffect>))
        requires
            old(self).wf(),
        ensures
            final(self).wf(),
            spec_terminate(old(self)@, reason@) == (final(self)@, r.0@, effects_view(r.1@)),
    {
        let mut actions = self.state.fail(reason);
        let ghost start = self@;
        let ghost acts = actions_view(actions@);
        let ghost mut done: int = 0;
        let mut effects: Vec<ServiceEffect> = Vec::new();
        assert(acts.subrange(0, 0) =~= Seq::<ActionView>::empty());
        assert(effects_view(effects@) =~= Seq::<EffectView>::empty());
        while actions.len() > 0
            invariant
                self.wf(),
                0 <= done <= acts.len(),
                acts.len() == done + actions@.len(),
                forall|j: int| 0 <= j < actions@.len() ==> acts[done + j] == (#[trigger] actions@[j])@,
                terminal_steps(start, acts.subrange(0, done)) == (self@, effects_view(effects@)),
            decreases actions@.len(),
        {
            let ghost before = actions@;
            let action = actions.remove(0);
            assert(acts[done] == action@);
            let ghost prior = effects_view(effects@);
            let mut step = match action {
                CoordinationAction::FailRequest { participant, request_id, reason } => self.answer(
                    participant,
                    request_id,
                    Err(reason),
                ),
                CoordinationAction::SendStop => self.send_stop(),
                _ => Vec::new(),
            };
            let ghost step_view = effects_view(step@);
            effects.append(&mut step);
            assert(effects_view(effects@) =~= prior + step_view);
            proof {
                assert(acts.subrange(0, done + 1).drop_last() =~= acts.subrange(0, done));
                assert(acts.subrange(0, done + 1).last() == action@);
                assert forall|j: int| 0 <= j < actions@.len() implies acts[done + 1 + j] == (
                #[trigger] actions@[j])@ by {
                    assert(actions@[j] == before[j + 1]);
                }
                done = done + 1;
            }
        }
        assert(acts.subrange(0, done) =~= acts);
        proof {
            lemma_terminal_steps_keep_state(start, acts);
            assert(self@.state.terminal_error is Some);
        }
        let first = match self.state.terminal_error() {
            Some(e) => e.to_owned(),
            None => String::new(),
        };
        let ghost prior = effects_view(effects@);
        let mut replies = self.fail_all(first.clone());
        let ghost reply_view = effects_view(replies@);
        effects.append(&mut replies);
        assert(effects_view(effects@) =~= prior + reply_view);
        (first, effects)
    }

    /// Answers every waiting request with the failure `message`, in arrival order.
    pub fn fail_all(&mut self, message: String) -> (effects: Vec<ServiceEffect>)
        ensures
            final(self)@ == (ServiceView { pending: Seq::empty(), ..old(self)@ }),
            effects_view(effects@) == old(self)@.pending.map_values(
                |k: (EnclaveKey, u64)| EffectView::Reply { participant: k.0, request_id: k.1, result: Err(message@) },
            ),
            final(self).wf() == old(self).wf(),
    {
        let mut effects: Vec<ServiceEffect> = Vec::new();
        let mut k: usize = 0;
        let ghost want = self.pending@.map_values(
            |x: (EnclaveKey, u64)| EffectView::Reply { participant: x.0, request_id: x.1, result: Err(message@) },
        );
        while k < self.pending.len()
            invariant
                k <= self.pending@.len(),
                want == self.pending@.map_values(
                    |x: (EnclaveKey, u64)| EffectView::Reply { participant: x.0, request_id: x.1, result: Err(message@) },
                ),
                effects@.len() == k,
                effects_view(effects@) == want.subrange(0, k as int),
            decreases self.pending@.len() - k,
        {
            let (participant, request_id) = self.pending[k];
            let m = message.clone();
            assert(m@ == message@);
            effects.push(ServiceEffect::Reply { participant, request_id, result: Err(m) });
            assert(want[k as int] == effects@[k as int]@);
            assert(effects_view(effects@) =~= want.subrange(0, k + 1));
            k = k + 1;
        }
        assert(want.subrange(0, k as int) =~= want);
        self.pending = Vec::new();
        effects
    }
}

} // verus!
