//! Properties of every session step: Start only after every Hello, Stop only after every Stop,
//! and the end of a session is final.
use vstd::prelude::*;

use crate::protocol::{FederateToRtiView, RtiToFederateView};
use crate::rti::DeliveryView;
use crate::session::{
    all_set, delivery_sends, hello_step, protocol_error, running_step, spec_step, to_all, InputView, SendsView,
    SessionErrorView, SessionPhase, SessionView, FrameView,
};
use crate::topology::rti::{
    federate_index, grant_delivery, grants_upto, spec_handle, try_grant, with_state, completed,
    FederateState, StaticRtiView,
};
use crate::protocol::WireTag;

verus! {

/// Whether some frame of `sends` is Start.
pub open spec fn sends_start(sends: SendsView) -> bool {
    exists|i: int| 0 <= i < sends.len() && (#[trigger] sends[i]).1 is Start
}

/// Whether some frame of `sends` is Stop.
pub open spec fn sends_stop(sends: SendsView) -> bool {
    exists|i: int| 0 <= i < sends.len() && (#[trigger] sends[i]).1 is Stop
}

/// Whether every delivery is a TAG or a forwarded MSG.
pub open spec fn only_tags_and_messages(d: Seq<DeliveryView>) -> bool {
    forall|i: int| 0 <= i < d.len() ==> ((#[trigger] d[i]).message is Tag || d[i].message is Msg)
}

proof fn lemma_sweep_only_tags(s: StaticRtiView, n: int)
    ensures
        grants_upto(s, n).1 is Ok ==> only_tags_and_messages(grants_upto(s, n).1->Ok_0),
    decreases n,
{
    if n > 0 {
        lemma_sweep_only_tags(s, n - 1);
        let (s1, r1) = grants_upto(s, n - 1);
        if r1 is Ok && try_grant(s1, n - 1) is Ok {
            let d1 = r1->Ok_0;
            let g = grant_delivery(s.federates[n - 1], try_grant(s1, n - 1)->Ok_0.1);
            assert forall|i: int| 0 <= i < (d1 + g).len() implies ((#[trigger] (d1 + g)[i]).message is Tag
                || (d1 + g)[i].message is Msg) by {
                if i < d1.len() {
                    assert((d1 + g)[i] == d1[i]);
                } else {
                    assert((d1 + g)[i] == g[i - d1.len()]);
                }
            }
        }
    }
}

proof fn lemma_prefixed_only_tags(first: Seq<DeliveryView>, rest: Seq<DeliveryView>)
    requires
        only_tags_and_messages(first),
        only_tags_and_messages(rest),
    ensures
        only_tags_and_messages(first + rest),
{
    assert forall|i: int| 0 <= i < (first + rest).len() implies ((#[trigger] (first + rest)[i]).message is Tag
        || (first + rest)[i].message is Msg) by {
        if i < first.len() {
            assert((first + rest)[i] == first[i]);
        } else {
            assert((first + rest)[i] == rest[i - first.len()]);
        }
    }
}

/// The RTI answers a message only with TAG grants and forwarded MSG payloads.
pub proof fn lemma_rti_answers_only_tags_and_messages(s: StaticRtiView, message: FederateToRtiView)
    ensures
        spec_handle(s, message).1 is Ok ==> only_tags_and_messages(spec_handle(s, message).1->Ok_0),
{
    match message {
        FederateToRtiView::Net { federate_id, tag } => if s.federates.contains(federate_id) {
            let k = federate_index(s, federate_id);
            let s1 = with_state(s, k, FederateState { next_event: Some(tag), ..s.states[k] });
            if try_grant(s1, k) is Ok {
                let (s2, decision) = try_grant(s1, k)->Ok_0;
                lemma_sweep_only_tags(s2, s2.federates.len() as int);
                let g = grant_delivery(federate_id, decision);
                assert(only_tags_and_messages(g));
                if grants_upto(s2, s2.federates.len() as int).1 is Ok {
                    lemma_prefixed_only_tags(g, grants_upto(s2, s2.federates.len() as int).1->Ok_0);
                }
            }
        },
        FederateToRtiView::Ltc { federate_id, tag } => if s.federates.contains(federate_id) {
            let s1 = completed(s, federate_index(s, federate_id), tag);
            lemma_sweep_only_tags(s1, s1.federates.len() as int);
        },
        FederateToRtiView::Stop { federate_id } => if s.federates.contains(federate_id) {
            let k = federate_index(s, federate_id);
            let s1 = with_state(s, k, FederateState { next_event: Some(WireTag::Forever), stopped: true, ..s.states[k] });
            lemma_sweep_only_tags(s1, s1.federates.len() as int);
        },
        _ => {},
    }
}

proof fn lemma_delivery_sends(d: Seq<DeliveryView>)
    requires
        only_tags_and_messages(d),
    ensures
        !sends_start(delivery_sends(d)),
        !sends_stop(delivery_sends(d)),
{
    assert forall|i: int| 0 <= i < delivery_sends(d).len() implies !((#[trigger] delivery_sends(d)[i]).1 is Start)
        && !(delivery_sends(d)[i].1 is Stop) by {
        assert(delivery_sends(d)[i].1 == d[i].message);
    }
}

/// A session step sends Start only from the Hello phase, when it records the last missing Hello
/// and moves the session to its running phase; it sends Stop only when it records the last
/// missing Stop and ends the session successfully. A step that ends the session reports its
/// outcome, and only such a step does.
pub proof fn lemma_step_phases(s: SessionView, input: InputView)
    requires
        s.phase != SessionPhase::Finished,
    ensures
        ({
            let (after, sends, outcome) = spec_step(s, input);
            &&& outcome is Some <==> after.phase == SessionPhase::Finished
            &&& sends_start(sends) ==> s.phase == SessionPhase::AwaitingHellos && after.phase
                == SessionPhase::Running && all_set(after.seen)
            &&& sends_stop(sends) ==> outcome == Some(Ok::<(), crate::session::SessionErrorView>(()))
                && all_set(after.stopped)
        }),
{
    match input {
        InputView::Frame { federate_id, frame } => {
            if s.phase == SessionPhase::AwaitingHellos {
                lemma_hello_step(s, federate_id, frame);
            } else {
                lemma_running_step(s, federate_id, frame);
            }
        },
        _ => {},
    }
}

proof fn lemma_single_send(id: Seq<char>, m: RtiToFederateView)
    ensures
        sends_start(seq![(id, m)]) ==> m is Start,
        sends_stop(seq![(id, m)]) ==> m is Stop,
{
}

proof fn lemma_hello_step(s: SessionView, id: Seq<char>, frame: FrameView)
    requires
        s.phase == SessionPhase::AwaitingHellos,
    ensures
        ({
            let (after, sends, outcome) = hello_step(s, id, frame);
            &&& outcome is Some <==> after.phase == SessionPhase::Finished
            &&& sends_start(sends) ==> after.phase == SessionPhase::Running && all_set(after.seen)
            &&& !sends_stop(sends)
        }),
{
    let (after, sends, outcome) = hello_step(s, id, frame);
    if sends.len() == 1 {
        lemma_single_send(sends[0].0, sends[0].1);
        assert(sends =~= seq![(sends[0].0, sends[0].1)]);
    }
    if sends_stop(sends) {
        let i = choose|i: int| 0 <= i < sends.len() && (#[trigger] sends[i]).1 is Stop;
        if sends.len() != 1 && sends.len() > 0 {
            let m = RtiToFederateView::Start { start_unix_epoch_ns: s.start_unix_epoch_ns };
            assert(sends == to_all(s.rti.federates, m));
            assert(sends[i].1 == m);
        }
    }
}

proof fn lemma_running_step(s: SessionView, id: Seq<char>, frame: FrameView)
    requires
        s.phase == SessionPhase::Running,
    ensures
        ({
            let (after, sends, outcome) = running_step(s, id, frame);
            &&& outcome is Some <==> after.phase == SessionPhase::Finished
            &&& !sends_start(sends)
            &&& sends_stop(sends) ==> outcome == Some(Ok::<(), crate::session::SessionErrorView>(()))
                && all_set(after.stopped)
        }),
{
    let (after, sends, outcome) = running_step(s, id, frame);
    match frame {
        FrameView::FederateToRti(message) => {
            lemma_rti_answers_only_tags_and_messages(s.rti, message);
            let out = spec_handle(s.rti, message).1;
            if out is Ok {
                lemma_delivery_sends(out->Ok_0);
                let first = delivery_sends(out->Ok_0);
                let stops = to_all(s.rti.federates, RtiToFederateView::Stop);
                assert forall|i: int| 0 <= i < (first + stops).len() implies !((#[trigger] (first + stops)[i]).1 is Start) by {
                    if i < first.len() {
                        assert((first + stops)[i] == first[i]);
                    } else {
                        assert((first + stops)[i] == stops[i - first.len()]);
                    }
                }
            }
        },
        _ => {},
    }
    if sends.len() == 1 {
        lemma_single_send(sends[0].0, sends[0].1);
        assert(sends =~= seq![(sends[0].0, sends[0].1)]);
    }
}

/// A run as the session driver performs it: steps on the inputs in order until one reports the
/// session's outcome; the frames each step sent, and the outcome if one was reached.
pub open spec fn driver_run(s: SessionView, inputs: Seq<InputView>) -> (
    SessionView,
    Seq<SendsView>,
    Option<Result<(), SessionErrorView>>,
)
    decreases inputs.len(),
{
    if inputs.len() == 0 {
        (s, Seq::empty(), None)
    } else {
        let (after, sends, outcome) = spec_step(s, inputs[0]);
        if outcome is Some {
            (after, seq![sends], outcome)
        } else {
            let (last, rest, o) = driver_run(after, inputs.drop_first());
            (last, seq![sends] + rest, o)
        }
    }
}

/// Law of a session run: Stop frames are sent by one step at most, the step that ends the run
/// successfully after every Federate stopped.
pub proof fn lemma_stop_sent_once_per_run(s: SessionView, inputs: Seq<InputView>)
    requires
        s.phase != SessionPhase::Finished,
    ensures
        ({
            let (last, steps, outcome) = driver_run(s, inputs);
            forall|i: int|
                0 <= i < steps.len() && sends_stop(#[trigger] steps[i]) ==> i == steps.len() - 1 && outcome
                    == Some(Ok::<(), SessionErrorView>(())) && all_set(last.stopped)
        }),
    decreases inputs.len(),
{
    if inputs.len() > 0 {
        lemma_step_phases(s, inputs[0]);
        let (after, sends, outcome) = spec_step(s, inputs[0]);
        if outcome is None {
            lemma_stop_sent_once_per_run(after, inputs.drop_first());
            let (last, rest, o) = driver_run(after, inputs.drop_first());
            let steps = seq![sends] + rest;
            assert forall|i: int| 0 <= i < steps.len() && sends_stop(#[trigger] steps[i]) implies i == steps.len()
                - 1 && o == Some(Ok::<(), SessionErrorView>(())) && all_set(last.stopped) by {
                if i == 0 {
                    assert(steps[0] == sends);
                } else {
                    assert(steps[i] == rest[i - 1]);
                }
            }
        }
    }
}

/// The step that sends Stop sends it once to every Federate, in the topology's order, after the
/// RTI's own answers, which hold no Stop.
pub proof fn lemma_stop_reaches_every_federate_once(s: SessionView, id: Seq<char>, frame: FrameView)
    requires
        s.phase == SessionPhase::Running,
    ensures
        ({
            let sends = running_step(s, id, frame).1;
            sends_stop(sends) ==> exists|prefix: SendsView|
                !sends_stop(prefix) && sends == prefix + to_all(s.rti.federates, RtiToFederateView::Stop)
        }),
{
    let (after, sends, outcome) = running_step(s, id, frame);
    lemma_running_step(s, id, frame);
    if sends_stop(sends) {
        match frame {
            FrameView::FederateToRti(message) => {
                lemma_rti_answers_only_tags_and_messages(s.rti, message);
                let out = spec_handle(s.rti, message).1;
                if out is Ok {
                    lemma_delivery_sends(out->Ok_0);
                    let prefix = delivery_sends(out->Ok_0);
                    if sends != prefix + to_all(s.rti.federates, RtiToFederateView::Stop) {
                        if sends != prefix {
                            assert(sends.len() == 1);
                            lemma_single_send(sends[0].0, sends[0].1);
                            assert(sends =~= seq![(sends[0].0, sends[0].1)]);
                        }
                    }
                } else {
                    lemma_single_send(sends[0].0, sends[0].1);
                    assert(sends =~= seq![(sends[0].0, sends[0].1)]);
                }
            },
            _ => {
                lemma_single_send(sends[0].0, sends[0].1);
                assert(sends =~= seq![(sends[0].0, sends[0].1)]);
            },
        }
    }
}

/// A running session refuses any frame from a Federate whose Stop it already accepted.
pub proof fn lemma_frame_after_stop_refused(s: SessionView, id: Seq<char>, frame: FrameView)
    requires
        s.phase == SessionPhase::Running,
        s.rti.federates.contains(id),
        s.stopped[federate_index(s.rti, id)],
    ensures
        spec_step(s, InputView::Frame { federate_id: id, frame }) == protocol_error(
            s,
            id,
            "received protocol frame after Stop"@,
        ),
{
}

/// Whether `input` is a Hello from a Federate that names itself in it.
pub open spec fn own_hello(input: InputView) -> bool {
    input matches InputView::Frame { federate_id, frame } && frame == FrameView::FederateToRti(
        FederateToRtiView::Hello { federate_id },
    )
}

/// The Federate whose connection an input came from.
pub open spec fn sender(input: InputView) -> Seq<char> {
    match input {
        InputView::Frame { federate_id, .. } => federate_id,
        InputView::Closed { federate_id } => federate_id,
        InputView::TransportError { federate_id, .. } => federate_id,
    }
}

proof fn lemma_no_start_while_running(s: SessionView, inputs: Seq<InputView>)
    requires
        s.phase == SessionPhase::Running,
    ensures
        forall|i: int| 0 <= i < driver_run(s, inputs).1.len() ==> !sends_start(#[trigger] driver_run(s, inputs).1[i]),
    decreases inputs.len(),
{
    if inputs.len() > 0 {
        lemma_step_phases(s, inputs[0]);
        let (after, sends, outcome) = spec_step(s, inputs[0]);
        if outcome is None {
            assert(after.phase == SessionPhase::Running);
            lemma_no_start_while_running(after, inputs.drop_first());
            let rest = driver_run(after, inputs.drop_first()).1;
            let steps = seq![sends] + rest;
            assert forall|i: int| 0 <= i < steps.len() implies !sends_start(#[trigger] steps[i]) by {
                if i > 0 {
                    assert(steps[i] == rest[i - 1]);
                }
            }
        }
    }
}

/// Whether the inputs up to `i` are Hellos, each from a Federate of the topology that had not
/// said Hello in `s` and naming itself, no two from one Federate, and, with the Hellos `s`
/// recorded, one from every Federate.
pub open spec fn hellos_complete(s: SessionView, inputs: Seq<InputView>, i: int) -> bool {
    &&& forall|j: int|
        0 <= j <= i ==> own_hello(#[trigger] inputs[j]) && s.rti.federates.contains(sender(inputs[j]))
            && !s.seen[federate_index(s.rti, sender(inputs[j]))]
    &&& forall|j1: int, j2: int| 0 <= j1 < j2 <= i ==> sender(#[trigger] inputs[j1]) != sender(#[trigger] inputs[j2])
    &&& forall|k: int|
        0 <= k < s.rti.federates.len() ==> s.seen[k] || exists|j: int|
            0 <= j <= i && sender(#[trigger] inputs[j]) == s.rti.federates[k]
}

proof fn lemma_run_steps_len(s: SessionView, inputs: Seq<InputView>)
    ensures
        driver_run(s, inputs).1.len() <= inputs.len(),
    decreases inputs.len(),
{
    if inputs.len() > 0 {
        let (after, sends, outcome) = spec_step(s, inputs[0]);
        if outcome is None {
            lemma_run_steps_len(after, inputs.drop_first());
        }
    }
}

proof fn lemma_hellos_before_start(s: SessionView, inputs: Seq<InputView>)
    requires
        s.phase == SessionPhase::AwaitingHellos,
        s.seen.len() == s.rti.federates.len(),
    ensures
        forall|i: int|
            0 <= i < driver_run(s, inputs).1.len() && sends_start(#[trigger] driver_run(s, inputs).1[i])
                ==> hellos_complete(s, inputs, i),
    decreases inputs.len(),
{
    if inputs.len() > 0 {
        lemma_step_phases(s, inputs[0]);
        let (after, sends, outcome) = spec_step(s, inputs[0]);
        if outcome is None {
            let tail = inputs.drop_first();
            let rest = driver_run(after, tail).1;
            let steps = seq![sends] + rest;
            assert(steps[0] == sends);
            let id = sender(inputs[0]);
            lemma_run_steps_len(after, tail);
            if !sends_start(sends) && after.phase != SessionPhase::AwaitingHellos {
                assert(s.rti.federates.contains(id));
                assert(sends[0].1 is Start);
            }
            if sends_start(sends) || after.phase == SessionPhase::AwaitingHellos {
                assert(own_hello(inputs[0]));
                assert(s.rti.federates.contains(id));
                let idx = federate_index(s.rti, id);
                assert(!s.seen[idx]);
                assert(after.seen == s.seen.update(idx, true));
            }
            if sends_start(sends) {
                lemma_no_start_while_running(after, tail);
                let idx = federate_index(s.rti, id);
                assert forall|i: int| 0 <= i < steps.len() && sends_start(#[trigger] steps[i]) implies hellos_complete(
                    s,
                    inputs,
                    i,
                ) by {
                    if i > 0 {
                        assert(steps[i] == rest[i - 1]);
                    } else {
                        assert forall|k: int| 0 <= k < s.rti.federates.len() implies s.seen[k] || exists|j: int|
                            0 <= j <= i && sender(#[trigger] inputs[j]) == s.rti.federates[k] by {
                            assert(after.seen[k]);
                            if !s.seen[k] {
                                assert(k == idx);
                            }
                        }
                    }
                }
            } else {
                assert(after.phase == SessionPhase::AwaitingHellos);
                lemma_hellos_before_start(after, tail);
                let idx = federate_index(s.rti, id);
                assert forall|i: int| 0 <= i < steps.len() && sends_start(#[trigger] steps[i]) implies hellos_complete(
                    s,
                    inputs,
                    i,
                ) by {
                    assert(i > 0);
                    assert(steps[i] == rest[i - 1]);
                    assert(hellos_complete(after, tail, i - 1));
                    assert forall|j: int| 0 <= j <= i implies own_hello(#[trigger] inputs[j])
                        && s.rti.federates.contains(sender(inputs[j])) && !s.seen[federate_index(
                        s.rti,
                        sender(inputs[j]),
                    )] by {
                        if j > 0 {
                            assert(inputs[j] == tail[j - 1]);
                        }
                    }
                    assert forall|j1: int, j2: int| 0 <= j1 < j2 <= i implies sender(#[trigger] inputs[j1]) != sender(
                        #[trigger] inputs[j2],
                    ) by {
                        assert(inputs[j2] == tail[j2 - 1]);
                        if j1 > 0 {
                            assert(inputs[j1] == tail[j1 - 1]);
                        } else {
                            let other = sender(tail[j2 - 1]);
                            assert(!after.seen[federate_index(after.rti, other)]);
                        }
                    }
                    assert forall|k: int| 0 <= k < s.rti.federates.len() implies s.seen[k] || exists|j: int|
                        0 <= j <= i && sender(#[trigger] inputs[j]) == s.rti.federates[k] by {
                        if !s.seen[k] {
                            if k == idx {
                                assert(sender(inputs[0]) == s.rti.federates[k]);
                            } else {
                                assert(!after.seen[k]);
                                let j = choose|j: int| 0 <= j <= i - 1 && sender(#[trigger] tail[j]) == after.rti.federates[k];
                                assert(inputs[j + 1] == tail[j]);
                                assert(sender(inputs[j + 1]) == s.rti.federates[k]);
                            }
                        }
                    }
                }
            }
        }
    }
}

/// Law of a session run: Start goes out only once every Federate of the topology has said Hello,
/// each exactly once and naming itself, and nothing but those Hellos came before it. A session
/// that has recorded no Hello yet starts only after one Hello from each of its Federates.
pub proof fn lemma_start_after_one_hello_each(s: SessionView, inputs: Seq<InputView>)
    requires
        s.phase == SessionPhase::AwaitingHellos,
        s.seen == Seq::new(s.rti.federates.len(), |k: int| false),
    ensures
        forall|i: int|
            0 <= i < driver_run(s, inputs).1.len() && sends_start(#[trigger] driver_run(s, inputs).1[i]) ==> {
                &&& forall|j: int|
                    0 <= j <= i ==> own_hello(#[trigger] inputs[j]) && s.rti.federates.contains(sender(inputs[j]))
                &&& forall|j1: int, j2: int|
                    0 <= j1 < j2 <= i ==> sender(#[trigger] inputs[j1]) != sender(#[trigger] inputs[j2])
                &&& forall|k: int|
                    #![trigger s.rti.federates[k]]
                    0 <= k < s.rti.federates.len() ==> exists|j: int|
                        0 <= j <= i && sender(#[trigger] inputs[j]) == s.rti.federates[k]
            },
{
    lemma_hellos_before_start(s, inputs);
    let steps = driver_run(s, inputs).1;
    assert forall|i: int| 0 <= i < steps.len() && sends_start(#[trigger] steps[i]) implies forall|k: int|
        #![trigger s.rti.federates[k]]
        0 <= k < s.rti.federates.len() ==> exists|j: int|
            0 <= j <= i && sender(#[trigger] inputs[j]) == s.rti.federates[k] by {
        assert(hellos_complete(s, inputs, i));
        assert forall|k: int| #![trigger s.rti.federates[k]] 0 <= k < s.rti.federates.len() implies exists|j: int|
            0 <= j <= i && sender(#[trigger] inputs[j]) == s.rti.federates[k] by {
            assert(!s.seen[k]);
        }
    }
}

proof fn lemma_step_keeps_federates(s: SessionView, input: InputView)
    ensures
        spec_step(s, input).0.rti.federates == s.rti.federates,
{
    if let InputView::Frame { federate_id, frame } = input {
        if s.phase == SessionPhase::AwaitingHellos {
            crate::topology::rti::lemma_handle_keeps_shape(s.rti, FederateToRtiView::Hello { federate_id });
        } else if let FrameView::FederateToRti(message) = frame {
            crate::topology::rti::lemma_handle_keeps_shape(s.rti, message);
        }
    }
}

/// Whether `sends` is some frames holding no Stop followed by Stop to every Federate of
/// `federates`, once each, in their order.
pub open spec fn ends_with_stop_to_all(sends: SendsView, federates: Seq<Seq<char>>) -> bool {
    exists|prefix: SendsView| !sends_stop(prefix) && sends == prefix + to_all(federates, RtiToFederateView::Stop)
}

/// Law of a session run: the run succeeds only once the RTI accepted a Stop from every Federate
/// of the topology; the step that ends it sends, after the RTI's own answers, Stop to every
/// Federate once, in the topology's order, and no earlier step sends any Stop.
pub proof fn lemma_run_succeeds_only_after_every_stop(s: SessionView, inputs: Seq<InputView>)
    requires
        s.phase != SessionPhase::Finished,
    ensures
        ({
            let (last, steps, outcome) = driver_run(s, inputs);
            outcome == Some(Ok::<(), SessionErrorView>(())) ==> {
                &&& all_set(last.stopped)
                &&& last.rti.federates == s.rti.federates
                &&& steps.len() > 0
                &&& ends_with_stop_to_all(steps.last(), s.rti.federates)
                &&& forall|i: int| 0 <= i < steps.len() - 1 ==> !sends_stop(#[trigger] steps[i])
            }
        }),
    decreases inputs.len(),
{
    lemma_stop_sent_once_per_run(s, inputs);
    if inputs.len() > 0 {
        lemma_step_phases(s, inputs[0]);
        lemma_step_keeps_federates(s, inputs[0]);
        let (after, sends, outcome) = spec_step(s, inputs[0]);
        if outcome == Some(Ok::<(), SessionErrorView>(())) {
            assert(driver_run(s, inputs).1 =~= seq![sends]);
            if let InputView::Frame { federate_id, frame } = inputs[0] {
                if s.phase != SessionPhase::AwaitingHellos {
                    if let FrameView::FederateToRti(message) = frame {
                        let d = spec_handle(s.rti, message).1->Ok_0;
                        lemma_rti_answers_only_tags_and_messages(s.rti, message);
                        lemma_delivery_sends(d);
                        let prefix = delivery_sends(d);
                        assert(sends == prefix + to_all(s.rti.federates, RtiToFederateView::Stop));
                        assert(ends_with_stop_to_all(sends, s.rti.federates));
                    }
                }
            }
        } else if outcome is None {
            lemma_run_succeeds_only_after_every_stop(after, inputs.drop_first());
            let (last, rest, o) = driver_run(after, inputs.drop_first());
            let steps = seq![sends] + rest;
            if o == Some(Ok::<(), SessionErrorView>(())) {
                assert(steps.last() == rest.last());
            }
        }
    }
}

} // verus!
