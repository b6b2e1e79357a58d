use boomerang_federated::session::{
    validate_federate_message, ProtocolFrame, SessionError, SessionInput, SessionPhase,
    SessionState, SessionStep, TransportError,
};
use boomerang_federated::topology::{FederatedTopology, TopologyEdge};
use boomerang_federated::{EndpointId, FederateId, FederateToRti, RtiToFederate, WireDelay, WireTag};

fn fed(id: &str) -> FederateId {
    FederateId::new(id)
}

fn endpoint(id: &str) -> EndpointId {
    EndpointId::new(id)
}

fn source_sink_topology() -> FederatedTopology {
    let source = fed("source");
    let sink = fed("sink");
    FederatedTopology::with_edges(
        vec![source.clone(), sink.clone()],
        vec![TopologyEdge::new(
            source,
            sink,
            endpoint("source.out->sink.in"),
            WireDelay::from_nanos(0),
        )],
    )
}

fn frame(session: &mut SessionState, id: &str, message: FederateToRti) -> SessionStep {
    session.step(SessionInput::Frame {
        federate_id: fed(id),
        frame: ProtocolFrame::FederateToRti(message),
    })
}

fn started_session() -> SessionState {
    let mut session = SessionState::new(source_sink_topology(), 0);
    let step = session.begin();
    assert!(step.sends.is_empty());
    assert!(step.outcome.is_none());
    let step = frame(&mut session, "source", FederateToRti::Hello { federate_id: fed("source") });
    assert!(step.sends.is_empty());
    assert_eq!(session.phase(), SessionPhase::AwaitingHellos);
    let step = frame(&mut session, "sink", FederateToRti::Hello { federate_id: fed("sink") });
    assert_eq!(
        step.sends,
        vec![
            (fed("sink"), RtiToFederate::Start { start_unix_epoch_ns: 0 }),
            (fed("source"), RtiToFederate::Start { start_unix_epoch_ns: 0 }),
        ]
    );
    assert!(step.outcome.is_none());
    assert_eq!(session.phase(), SessionPhase::Running);
    session
}

#[test]
fn session_sends_protocol_error_for_unexpected_federate_frame() {
    let mut session = started_session();
    let step = session.step(SessionInput::Frame {
        federate_id: fed("source"),
        frame: ProtocolFrame::RtiToFederate(RtiToFederate::Stop),
    });
    assert!(matches!(
        &step.sends[..],
        [(id, RtiToFederate::Error { message })]
            if id == &fed("source") && message.contains("RTI-to-federate frame")
    ));
    assert!(matches!(
        step.outcome,
        Some(Err(SessionError::Protocol { federate_id, message }))
            if federate_id == fed("source") && message.contains("RTI-to-federate frame")
    ));
    assert_eq!(session.phase(), SessionPhase::Finished);
}

#[test]
fn session_routes_messages_and_stops_once_everyone_stopped() {
    let mut session = started_session();
    let step = frame(
        &mut session,
        "source",
        FederateToRti::Net { federate_id: fed("source"), tag: WireTag::finite(0, 0) },
    );
    assert!(step
        .sends
        .contains(&(fed("source"), RtiToFederate::Tag { tag: WireTag::finite(0, 0) })));

    let step = frame(
        &mut session,
        "source",
        FederateToRti::Msg {
            source: fed("source"),
            target: fed("sink"),
            endpoint: endpoint("source.out->sink.in"),
            tag: WireTag::finite(0, 0),
            payload: b"hello".to_vec(),
        },
    );
    assert_eq!(
        step.sends,
        vec![(
            fed("sink"),
            RtiToFederate::Msg {
                source: fed("source"),
                endpoint: endpoint("source.out->sink.in"),
                tag: WireTag::finite(0, 0),
                payload: b"hello".to_vec(),
            }
        )]
    );

    let step = frame(&mut session, "source", FederateToRti::Stop { federate_id: fed("source") });
    assert!(step.outcome.is_none());
    assert!(!step.sends.contains(&(fed("source"), RtiToFederate::Stop)));
    let step = frame(&mut session, "sink", FederateToRti::Stop { federate_id: fed("sink") });
    assert!(step.sends.ends_with(&[
        (fed("sink"), RtiToFederate::Stop),
        (fed("source"), RtiToFederate::Stop),
    ]));
    assert!(matches!(step.outcome, Some(Ok(()))));
    assert_eq!(session.phase(), SessionPhase::Finished);
}

#[test]
fn session_refuses_frames_before_hello_and_duplicate_hellos() {
    let mut session = SessionState::new(source_sink_topology(), 7);
    let step = frame(
        &mut session,
        "source",
        FederateToRti::Net { federate_id: fed("source"), tag: WireTag::finite(0, 0) },
    );
    assert!(matches!(
        step.outcome,
        Some(Err(SessionError::Protocol { message, .. })) if message == "expected Hello before Start"
    ));

    let mut session = SessionState::new(source_sink_topology(), 7);
    frame(&mut session, "source", FederateToRti::Hello { federate_id: fed("source") });
    let step = frame(&mut session, "source", FederateToRti::Hello { federate_id: fed("source") });
    assert_eq!(
        step.sends,
        vec![(fed("source"), RtiToFederate::Error { message: "duplicate Hello".to_string() })]
    );
}

#[test]
fn session_fails_on_closed_connection_and_transport_errors() {
    let mut session = started_session();
    let step = session.step(SessionInput::Closed { federate_id: fed("sink") });
    assert!(step.sends.is_empty());
    assert!(matches!(
        step.outcome,
        Some(Err(SessionError::Shutdown(message))) if message == "federate `sink` closed before Stop"
    ));

    let mut session = SessionState::new(source_sink_topology(), 0);
    let step = session.step(SessionInput::TransportError {
        federate_id: fed("sink"),
        error: TransportError { message: "reset".to_string() },
    });
    assert!(matches!(
        step.outcome,
        Some(Err(SessionError::Transport { federate_id, source }))
            if federate_id == fed("sink") && source.message == "reset"
    ));
}

#[test]
fn federate_messages_must_match_their_endpoint_and_route() {
    let topology = source_sink_topology();
    assert_eq!(
        validate_federate_message(
            &topology,
            &fed("sink"),
            &FederateToRti::Net { federate_id: fed("source"), tag: WireTag::finite(0, 0) },
        ),
        Err("message identified federate `source`, but endpoint is `sink`".to_string())
    );
    assert_eq!(
        validate_federate_message(
            &topology,
            &fed("sink"),
            &FederateToRti::Msg {
                source: fed("sink"),
                target: fed("source"),
                endpoint: endpoint("source.out->sink.in"),
                tag: WireTag::finite(0, 0),
                payload: Vec::new(),
            },
        ),
        Err("MSG route sink -> source endpoint `source.out->sink.in` is not in the RTI topology"
            .to_string())
    );
    assert_eq!(
        validate_federate_message(
            &topology,
            &fed("source"),
            &FederateToRti::Stop { federate_id: fed("source") },
        ),
        Ok(())
    );
}

#[test]
fn endpoint_set_must_match_the_topology() {
    let session = SessionState::new(source_sink_topology(), 0);
    assert!(session.validate_endpoint_set(&vec![fed("sink"), fed("source")]).is_ok());
    assert!(matches!(
        session.validate_endpoint_set(&vec![fed("other"), fed("sink")]),
        Err(SessionError::Shutdown(message))
            if message == "session endpoint set does not match topology; missing=[\"source\"], unexpected=[\"other\"]"
    ));
}
