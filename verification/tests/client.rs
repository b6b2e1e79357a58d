use boomerang_federated::client::{
    check_inbound, FederateClientError, FederateClientRoute, FrameOutcome, PollOutcome,
    RtiFederatedTimeBarrier, RtiLogicalTimeCoordinator, WaitStart,
};
use boomerang_federated::runtime::{FederatedEndpointError, FederatedFaultState};
use boomerang_federated::{EndpointId, FederateId, FederateToRti, RtiToFederate, WireTag};

fn fed(id: &str) -> FederateId {
    FederateId::new(id)
}

fn endpoint() -> EndpointId {
    EndpointId::new("source.out->sink.in")
}

fn route() -> FederateClientRoute {
    FederateClientRoute::new(endpoint(), fed("source"), fed("sink"))
}

fn zero() -> WireTag {
    WireTag::finite(0, 0)
}

fn inbound_msg(payload: &[u8]) -> RtiToFederate {
    RtiToFederate::Msg {
        source: fed("source"),
        endpoint: endpoint(),
        tag: zero(),
        payload: payload.to_vec(),
    }
}

#[test]
fn bridge_does_not_repeat_pending_net_after_inbound_interruption() {
    let faults = FederatedFaultState::default();
    let next_tag = WireTag::finite(1_000_000_000, 0);
    let mut barrier = RtiFederatedTimeBarrier::new(fed("sink"), vec![route()]).unwrap();

    assert_eq!(barrier.begin_wait(zero(), &faults), Ok(WaitStart::SendNet(zero())));
    assert_eq!(
        barrier.on_frame(zero(), inbound_msg(b"42")),
        Ok(FrameOutcome::Schedule {
            source: fed("source"),
            endpoint: endpoint(),
            tag: zero(),
            payload: b"42".to_vec(),
        })
    );
    assert_eq!(barrier.begin_wait(zero(), &faults), Ok(WaitStart::Await));
    assert_eq!(
        barrier.on_frame(zero(), RtiToFederate::Tag { tag: zero() }),
        Ok(FrameOutcome::Granted)
    );
    assert_eq!(barrier.pending_request(), None);
    assert_eq!(barrier.begin_wait(zero(), &faults), Ok(WaitStart::Granted));
    assert_eq!(barrier.begin_wait(next_tag, &faults), Ok(WaitStart::SendNet(next_tag)));
    assert_eq!(
        barrier.on_frame(next_tag, RtiToFederate::Tag { tag: next_tag }),
        Ok(FrameOutcome::Granted)
    );
    assert_eq!(barrier.last_granted(), Some(next_tag));
}

#[test]
fn inbound_admission_failure_makes_the_barrier_terminal_before_later_tag() {
    let faults = FederatedFaultState::default();
    let mut barrier = RtiFederatedTimeBarrier::new(fed("sink"), vec![route()]).unwrap();
    assert_eq!(barrier.begin_wait(zero(), &faults), Ok(WaitStart::SendNet(zero())));
    assert!(matches!(
        barrier.on_frame(zero(), inbound_msg(b"not-a-u32")),
        Ok(FrameOutcome::Schedule { .. })
    ));
    // The scheduler refused the payload: the barrier records the failure.
    barrier.fail();
    assert!(barrier.is_failed());
    assert_eq!(barrier.begin_wait(zero(), &faults), Err(FederateClientError::BarrierFailed));
    assert_eq!(
        barrier.begin_complete(zero(), &faults),
        Err(FederateClientError::BarrierFailed)
    );
}

#[test]
fn bridge_reports_rti_error_frame() {
    let faults = FederatedFaultState::default();
    let mut barrier = RtiFederatedTimeBarrier::new(fed("source"), vec![route()]).unwrap();
    assert_eq!(barrier.begin_wait(zero(), &faults), Ok(WaitStart::SendNet(zero())));
    let error = barrier
        .on_frame(zero(), RtiToFederate::Error { message: "boom".into() })
        .unwrap_err();
    assert!(error.message().contains("boom"));
    assert_eq!(barrier.pending_request(), None);
}

#[test]
fn bridge_stop_sends_no_future_before_stop() {
    let mut barrier = RtiFederatedTimeBarrier::new(fed("source"), vec![route()]).unwrap();
    assert_eq!(
        barrier.begin_stop(),
        vec![
            FederateToRti::Net { federate_id: fed("source"), tag: WireTag::FOREVER },
            FederateToRti::Stop { federate_id: fed("source") },
        ]
    );
    assert!(barrier.begin_stop().is_empty());
    assert_eq!(
        barrier.begin_wait(zero(), &FederatedFaultState::default()),
        Err(FederateClientError::RtiStopped)
    );
}

#[test]
fn barrier_refuses_misrouted_inbound_messages_and_duplicate_routes() {
    assert_eq!(
        RtiFederatedTimeBarrier::new(fed("sink"), vec![route(), route()]).err(),
        Some(FederateClientError::DuplicateRoute(endpoint()))
    );
    let mut barrier = RtiFederatedTimeBarrier::new(fed("source"), vec![route()]).unwrap();
    assert_eq!(
        barrier.on_frame(zero(), inbound_msg(b"x")),
        Err(FederateClientError::RouteTargetMismatch {
            endpoint: endpoint(),
            route_target: fed("sink"),
            federate_id: fed("source"),
        })
    );
    assert!(barrier.is_failed());
    assert_eq!(
        check_inbound(&vec![route()], &fed("sink"), &fed("other"), &endpoint()),
        Err(FederateClientError::InboundSourceMismatch {
            endpoint: endpoint(),
            observed_source: fed("other"),
            route_source: fed("source"),
        })
    );
    assert_eq!(
        check_inbound(&vec![route()], &fed("sink"), &fed("source"), &EndpointId::new("x")),
        Err(FederateClientError::UnknownRoute(EndpointId::new("x")))
    );
}

#[test]
fn runtime_faults_stop_the_barrier_before_net() {
    let mut faults = FederatedFaultState::default();
    faults.record(FederatedEndpointError::codec("bad payload"));
    let mut barrier = RtiFederatedTimeBarrier::new(fed("sink"), vec![route()]).unwrap();
    let error = barrier.begin_wait(zero(), &faults).unwrap_err();
    assert_eq!(
        error,
        FederateClientError::RuntimeEndpoint(FederatedEndpointError::codec("bad payload"))
    );
    assert_eq!(
        error.message(),
        "runtime endpoint error: federated payload codec error: bad payload"
    );
    assert!(barrier.is_failed());
}

#[test]
fn repeated_pending_net_is_idempotent_and_sufficient_tag_clears_it() {
    let faults = FederatedFaultState::default();
    let mut coordinator = RtiLogicalTimeCoordinator::new(fed("federate"), Vec::new()).unwrap();
    assert_eq!(
        coordinator.submit_net(zero(), &faults),
        Ok(Some(FederateToRti::Net { federate_id: fed("federate"), tag: zero() }))
    );
    assert_eq!(coordinator.submit_net(zero(), &faults), Ok(None));
    assert_eq!(
        coordinator.poll_frame(RtiToFederate::Tag { tag: zero() }),
        Ok(PollOutcome::Granted(zero()))
    );
    assert_eq!(coordinator.pending_request(), None);
    assert_eq!(
        coordinator.stop(),
        vec![
            FederateToRti::Net { federate_id: fed("federate"), tag: WireTag::FOREVER },
            FederateToRti::Stop { federate_id: fed("federate") },
        ]
    );
    assert!(coordinator.stop().is_empty());
}

#[test]
fn insufficient_tag_preserves_revised_pending_request() {
    let faults = FederatedFaultState::default();
    let later = WireTag::finite(10_000_000, 0);
    let mut coordinator = RtiLogicalTimeCoordinator::new(fed("federate"), Vec::new()).unwrap();
    assert_eq!(
        coordinator.submit_net(later, &faults),
        Ok(Some(FederateToRti::Net { federate_id: fed("federate"), tag: later }))
    );
    assert_eq!(
        coordinator.poll_frame(RtiToFederate::Tag { tag: zero() }),
        Ok(PollOutcome::Granted(zero()))
    );
    assert_eq!(coordinator.pending_request(), Some(later));
    assert_eq!(coordinator.submit_net(later, &faults), Ok(None));
    assert_eq!(coordinator.stop().len(), 2);
}

#[test]
fn protocol_error_is_terminal_for_later_operations() {
    let faults = FederatedFaultState::default();
    let mut coordinator = RtiLogicalTimeCoordinator::new(fed("federate"), Vec::new()).unwrap();
    coordinator.submit_net(zero(), &faults).unwrap();
    let error = coordinator
        .poll_frame(RtiToFederate::Error { message: "boom".into() })
        .unwrap_err();
    assert!(error.message().contains("boom"));
    assert_eq!(
        coordinator.submit_net(zero(), &faults),
        Err(FederateClientError::CoordinationFailed)
    );
    assert_eq!(
        coordinator.report_logical_tag_complete(zero(), &faults),
        Err(FederateClientError::CoordinationFailed)
    );
}

#[test]
fn coordinator_reports_ltc_and_refuses_duplicate_start() {
    let faults = FederatedFaultState::default();
    let mut coordinator = RtiLogicalTimeCoordinator::new(fed("sink"), vec![route()]).unwrap();
    assert_eq!(
        coordinator.report_logical_tag_complete(zero(), &faults),
        Ok(FederateToRti::Ltc { federate_id: fed("sink"), tag: zero() })
    );
    assert_eq!(
        coordinator.poll_frame(inbound_msg(b"1")),
        Ok(PollOutcome::Schedule {
            source: fed("source"),
            endpoint: endpoint(),
            tag: zero(),
            payload: b"1".to_vec(),
        })
    );
    let error = coordinator
        .poll_frame(RtiToFederate::Start { start_unix_epoch_ns: 0 })
        .unwrap_err();
    assert_eq!(error.message(), "protocol error: unexpected duplicate Start frame");
    assert!(coordinator.is_failed());
    assert_eq!(
        coordinator.poll_frame(RtiToFederate::Stop),
        Err(FederateClientError::RtiStopped)
    );
    assert!(coordinator.is_stopped());
}
