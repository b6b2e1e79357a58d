use boomerang_federated::client::RtiLogicalTimeCoordinator;
use boomerang_federated::federate_coordination::service::{FederateCoordinationService, ServiceEffect};
use boomerang_federated::federate_coordination::{
    CoordinationAction, CoordinationWake, FederateCoordinationLayout,
};
use boomerang_federated::runtime::FederatedFaultState;
use boomerang_federated::{FederateId, FederateToRti, WireTag};

fn service() -> FederateCoordinationService {
    let coordinator = RtiLogicalTimeCoordinator::new(FederateId::new("f"), Vec::new()).unwrap();
    FederateCoordinationService::new(FederateCoordinationLayout::new(vec![0, 1]), coordinator, vec![0])
}

#[test]
fn request_net_sends_once_and_ltc_follows() {
    let mut service = service();
    let faults = FederatedFaultState::default();
    let tag = WireTag::finite(5, 0);
    assert_eq!(
        service.execute(CoordinationAction::RequestNet { tag }, &faults),
        Ok(vec![ServiceEffect::Send(FederateToRti::Net { federate_id: FederateId::new("f"), tag })])
    );
    assert_eq!(service.execute(CoordinationAction::RequestNet { tag }, &faults), Ok(Vec::new()));
    assert_eq!(
        service.execute(CoordinationAction::ReportLtc { tag }, &faults),
        Ok(vec![ServiceEffect::Send(FederateToRti::Ltc { federate_id: FederateId::new("f"), tag })])
    );
}

#[test]
fn wakes_need_a_wake_context() {
    let mut service = service();
    let faults = FederatedFaultState::default();
    let tag = WireTag::finite(1, 0);
    assert_eq!(
        service.execute(
            CoordinationAction::WakeParticipant { participant: 0, tag, observation_epoch: 3 },
            &faults
        ),
        Ok(vec![ServiceEffect::Wake {
            participant: 0,
            wake: CoordinationWake { tag, observation_epoch: 3 },
        }])
    );
    assert_eq!(
        service.execute(
            CoordinationAction::WakeParticipant { participant: 1, tag, observation_epoch: 3 },
            &faults
        ),
        Err("missing wake context for 1".to_string())
    );
}

#[test]
fn waiting_requests_are_answered_once() {
    let mut service = service();
    let faults = FederatedFaultState::default();
    service.await_reply(0, 7);
    service.await_reply(1, 8);
    assert_eq!(
        service.execute(CoordinationAction::ReleaseCompletion { participant: 0, request_id: 7 }, &faults),
        Ok(vec![ServiceEffect::Reply { participant: 0, request_id: 7, result: Ok(()) }])
    );
    assert_eq!(
        service.execute(CoordinationAction::ReleaseCompletion { participant: 0, request_id: 7 }, &faults),
        Ok(Vec::new())
    );
    assert_eq!(
        service.fail_all("stopped".to_string()),
        vec![ServiceEffect::Reply { participant: 1, request_id: 8, result: Err("stopped".to_string()) }]
    );
    assert_eq!(
        service.execute(CoordinationAction::SendStop, &faults),
        Ok(vec![
            ServiceEffect::Send(FederateToRti::Net { federate_id: FederateId::new("f"), tag: WireTag::FOREVER }),
            ServiceEffect::Send(FederateToRti::Stop { federate_id: FederateId::new("f") }),
        ])
    );
}

#[test]
fn a_new_service_starts_from_a_fresh_state() {
    let service = service();
    assert!(!service.state().is_stopped());
    assert_eq!(service.state().terminal_error(), None);
}

#[test]
fn terminate_answers_every_waiting_request_with_the_first_failure() {
    let mut service = service();
    service.await_reply(0, 7);
    service.await_reply(1, 8);
    let (first, effects) = service.terminate("transport lost".to_string());
    assert_eq!(first, "transport lost");
    assert_eq!(
        effects,
        vec![
            ServiceEffect::Send(FederateToRti::Net { federate_id: FederateId::new("f"), tag: WireTag::FOREVER }),
            ServiceEffect::Send(FederateToRti::Stop { federate_id: FederateId::new("f") }),
            ServiceEffect::Reply { participant: 0, request_id: 7, result: Err("transport lost".to_string()) },
            ServiceEffect::Reply { participant: 1, request_id: 8, result: Err("transport lost".to_string()) },
        ]
    );
    service.await_reply(0, 9);
    let (again, effects) = service.terminate("later".to_string());
    assert_eq!(again, "transport lost");
    assert_eq!(
        effects,
        vec![ServiceEffect::Reply { participant: 0, request_id: 9, result: Err("transport lost".to_string()) }]
    );
}
