use boomerang_federated::runtime::{FederatedEndpointError, FederatedFaultState};

#[test]
fn fault_state_preserves_first_error() {
    let mut faults = FederatedFaultState::default();
    faults.record(FederatedEndpointError::codec("first"));
    faults.record(FederatedEndpointError::send("second"));
    assert!(matches!(
        faults.get(),
        Some(FederatedEndpointError::Codec(message)) if message == "first"
    ));
}

#[test]
fn empty_fault_state_reports_nothing() {
    let faults = FederatedFaultState::default();
    assert_eq!(faults.get(), None);
}

#[test]
fn send_error_is_recorded_when_first() {
    let mut faults = FederatedFaultState::default();
    faults.record(FederatedEndpointError::send("sink closed"));
    faults.record(FederatedEndpointError::PhysicalAction);
    assert_eq!(
        faults.get(),
        Some(FederatedEndpointError::Send("sink closed".to_string()))
    );
}
