use boomerang_federated::federate_coordination::state::CoordinationStateError;
use boomerang_federated::runner::{SchedulerOutcome, SchedulerTally, StaticFederationRunnerError};
use boomerang_federated::session::{RtiSessionEndpoint, SessionError};
use boomerang_federated::{FederateId, WireDelay, WireTag};

fn fed(id: &str) -> FederateId {
    FederateId::new(id)
}

#[test]
fn completed_schedulers_yield_their_enclaves() {
    let mut tally = SchedulerTally::new();
    assert!(!tally.record(SchedulerOutcome::Completed { federate_id: fed("a"), enclave_key: 0 }));
    assert!(!tally.record(SchedulerOutcome::Completed { federate_id: fed("b"), enclave_key: 1 }));
    assert_eq!(tally.finish(None, Ok(())), Ok(vec![(fed("a"), 0), (fed("b"), 1)]));
}

#[test]
fn first_scheduler_failure_wins_and_stops_once() {
    let mut tally = SchedulerTally::new();
    assert!(tally.record(SchedulerOutcome::RuntimeError {
        federate_id: fed("a"),
        message: "boom".to_string(),
    }));
    assert!(!tally.record(SchedulerOutcome::Panicked { what: "later".to_string() }));
    tally.record_join_panic("joined".to_string());
    assert_eq!(
        tally.finish(Some("service".to_string()), Err(SessionError::Shutdown("x".to_string()))),
        Err(StaticFederationRunnerError::SchedulerRuntime {
            federate_id: fed("a"),
            message: "boom".to_string(),
        })
    );
}

#[test]
fn closed_completion_channel_fails_the_run() {
    let mut tally = SchedulerTally::new();
    assert!(tally.record(SchedulerOutcome::ChannelClosed));
    assert_eq!(
        tally.finish(None, Ok(())),
        Err(StaticFederationRunnerError::Bridge {
            what: "scheduler completion channel closed before all schedulers terminated".to_string(),
        })
    );
}

#[test]
fn service_and_session_failures_follow_scheduler_failures() {
    let tally = SchedulerTally::new();
    assert_eq!(
        tally.finish(Some("service stopped".to_string()), Ok(())),
        Err(StaticFederationRunnerError::Bridge { what: "service stopped".to_string() })
    );
    let tally = SchedulerTally::new();
    assert_eq!(
        tally.finish(None, Err(SessionError::Shutdown("gone".to_string()))),
        Err(StaticFederationRunnerError::Session(SessionError::Shutdown("gone".to_string())))
    );
}

#[test]
fn zero_tag_and_delay_constructors() {
    assert_eq!(WireTag::zero(), WireTag::finite(0, 0));
    assert!(WireDelay::zero().is_zero());
    assert_eq!(WireDelay::zero(), WireDelay::from_nanos(0));
}

#[test]
fn coordination_errors_read_as_their_reasons() {
    assert_eq!(CoordinationStateError::UnknownParticipant(7).message(), "unknown participant 7");
    assert_eq!(
        CoordinationStateError::AlreadyFinished(2).message(),
        "participant 2 already finished"
    );
    assert_eq!(
        CoordinationStateError::NonMonotonicPublication { sequence: 3, participant: 1 }.message(),
        "non-monotonic publication sequence 3 for participant 1"
    );
    assert_eq!(
        CoordinationStateError::StaleAcquire.message(),
        "acquire does not match latest publication"
    );
    assert_eq!(CoordinationStateError::CompletionRegressed.message(), "completion regressed");
    assert_eq!(
        CoordinationStateError::Terminal("first failure".to_string()).message(),
        "first failure"
    );
}

#[test]
fn session_endpoints_hand_back_their_halves() {
    let (sink, stream, frame) = RtiSessionEndpoint::new(1u8, 2u16).into_parts();
    assert_eq!((sink, stream, frame), (1, 2, None));
}

#[test]
fn a_completion_after_a_failure_does_not_rescue_the_run() {
    let mut tally = SchedulerTally::new();
    assert!(!tally.record(SchedulerOutcome::Completed { federate_id: fed("a"), enclave_key: 0 }));
    assert!(tally.record(SchedulerOutcome::Panicked { what: "worker".to_string() }));
    assert!(!tally.record(SchedulerOutcome::Completed { federate_id: fed("b"), enclave_key: 0 }));
    assert_eq!(
        tally.finish(None, Ok(())),
        Err(StaticFederationRunnerError::SchedulerThreadPanic { what: "worker".to_string() })
    );
}

#[test]
fn a_join_panic_alone_fails_an_otherwise_complete_run() {
    let mut tally = SchedulerTally::new();
    assert!(!tally.record(SchedulerOutcome::Completed { federate_id: fed("a"), enclave_key: 0 }));
    tally.record_join_panic("joined".to_string());
    assert_eq!(
        tally.finish(None, Ok(())),
        Err(StaticFederationRunnerError::SchedulerThreadPanic { what: "joined".to_string() })
    );
}
