use boomerang_federated::rti::coordination::{FederateLifecycle, NextEvent};
use boomerang_federated::rti::graph::{RtiEndpointParts, RtiFederateParts, RtiGraph, RtiGraphParts};
use boomerang_federated::rti::{RtiDelivery, RtiError, RtiState};
use boomerang_federated::{
    EndpointId, FederateId, FederateToRti, RtiToFederate, WireDelay, WireTag,
};

fn fed(id: &str) -> FederateId {
    FederateId::new(id)
}

fn endpoint(id: &str) -> EndpointId {
    EndpointId::new(id)
}

fn solo() -> RtiState {
    RtiState::from_graph(RtiGraph::from_lowered(RtiGraphParts {
        federates: vec![RtiFederateParts {
            id: fed("solo"),
            transitive_incoming: Vec::new(),
            affected_downstream: Vec::new(),
        }],
        endpoints: Vec::new(),
    }))
}

fn source_target(delay: u64) -> RtiState {
    RtiState::from_graph(RtiGraph::from_lowered(RtiGraphParts {
        federates: vec![
            RtiFederateParts {
                id: fed("source"),
                transitive_incoming: Vec::new(),
                affected_downstream: vec![fed("target")],
            },
            RtiFederateParts {
                id: fed("target"),
                transitive_incoming: vec![(fed("source"), WireDelay::from_nanos(delay))],
                affected_downstream: Vec::new(),
            },
        ],
        endpoints: vec![RtiEndpointParts {
            id: endpoint("source.out->target.in"),
            source: fed("source"),
            target: fed("target"),
            delay: WireDelay::from_nanos(delay),
        }],
    }))
}

fn handle(rti: &mut RtiState, id: &str, message: FederateToRti) -> Result<Vec<RtiDelivery>, RtiError> {
    rti.handle_from(&fed(id), message)
}

fn zero() -> WireTag {
    WireTag::finite(0, 0)
}

#[test]
fn grants_tag_when_federate_has_no_upstream_or_in_transit_messages() {
    let mut rti = solo();
    assert_eq!(
        handle(&mut rti, "solo", FederateToRti::Net { federate_id: fed("solo"), tag: zero() }),
        Ok(vec![RtiDelivery::new(fed("solo"), RtiToFederate::Tag { tag: zero() })])
    );
}

#[test]
fn repeated_net_is_idempotent_and_regression_is_failure_atomic() {
    let mut rti = solo();
    let requested = WireTag::finite(10, 0);
    let regressing = WireTag::finite(5, 0);

    assert_eq!(
        handle(&mut rti, "solo", FederateToRti::Net { federate_id: fed("solo"), tag: requested }),
        Ok(vec![RtiDelivery::new(fed("solo"), RtiToFederate::Tag { tag: requested })])
    );
    assert_eq!(
        handle(&mut rti, "solo", FederateToRti::Net { federate_id: fed("solo"), tag: requested }),
        Ok(Vec::new())
    );
    handle(&mut rti, "solo", FederateToRti::Ltc { federate_id: fed("solo"), tag: requested }).unwrap();
    let before = rti.coordination_of(&fed("solo")).unwrap().clone();
    assert_eq!(
        handle(&mut rti, "solo", FederateToRti::Net { federate_id: fed("solo"), tag: regressing }),
        Err(RtiError::RegressingNet {
            federate_id: fed("solo"),
            previous: requested,
            requested: regressing,
        })
    );
    let state = rti.coordination_of(&fed("solo")).unwrap();
    assert_eq!(state, &before);
    assert_eq!(state.last_granted(), Some(requested));
    assert_eq!(
        state.lifecycle(),
        FederateLifecycle::Running { next_event: NextEvent::Finite(requested) }
    );
}

#[test]
fn pending_net_can_be_revised_to_an_earlier_ungranted_tag() {
    let mut rti = source_target(0);
    let target = fed("target");
    assert_eq!(
        handle(&mut rti, "target", FederateToRti::Net { federate_id: target.clone(), tag: WireTag::finite(100, 0) }),
        Ok(Vec::new())
    );
    assert_eq!(
        handle(&mut rti, "target", FederateToRti::Net { federate_id: target.clone(), tag: WireTag::finite(10, 0) }),
        Ok(Vec::new())
    );
    let state = rti.coordination_of(&target).unwrap();
    assert_eq!(
        state.lifecycle(),
        FederateLifecycle::Running { next_event: NextEvent::Finite(WireTag::finite(10, 0)) }
    );
    assert_eq!(state.last_granted(), None);
}

#[test]
fn repeated_ltc_is_idempotent_and_regression_is_failure_atomic() {
    let mut rti = solo();
    let completed = WireTag::finite(10, 0);
    for tag in [completed, completed] {
        assert_eq!(
            handle(&mut rti, "solo", FederateToRti::Ltc { federate_id: fed("solo"), tag }),
            Ok(Vec::new())
        );
    }
    let regressing = WireTag::finite(5, 0);
    assert_eq!(
        handle(&mut rti, "solo", FederateToRti::Ltc { federate_id: fed("solo"), tag: regressing }),
        Err(RtiError::RegressingLtc {
            federate_id: fed("solo"),
            previous: completed,
            completed: regressing,
        })
    );
    assert_eq!(rti.coordination_of(&fed("solo")).unwrap().last_completed(), completed);
}

#[test]
fn net_never_is_rejected_without_mutation() {
    let mut rti = solo();
    let before = rti.coordination_of(&fed("solo")).unwrap().clone();
    assert_eq!(
        handle(&mut rti, "solo", FederateToRti::Net { federate_id: fed("solo"), tag: WireTag::NEVER }),
        Err(RtiError::InvalidTag {
            event: "NET",
            federate_id: fed("solo"),
            tag: WireTag::NEVER,
        })
    );
    assert_eq!(rti.coordination_of(&fed("solo")).unwrap(), &before);
}

#[test]
fn unknown_and_mismatched_federates_are_refused() {
    let mut rti = source_target(0);
    assert_eq!(
        handle(&mut rti, "ghost", FederateToRti::Stop { federate_id: fed("ghost") }),
        Err(RtiError::UnknownFederate(fed("ghost")))
    );
    assert!(matches!(
        handle(&mut rti, "source", FederateToRti::Net { federate_id: fed("target"), tag: zero() }),
        Err(RtiError::FederateIdentityMismatch { .. })
    ));
}

#[test]
fn upstream_net_at_requested_tag_blocks_tag_grant() {
    let mut rti = source_target(0);
    assert_eq!(
        handle(&mut rti, "source", FederateToRti::Net { federate_id: fed("source"), tag: zero() }),
        Ok(vec![RtiDelivery::new(fed("source"), RtiToFederate::Tag { tag: zero() })])
    );
    assert_eq!(
        handle(&mut rti, "target", FederateToRti::Net { federate_id: fed("target"), tag: zero() }),
        Ok(Vec::new())
    );
    let granted = handle(
        &mut rti,
        "source",
        FederateToRti::Net { federate_id: fed("source"), tag: WireTag::finite(0, 1) },
    )
    .unwrap();
    assert!(granted.contains(&RtiDelivery::new(
        fed("source"),
        RtiToFederate::Tag { tag: WireTag::finite(0, 1) }
    )));
    assert!(granted.contains(&RtiDelivery::new(fed("target"), RtiToFederate::Tag { tag: zero() })));
}

#[test]
fn msg_frames_are_recorded_as_in_transit_and_forwarded_to_the_target() {
    let mut rti = source_target(0);
    let message = || FederateToRti::Msg {
        source: fed("source"),
        target: fed("target"),
        endpoint: endpoint("source.out->target.in"),
        tag: zero(),
        payload: vec![1],
    };
    assert_eq!(
        handle(&mut rti, "source", message()),
        Ok(vec![RtiDelivery::new(
            fed("target"),
            RtiToFederate::Msg {
                source: fed("source"),
                endpoint: endpoint("source.out->target.in"),
                tag: zero(),
                payload: vec![1],
            }
        )])
    );
    handle(&mut rti, "source", message()).unwrap();
    assert_eq!(rti.coordination_of(&fed("target")).unwrap().in_transit(), vec![zero()]);

    handle(&mut rti, "target", FederateToRti::Ltc { federate_id: fed("target"), tag: zero() }).unwrap();
    assert!(rti.coordination_of(&fed("target")).unwrap().in_transit().is_empty());
}

#[test]
fn msg_on_an_unknown_route_is_refused() {
    let mut rti = source_target(0);
    assert_eq!(
        handle(
            &mut rti,
            "target",
            FederateToRti::Msg {
                source: fed("target"),
                target: fed("source"),
                endpoint: endpoint("source.out->target.in"),
                tag: zero(),
                payload: Vec::new(),
            }
        ),
        Err(RtiError::InvalidRoute {
            source_federate: fed("target"),
            target_federate: fed("source"),
            endpoint: endpoint("source.out->target.in"),
        })
    );
}
