use boomerang_federated::protocol::{FederateToRti, RtiToFederate};
use boomerang_federated::rti::{GrantDecision, RtiDelivery};
use boomerang_federated::topology::rti::RtiState;
use boomerang_federated::topology::{FederatedTopology, TopologyEdge};
use boomerang_federated::{EndpointId, FederateId, WireDelay, WireTag};

fn fed(id: &str) -> FederateId {
    FederateId::new(id)
}

fn endpoint(id: &str) -> EndpointId {
    EndpointId::new(id)
}

fn topology_with_edge(delay: WireDelay) -> FederatedTopology {
    FederatedTopology::with_edges(
        vec![fed("source"), fed("target")],
        vec![TopologyEdge::new(
            fed("source"),
            fed("target"),
            endpoint("source.out->target.in"),
            delay,
        )],
    )
}

#[test]
fn rti_grants_tag_when_federate_has_no_upstream_or_in_transit_messages() {
    let mut rti = RtiState::new(FederatedTopology::new(vec![fed("solo")]));

    let decision = rti.request_tag(&fed("solo"), WireTag::finite(0, 0)).unwrap();

    assert_eq!(decision, GrantDecision::Granted { tag: WireTag::finite(0, 0) });
}

#[test]
fn rti_upstream_net_at_requested_tag_blocks_tag_grant() {
    let mut rti = RtiState::new(topology_with_edge(WireDelay::from_nanos(0)));

    assert!(matches!(
        rti.request_tag(&fed("source"), WireTag::finite(0, 0)).unwrap(),
        GrantDecision::Granted { .. }
    ));

    let blocked = rti.request_tag(&fed("target"), WireTag::finite(0, 0)).unwrap();
    assert_eq!(
        blocked,
        GrantDecision::Blocked {
            requested: WireTag::finite(0, 0),
            earliest_incoming: Some(WireTag::finite(0, 0)),
        }
    );

    assert!(matches!(
        rti.request_tag(&fed("source"), WireTag::finite(0, 1))
            .unwrap(),
        GrantDecision::Granted { .. }
    ));
    assert_eq!(
        rti.request_tag(&fed("target"), WireTag::finite(0, 0)).unwrap(),
        GrantDecision::Granted { tag: WireTag::finite(0, 0) }
    );
}

#[test]
fn in_transit_message_blocks_grant_until_target_ltc_acknowledges_the_message_tag() {
    let mut rti = RtiState::new(FederatedTopology::new(vec![fed("source"), fed("target")]));

    rti.record_in_transit_message(&fed("source"), &fed("target"), WireTag::finite(5, 0))
        .unwrap();

    assert_eq!(
        rti.request_tag(&fed("target"), WireTag::finite(10, 0))
            .unwrap(),
        GrantDecision::Blocked {
            requested: WireTag::finite(10, 0),
            earliest_incoming: Some(WireTag::finite(5, 0)),
        }
    );

    rti.complete_tag(&fed("target"), WireTag::finite(5, 0))
        .unwrap();

    assert_eq!(
        rti.request_tag(&fed("target"), WireTag::finite(10, 0))
            .unwrap(),
        GrantDecision::Granted {
            tag: WireTag::finite(10, 0),
        }
    );
}

#[test]
fn ltc_can_trigger_pending_grant_after_in_transit_message_is_acknowledged() {
    let mut rti = RtiState::new(FederatedTopology::new(vec![fed("source"), fed("target")]));
    rti.record_in_transit_message(&fed("source"), &fed("target"), WireTag::finite(5, 0))
        .unwrap();
    assert!(matches!(
        rti.request_tag(&fed("target"), WireTag::finite(10, 0))
            .unwrap(),
        GrantDecision::Blocked { .. }
    ));

    let deliveries = rti
        .handle(FederateToRti::Ltc {
            federate_id: fed("target"),
            tag: WireTag::finite(5, 0),
        })
        .unwrap();

    assert_eq!(
        deliveries,
        vec![RtiDelivery {
            federate_id: fed("target"),
            message: RtiToFederate::Tag {
                tag: WireTag::finite(10, 0),
            },
        }]
    );
}

#[test]
fn rti_net_forever_unblocks_pending_downstream_without_granting_forever() {
    let mut rti = RtiState::new(topology_with_edge(WireDelay::from_nanos(0)));

    assert_eq!(
        rti.handle(FederateToRti::Net {
            federate_id: fed("target"),
            tag: WireTag::finite(10, 0),
        })
        .unwrap(),
        Vec::new()
    );

    let deliveries = rti
        .handle(FederateToRti::Net {
            federate_id: fed("source"),
            tag: WireTag::FOREVER,
        })
        .unwrap();

    assert_eq!(
        deliveries,
        vec![RtiDelivery {
            federate_id: fed("target"),
            message: RtiToFederate::Tag {
                tag: WireTag::finite(10, 0),
            },
        }]
    );
    assert_eq!(
        rti.federate_state(&fed("source")).unwrap().next_event,
        Some(WireTag::FOREVER)
    );
    assert_eq!(
        rti.federate_state(&fed("source")).unwrap().last_granted,
        None
    );
}

#[test]
fn stop_marks_federate_no_future_and_unblocks_pending_downstream() {
    let mut rti = RtiState::new(topology_with_edge(WireDelay::from_nanos(0)));

    assert_eq!(
        rti.handle(FederateToRti::Net {
            federate_id: fed("target"),
            tag: WireTag::finite(10, 0),
        })
        .unwrap(),
        Vec::new()
    );

    let deliveries = rti
        .handle(FederateToRti::Stop {
            federate_id: fed("source"),
        })
        .unwrap();

    assert_eq!(
        deliveries,
        vec![RtiDelivery {
            federate_id: fed("target"),
            message: RtiToFederate::Tag {
                tag: WireTag::finite(10, 0),
            },
        }]
    );
    let source_state = rti.federate_state(&fed("source")).unwrap();
    assert!(source_state.stopped);
    assert_eq!(source_state.next_event, Some(WireTag::FOREVER));
    assert_eq!(source_state.last_granted, None);
}

#[test]
fn rti_topology_delays_shift_earliest_incoming_message_tags() {
    let mut rti = RtiState::new(topology_with_edge(WireDelay::from_nanos(10)));

    rti.request_tag(&fed("source"), WireTag::finite(0, 0)).unwrap();

    assert_eq!(
        rti.earliest_incoming_message_tag(&fed("target")).unwrap(),
        Some(WireTag::finite(10, 0))
    );
    assert_eq!(
        rti.request_tag(&fed("target"), WireTag::finite(9, 0))
            .unwrap(),
        GrantDecision::Granted {
            tag: WireTag::finite(9, 0),
        }
    );
    assert_eq!(
        rti.request_tag(&fed("target"), WireTag::finite(10, 0))
            .unwrap(),
        GrantDecision::Blocked {
            requested: WireTag::finite(10, 0),
            earliest_incoming: Some(WireTag::finite(10, 0)),
        }
    );
}

#[test]
fn rti_msg_frames_are_recorded_as_in_transit_and_forwarded_to_the_target() {
    let mut rti = RtiState::new(FederatedTopology::new(vec![fed("source"), fed("target")]));

    let deliveries = rti
        .handle(FederateToRti::Msg {
            source: fed("source"),
            target: fed("target"),
            endpoint: endpoint("source.out->target.in"),
            tag: WireTag::finite(3, 0),
            payload: vec![1, 2, 3],
        })
        .unwrap();

    assert_eq!(
        rti.earliest_incoming_message_tag(&fed("target")).unwrap(),
        Some(WireTag::finite(3, 0))
    );
    assert_eq!(
        deliveries,
        vec![RtiDelivery {
            federate_id: fed("target"),
            message: RtiToFederate::Msg {
                source: fed("source"),
                endpoint: endpoint("source.out->target.in"),
                tag: WireTag::finite(3, 0),
                payload: vec![1, 2, 3],
            },
        }]
    );
}
