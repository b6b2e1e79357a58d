use boomerang_federated::conformance::{
    ConstructionError, FaultEffect, FaultScript, FaultScriptError, Failure, Lane, Member,
    OrderedFaultScheduler, Outcome, ReferenceCoordinator, Route, RouteTopology, ScheduledOutcome,
    Topology, VectorStep,
};
use boomerang_federated::WireTag;

fn zero() -> WireTag {
    WireTag::finite(0, 0)
}

#[test]
fn conformance_completion_releases_only_the_accounted_frontier() {
    let source = Member::new(0);
    let destination = Member::new(1);
    let route = Route::new(0);
    let earlier = WireTag::finite(0, 5);
    let later = WireTag::finite(0, 10);
    let mut oracle = ReferenceCoordinator::new(
        vec![source, destination],
        Topology::new(vec![(route, RouteTopology::new(source, destination))]).unwrap(),
        1,
    )
    .unwrap();

    assert_eq!(
        oracle.apply(VectorStep::publish(source, 1, Some(earlier))),
        vec![Outcome::grant(source, 1, WireTag::FOREVER)]
    );
    assert_eq!(
        oracle.apply(VectorStep::payload(source, route, earlier)),
        vec![Outcome::payload(destination, route, earlier)]
    );
    assert!(oracle
        .apply(VectorStep::complete(source, earlier))
        .is_empty());

    // A later NET does not erase B's delivered, still-accounted earlier tag.
    assert_eq!(
        oracle.apply(VectorStep::publish(source, 2, Some(later))),
        vec![Outcome::grant(source, 2, WireTag::FOREVER)]
    );
    assert!(oracle
        .apply(VectorStep::publish(
            destination,
            1,
            Some(WireTag::finite(0, 9))
        ))
        .is_empty());
    assert!(oracle
        .apply(VectorStep::complete(destination, WireTag::finite(0, 4)))
        .is_empty());

    assert_eq!(
        oracle.apply(VectorStep::complete(destination, earlier)),
        vec![Outcome::grant(destination, 1, WireTag::finite(0, 9))]
    );
}

#[test]
fn conformance_construction_rejects_route_endpoints_outside_the_member_table() {
    let member = Member::new(0);
    let missing = Member::new(1);
    let route = Route::new(0);
    let topology = Topology::new(vec![(route, RouteTopology::new(member, missing))]).unwrap();

    assert!(matches!(
        ReferenceCoordinator::new(vec![member], topology, 1),
        Err(ConstructionError::RouteEndpoint {
            route: actual_route,
            member: actual_member,
        })
        if actual_route == route && actual_member == missing
    ));
}

#[test]
fn tests_construction_rejects_route_endpoints_outside_the_member_table() {
    let member = Member::new(0);
    let missing = Member::new(1);
    let route = Route::new(0);
    let topology = Topology::new(vec![(route, RouteTopology::new(member, missing))]).unwrap();

    assert!(matches!(
        ReferenceCoordinator::new(vec![member], topology, 1),
        Err(ConstructionError::RouteEndpoint {
            route: actual_route,
            member: actual_member,
        })
        if actual_route == route && actual_member == missing
    ));
}

#[test]
fn conformance_terminal_failure_retains_the_first_distinct_invalid_step() {
    let member = Member::new(0);
    let mut oracle =
        ReferenceCoordinator::new(vec![member], Topology::new(vec![]).unwrap(), 1).unwrap();

    assert_eq!(
        oracle.apply(VectorStep::payload(member, Route::new(0), zero())),
        vec![Outcome::Failed {
            member,
            failure: Failure::UnknownRoute,
        }]
    );
    assert_eq!(
        oracle.apply(VectorStep::complete(member, WireTag::NEVER)),
        vec![Outcome::Failed {
            member,
            failure: Failure::UnknownRoute,
        }]
    );
}

#[test]
fn delayed_first_frame_prevents_later_frame_overtaking() {
    let lane = Lane::new(0);
    let source = Member::new(0);
    let route = Route::new(0);
    let first = VectorStep::payload(source, route, zero());
    let later = VectorStep::payload(source, route, WireTag::finite(0, 1));
    let script = FaultScript::new(vec![FaultEffect::delay(0, 0, 2)]).unwrap();
    let mut scheduler = OrderedFaultScheduler::new(vec![lane], script).unwrap();

    assert!(scheduler.submit(0, lane, first).is_empty());
    assert!(scheduler.submit(0, lane, later).is_empty());
    assert!(scheduler.advance(1).is_empty());
    assert_eq!(
        scheduler.advance(2),
        vec![
            ScheduledOutcome::delivered(lane, first),
            ScheduledOutcome::delivered(lane, later),
        ]
    );
}

#[test]
fn corruption_retains_exactly_one_terminal_failure() {
    let lane = Lane::new(0);
    let source = Member::new(0);
    let route = Route::new(0);
    let first = VectorStep::payload(source, route, zero());
    let later = VectorStep::payload(source, route, WireTag::finite(0, 1));
    let script = FaultScript::new(vec![FaultEffect::corrupt(0, 0)]).unwrap();
    let mut scheduler = OrderedFaultScheduler::new(vec![lane], script).unwrap();

    assert_eq!(
        scheduler.submit(0, lane, first),
        vec![ScheduledOutcome::failed(Failure::Corrupted)]
    );
    assert_eq!(
        scheduler.submit(1, lane, later),
        vec![ScheduledOutcome::failed(Failure::Corrupted)]
    );
}

#[test]
fn zero_delay_fault_is_rejected_as_excluded_configuration() {
    assert_eq!(
        FaultScript::new(vec![FaultEffect::delay(0, 0, 0)]),
        Err(FaultScriptError::ZeroDelay {
            ordinal: 0,
            tick: 0,
        })
    );
}

#[test]
fn fault_actions_do_not_duplicate_delivery_and_retain_declared_failures() {
    let lane = Lane::new(0);
    let source = Member::new(0);
    let step = VectorStep::complete(source, zero());

    for (effect, expected) in [
        (
            FaultEffect::drop(0, 0),
            ScheduledOutcome::failed(Failure::Lost),
        ),
        (
            FaultEffect::duplicate(0, 0),
            ScheduledOutcome::delivered(lane, step),
        ),
        (
            FaultEffect::fail(0, 0, Failure::Publication),
            ScheduledOutcome::failed(Failure::Publication),
        ),
    ] {
        let mut scheduler =
            OrderedFaultScheduler::new(vec![lane], FaultScript::new(vec![effect]).unwrap())
                .unwrap();
        assert_eq!(scheduler.submit(0, lane, step), vec![expected]);
        match expected {
            ScheduledOutcome::Delivered { .. } => assert!(scheduler.advance(1).is_empty()),
            ScheduledOutcome::Failed { .. } => assert_eq!(scheduler.advance(1), vec![expected]),
        }
    }
}

#[test]
fn invalid_lane_and_regressing_tick_become_retained_failures() {
    let lane = Lane::new(0);
    let unknown_lane = Lane::new(1);
    let source = Member::new(0);
    let step = VectorStep::complete(source, zero());
    let mut invalid_lane =
        OrderedFaultScheduler::new(vec![lane], FaultScript::new(vec![]).unwrap()).unwrap();
    assert_eq!(
        invalid_lane.submit(0, unknown_lane, step),
        vec![ScheduledOutcome::failed(Failure::UnknownLane)]
    );

    let mut regressing_tick =
        OrderedFaultScheduler::new(vec![lane], FaultScript::new(vec![]).unwrap()).unwrap();
    assert_eq!(
        regressing_tick.submit(1, lane, step),
        vec![ScheduledOutcome::delivered(lane, step)]
    );
    assert_eq!(
        regressing_tick.advance(0),
        vec![ScheduledOutcome::failed(Failure::TickRegression)]
    );
}

#[test]
fn construction_rejects_non_dense_members_routes_and_lanes() {
    assert!(matches!(
        ReferenceCoordinator::new(vec![Member::new(1)], Topology::new(vec![]).unwrap(), 1),
        Err(ConstructionError::MemberKey { member }) if member == Member::new(1)
    ));
    assert_eq!(
        Topology::new(vec![(
            Route::new(3),
            RouteTopology::new(Member::new(0), Member::new(0))
        )]),
        Err(ConstructionError::RouteKey {
            route: Route::new(3)
        })
    );
    assert!(matches!(
        OrderedFaultScheduler::new(vec![Lane::new(0), Lane::new(0)], FaultScript::new(vec![]).unwrap()),
        Err(ConstructionError::LaneKey { lane }) if lane == Lane::new(0)
    ));
}

#[test]
fn fault_script_rejects_duplicate_and_descending_positions() {
    assert_eq!(
        FaultScript::new(vec![FaultEffect::drop(1, 2), FaultEffect::corrupt(1, 2)]),
        Err(FaultScriptError::Duplicate { ordinal: 1, tick: 2 })
    );
    assert_eq!(
        FaultScript::new(vec![FaultEffect::drop(2, 0), FaultEffect::drop(1, 5)]),
        Err(FaultScriptError::Order {
            previous: (2, 0),
            current: (1, 5)
        })
    );
    assert!(FaultScript::new(vec![FaultEffect::drop(1, 5), FaultEffect::drop(2, 0)]).is_ok());
}

#[test]
fn in_transit_capacity_and_stop_failures_are_retained() {
    let source = Member::new(0);
    let destination = Member::new(1);
    let route = Route::new(0);
    let mut oracle = ReferenceCoordinator::new(
        vec![source, destination],
        Topology::new(vec![(route, RouteTopology::new(source, destination))]).unwrap(),
        1,
    )
    .unwrap();
    assert_eq!(
        oracle.apply(VectorStep::payload(source, route, WireTag::finite(1, 0))),
        vec![Outcome::payload(destination, route, WireTag::finite(1, 0))]
    );
    assert_eq!(
        oracle.apply(VectorStep::payload(source, route, WireTag::finite(2, 0))),
        vec![Outcome::Failed {
            member: source,
            failure: Failure::InTransitCapacity
        }]
    );
    assert_eq!(
        oracle.apply(VectorStep::Stop { member: destination }),
        vec![Outcome::Failed {
            member: destination,
            failure: Failure::InTransitCapacity
        }]
    );

    let mut stopping = ReferenceCoordinator::new(vec![source], Topology::new(vec![]).unwrap(), 1).unwrap();
    assert_eq!(
        stopping.apply(VectorStep::Stop { member: source }),
        vec![Outcome::Stopped { member: source }]
    );
    assert_eq!(
        stopping.apply(VectorStep::Stop { member: source }),
        vec![Outcome::Failed {
            member: source,
            failure: Failure::Stopped
        }]
    );
}
