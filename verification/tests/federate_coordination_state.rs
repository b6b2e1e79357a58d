use boomerang_federated::federate_coordination::{
    CoordinationAction, CoordinationWake, EnclaveKey, FederateCoordinationLayout,
    FederateCoordinationState, FrontierPublication, LogicalTimeFrontier, Tag,
};
use boomerang_federated::WireTag;

fn key(value: usize) -> EnclaveKey {
    value
}
fn candidate(tag: Tag) -> FrontierPublication {
    FrontierPublication {
        frontier: LogicalTimeFrontier::Candidate(tag),
        consumed_wake: None,
    }
}

fn publication(
    frontier: LogicalTimeFrontier,
    consumed_wake: Option<CoordinationWake>,
) -> FrontierPublication {
    FrontierPublication {
        frontier,
        consumed_wake,
    }
}

fn wake_for(actions: &[CoordinationAction], participant: EnclaveKey) -> CoordinationWake {
    actions
        .iter()
        .find_map(|action| match action {
            CoordinationAction::WakeParticipant {
                participant: observed,
                tag,
                observation_epoch,
            } if *observed == participant => Some(CoordinationWake {
                tag: *tag,
                observation_epoch: *observation_epoch,
            }),
            _ => None,
        })
        .expect("participant wake")
}

fn has_ltc(actions: &[CoordinationAction], expected: Tag) -> bool {
    actions.iter().any(
        |action| matches!(action, CoordinationAction::ReportLtc { tag } if *tag == expected),
    )
}

#[test]
fn deterministic_minimum_candidate_across_input_reordering() {
    let mut state = FederateCoordinationState::new(
        FederateCoordinationLayout::new(vec![key(1), key(0)]),
    );
    assert!(state
        .publish(key(1), 1, candidate(Tag::FOREVER))
        .unwrap()
        .is_empty());
    assert_eq!(
        state.publish(key(0), 1, candidate(WireTag::finite(0, 0))).unwrap(),
        vec![CoordinationAction::RequestNet { tag: WireTag::finite(0, 0) }]
    );
}

#[test]
fn all_idle_emits_no_finite_net_and_remains_live() {
    let mut state = FederateCoordinationState::new(
        FederateCoordinationLayout::new(vec![key(0), key(1)]),
    );
    for participant in [key(0), key(1)] {
        assert!(state
            .publish(
                participant,
                1,
                FrontierPublication {
                    frontier: LogicalTimeFrontier::Idle,
                    consumed_wake: None
                }
            )
            .unwrap()
            .is_empty());
    }
    assert!(!state.is_stopped());
}

#[test]
fn newer_publication_supersedes_older_acquire() {
    let mut state = FederateCoordinationState::new(
        FederateCoordinationLayout::new(vec![key(0)]),
    );
    state.publish(key(0), 1, candidate(Tag::FOREVER)).unwrap();
    state.acquire(key(0), 7, 1, Tag::FOREVER).unwrap();
    let actions = state.publish(key(0), 2, candidate(WireTag::finite(0, 0))).unwrap();
    assert!(
        matches!(actions.as_slice(), [CoordinationAction::FailRequest { request_id: 7, .. }, CoordinationAction::RequestNet { tag }] if *tag == WireTag::finite(0, 0))
    );
}

#[test]
fn exact_wake_acknowledgement_and_fixed_point_invalidation() {
    let mut state = FederateCoordinationState::new(
        FederateCoordinationLayout::new(vec![key(0), key(1)]),
    );
    state.publish(key(0), 1, candidate(WireTag::finite(0, 0))).unwrap();
    state.publish(key(1), 1, candidate(WireTag::finite(0, 0))).unwrap();
    let actions = state.grant(WireTag::finite(0, 0));
    let epoch = actions
        .iter()
        .find_map(|action| match action {
            CoordinationAction::WakeParticipant {
                observation_epoch, ..
            } => Some(*observation_epoch),
            _ => None,
        })
        .unwrap();
    state
        .publish(
            key(1),
            2,
            FrontierPublication {
                frontier: LogicalTimeFrontier::Idle,
                consumed_wake: Some(CoordinationWake {
                    tag: WireTag::finite(0, 0),
                    observation_epoch: epoch,
                }),
            },
        )
        .unwrap();
    let invalidated = state.publish(key(0), 2, candidate(Tag::FOREVER)).unwrap();
    assert_eq!(
        invalidated
            .iter()
            .filter(|action| matches!(action, CoordinationAction::WakeParticipant { .. }))
            .count(),
        2
    );
}

#[test]
fn final_finished_emits_one_stop() {
    let mut state = FederateCoordinationState::new(
        FederateCoordinationLayout::new(vec![key(0)]),
    );
    assert_eq!(
        state
            .publish(
                key(0),
                1,
                FrontierPublication {
                    frontier: LogicalTimeFrontier::Finished,
                    consumed_wake: None
                }
            )
            .unwrap(),
        vec![CoordinationAction::SendStop]
    );
    assert!(state
        .publish(
            key(0),
            2,
            FrontierPublication {
                frontier: LogicalTimeFrontier::Finished,
                consumed_wake: None
            }
        )
        .unwrap()
        .is_empty());
}

#[test]
fn candidate_at_round_tag_does_not_certify_completion() {
    let mut state = FederateCoordinationState::new(
        FederateCoordinationLayout::new(vec![key(0)]),
    );
    state.publish(key(0), 1, candidate(WireTag::finite(0, 0))).unwrap();
    let wake = state
        .grant(WireTag::finite(0, 0))
        .into_iter()
        .find_map(|action| match action {
            CoordinationAction::WakeParticipant {
                tag,
                observation_epoch,
                ..
            } => Some(CoordinationWake {
                tag,
                observation_epoch,
            }),
            _ => None,
        })
        .unwrap();
    let actions = state
        .publish(
            key(0),
            2,
            FrontierPublication {
                frontier: LogicalTimeFrontier::Candidate(WireTag::finite(0, 0)),
                consumed_wake: Some(wake),
            },
        )
        .unwrap();
    assert!(!actions
        .iter()
        .any(|action| matches!(action, CoordinationAction::ReportLtc { .. })));
}

#[test]
fn lower_candidate_revises_higher_advertised_net() {
    let later = WireTag::finite(10000000, 0);
    let mut state = FederateCoordinationState::new(
        FederateCoordinationLayout::new(vec![key(0), key(1)]),
    );
    state.publish(key(0), 1, candidate(later)).unwrap();
    assert_eq!(
        state.publish(key(1), 1, candidate(later)).unwrap(),
        vec![CoordinationAction::RequestNet { tag: later }]
    );
    assert_eq!(
        state.publish(key(1), 2, candidate(WireTag::finite(0, 0))).unwrap(),
        vec![CoordinationAction::RequestNet { tag: WireTag::finite(0, 0) }]
    );
}

#[test]
fn stale_publication_is_rejected_and_finished_is_idempotent() {
    let mut state = FederateCoordinationState::new(
        FederateCoordinationLayout::new(vec![key(0), key(1)]),
    );
    state.publish(key(0), 2, candidate(WireTag::finite(0, 0))).unwrap();
    assert!(state.publish(key(0), 2, candidate(WireTag::finite(0, 0))).is_err());
    state
        .publish(key(0), 3, publication(LogicalTimeFrontier::Finished, None))
        .unwrap();
    assert!(state
        .publish(key(0), 1, publication(LogicalTimeFrontier::Finished, None),)
        .unwrap()
        .is_empty());
}

#[test]
fn higher_grant_opens_round_for_current_minimum_and_caches_coverage() {
    let later = WireTag::finite(10000000, 0);
    let mut state = FederateCoordinationState::new(
        FederateCoordinationLayout::new(vec![key(0), key(1)]),
    );
    state.publish(key(0), 1, candidate(WireTag::finite(0, 0))).unwrap();
    state.publish(key(1), 1, candidate(later)).unwrap();
    state.acquire(key(0), 1, 1, WireTag::finite(0, 0)).unwrap();
    let actions = state.grant(later);
    assert!(matches!(
        actions.first(),
        Some(CoordinationAction::ReleaseAcquire { tag, .. }) if *tag == WireTag::finite(0, 0)
    ));
    assert_eq!(wake_for(&actions, key(0)).tag, WireTag::finite(0, 0));
    assert!(matches!(
        state.acquire(key(1), 2, 1, later).unwrap().as_slice(),
        [CoordinationAction::ReleaseAcquire { tag, .. }] if *tag == later
    ));
}

#[test]
fn cached_grant_opens_round_when_frontier_moves_within_coverage() {
    let earlier = WireTag::finite(0, 1);
    let later = WireTag::finite(1000000000, 0);
    let participant = key(0);
    let mut state = FederateCoordinationState::new(
        FederateCoordinationLayout::new(vec![participant]),
    );

    state.publish(participant, 1, candidate(later)).unwrap();
    state.acquire(participant, 1, 1, later).unwrap();
    assert!(state.grant(earlier).is_empty());

    let actions = state.publish(participant, 2, candidate(earlier)).unwrap();
    let wake = wake_for(&actions, participant);
    assert!(actions.iter().any(|action| matches!(
        action,
        CoordinationAction::FailRequest { request_id: 1, .. }
    )));

    assert!(matches!(
        state
            .acquire(participant, 2, 2, earlier)
            .unwrap()
            .as_slice(),
        [CoordinationAction::ReleaseAcquire { request_id: 2, .. }]
    ));
    state
        .publish(
            participant,
            3,
            publication(LogicalTimeFrontier::Candidate(earlier), Some(wake)),
        )
        .unwrap();

    let completion = state.complete(participant, 3, earlier).unwrap();
    assert!(has_ltc(&completion, earlier));
}

#[test]
fn repeated_candidate_after_ltc_does_not_reopen_cached_round() {
    let participant = key(0);
    let mut state = FederateCoordinationState::new(
        FederateCoordinationLayout::new(vec![participant]),
    );

    state.publish(participant, 1, candidate(WireTag::finite(0, 0))).unwrap();
    state.grant(WireTag::finite(0, 0));
    assert!(has_ltc(
        &state.complete(participant, 1, WireTag::finite(0, 0)).unwrap(),
        WireTag::finite(0, 0)
    ));

    let repeated = state.publish(participant, 2, candidate(WireTag::finite(0, 0))).unwrap();
    assert!(repeated.is_empty());
}

#[test]
fn pre_round_idle_and_wrong_wake_do_not_certify_quiescence() {
    let mut state = FederateCoordinationState::new(
        FederateCoordinationLayout::new(vec![key(0), key(1)]),
    );
    state
        .publish(key(0), 1, publication(LogicalTimeFrontier::Idle, None))
        .unwrap();
    state.publish(key(1), 1, candidate(WireTag::finite(0, 0))).unwrap();
    let wakes = state.grant(WireTag::finite(0, 0));
    let wake = wake_for(&wakes, key(1));
    assert!(!has_ltc(
        &state
            .publish(
                key(1),
                2,
                publication(
                    LogicalTimeFrontier::Idle,
                    Some(CoordinationWake {
                        tag: wake.tag,
                        observation_epoch: wake.observation_epoch.wrapping_add(1),
                    }),
                ),
            )
            .unwrap(),
        WireTag::finite(0, 0)
    ));
    assert!(!has_ltc(
        &state
            .publish(
                key(0),
                2,
                publication(LogicalTimeFrontier::Idle, Some(wake_for(&wakes, key(0)))),
            )
            .unwrap(),
        WireTag::finite(0, 0)
    ));
}

#[test]
fn every_live_participant_must_certify_same_epoch_before_ltc() {
    let mut state = FederateCoordinationState::new(
        FederateCoordinationLayout::new(vec![key(0), key(1)]),
    );
    state.publish(key(0), 1, candidate(WireTag::finite(0, 0))).unwrap();
    state.publish(key(1), 1, candidate(WireTag::finite(0, 0))).unwrap();
    let wakes = state.grant(WireTag::finite(0, 0));
    assert!(!has_ltc(
        &state
            .complete(key(0), 1, WireTag::finite(0, 0))
            .expect("first participant completion"),
        WireTag::finite(0, 0)
    ));
    let invalidated = state
        .publish(
            key(1),
            2,
            publication(LogicalTimeFrontier::Idle, Some(wake_for(&wakes, key(1)))),
        )
        .unwrap();
    assert!(!has_ltc(&invalidated, WireTag::finite(0, 0)));
    state.complete(key(0), 1, WireTag::finite(0, 0)).unwrap();
    assert!(has_ltc(
        &state
            .publish(
                key(1),
                3,
                publication(
                    LogicalTimeFrontier::Idle,
                    Some(wake_for(&invalidated, key(1))),
                ),
            )
            .unwrap(),
        WireTag::finite(0, 0)
    ));
}

#[test]
fn completion_after_peer_certificate_invalidates_and_rewakes_all() {
    let mut state = FederateCoordinationState::new(
        FederateCoordinationLayout::new(vec![key(0), key(1)]),
    );
    state.publish(key(0), 1, candidate(WireTag::finite(0, 0))).unwrap();
    state.publish(key(1), 1, candidate(WireTag::finite(0, 0))).unwrap();
    let wakes = state.grant(WireTag::finite(0, 0));
    state
        .publish(
            key(1),
            2,
            publication(LogicalTimeFrontier::Idle, Some(wake_for(&wakes, key(1)))),
        )
        .unwrap();

    let invalidated = state.complete(key(0), 1, WireTag::finite(0, 0)).unwrap();

    assert_eq!(
        invalidated
            .iter()
            .filter(|action| matches!(action, CoordinationAction::WakeParticipant { .. }))
            .count(),
        2
    );
    assert!(!has_ltc(&invalidated, WireTag::finite(0, 0)));
}

#[test]
fn frontier_advance_after_peer_certificate_invalidates_epoch() {
    let mut state = FederateCoordinationState::new(
        FederateCoordinationLayout::new(vec![key(0), key(1)]),
    );
    state.publish(key(0), 1, candidate(WireTag::finite(0, 0))).unwrap();
    state.publish(key(1), 1, candidate(WireTag::finite(0, 0))).unwrap();
    let wakes = state.grant(WireTag::finite(0, 0));
    state
        .publish(
            key(1),
            2,
            publication(LogicalTimeFrontier::Idle, Some(wake_for(&wakes, key(1)))),
        )
        .unwrap();

    let invalidated = state
        .publish(key(0), 2, publication(LogicalTimeFrontier::Idle, None))
        .unwrap();

    assert_eq!(wake_for(&invalidated, key(0)).observation_epoch, 2);
    assert_eq!(wake_for(&invalidated, key(1)).observation_epoch, 2);
}

#[test]
fn candidate_revision_after_peer_certificate_invalidates_epoch() {
    let later = WireTag::finite(1000000, 0);
    let mut state = FederateCoordinationState::new(
        FederateCoordinationLayout::new(vec![key(0), key(1)]),
    );
    state.publish(key(0), 1, candidate(WireTag::finite(0, 0))).unwrap();
    state.publish(key(1), 1, candidate(WireTag::finite(0, 0))).unwrap();
    let wakes = state.grant(WireTag::finite(0, 0));
    state
        .publish(
            key(1),
            2,
            publication(LogicalTimeFrontier::Idle, Some(wake_for(&wakes, key(1)))),
        )
        .unwrap();

    let invalidated = state.publish(key(0), 2, candidate(later)).unwrap();

    assert_eq!(
        invalidated
            .iter()
            .filter(|action| matches!(action, CoordinationAction::WakeParticipant { .. }))
            .count(),
        2
    );
    assert!(!has_ltc(&invalidated, WireTag::finite(0, 0)));
}

#[test]
fn zero_and_positive_delay_participants_reach_fixed_points() {
    for round in [
        WireTag::finite(0, 0),
        WireTag::finite(5000000, 0),
    ] {
        let mut state = FederateCoordinationState::new(
            FederateCoordinationLayout::new(vec![key(0), key(1)]),
        );
        state.publish(key(0), 1, candidate(round)).unwrap();
        state.publish(key(1), 1, candidate(round)).unwrap();
        state.grant(round);
        assert!(!has_ltc(&state.complete(key(0), 1, round).unwrap(), round));
        assert!(!has_ltc(&state.complete(key(1), 2, round).unwrap(), round));
        assert!(has_ltc(&state.complete(key(0), 3, round).unwrap(), round));
    }
}

#[test]
fn finished_participant_leaves_later_frontier_and_round_calculations() {
    let later = WireTag::finite(1000000, 0);
    let mut state = FederateCoordinationState::new(
        FederateCoordinationLayout::new(vec![key(0), key(1)]),
    );
    state.publish(key(0), 1, candidate(WireTag::finite(0, 0))).unwrap();
    state.publish(key(1), 1, candidate(later)).unwrap();
    let actions = state
        .publish(key(0), 2, publication(LogicalTimeFrontier::Finished, None))
        .unwrap();
    assert!(actions.iter().any(
        |action| matches!(action, CoordinationAction::RequestNet { tag } if *tag == later)
    ));
    let wakes = state.grant(later);
    assert!(wakes.iter().all(|action| !matches!(
        action,
        CoordinationAction::WakeParticipant { participant, .. } if *participant == key(0)
    )));
}

#[test]
fn finished_invalidator_rewakes_only_remaining_live_participants() {
    let mut state = FederateCoordinationState::new(
        FederateCoordinationLayout::new(vec![key(0), key(1)]),
    );
    state.publish(key(0), 1, candidate(WireTag::finite(0, 0))).unwrap();
    state.publish(key(1), 1, candidate(WireTag::finite(0, 0))).unwrap();
    let wakes = state.grant(WireTag::finite(0, 0));
    state
        .publish(
            key(1),
            2,
            publication(LogicalTimeFrontier::Idle, Some(wake_for(&wakes, key(1)))),
        )
        .unwrap();

    let invalidated = state
        .publish(key(0), 2, publication(LogicalTimeFrontier::Finished, None))
        .unwrap();

    assert!(invalidated.iter().any(|action| matches!(
        action,
        CoordinationAction::WakeParticipant { participant, .. } if *participant == key(1)
    )));
    assert!(invalidated.iter().all(|action| !matches!(
        action,
        CoordinationAction::WakeParticipant { participant, .. } if *participant == key(0)
    )));
}

#[test]
fn superseded_acquire_ignores_late_grant_release() {
    let later = WireTag::finite(1000000, 0);
    let mut state = FederateCoordinationState::new(
        FederateCoordinationLayout::new(vec![key(0)]),
    );
    state.publish(key(0), 1, candidate(later)).unwrap();
    state.acquire(key(0), 7, 1, later).unwrap();
    state.publish(key(0), 2, candidate(WireTag::finite(0, 0))).unwrap();
    assert!(!state.grant(later).iter().any(|action| matches!(
        action,
        CoordinationAction::ReleaseAcquire { request_id: 7, .. }
    )));
}

#[test]
fn next_net_waits_until_current_round_ltc() {
    let later = WireTag::finite(10000000, 0);
    let mut state = FederateCoordinationState::new(
        FederateCoordinationLayout::new(vec![key(0), key(1)]),
    );
    state.publish(key(0), 1, candidate(WireTag::finite(0, 0))).unwrap();
    state.publish(key(1), 1, candidate(WireTag::finite(0, 0))).unwrap();
    let first_wakes = state.grant(WireTag::finite(0, 0));
    let first_advance = state
        .publish(
            key(0),
            2,
            publication(
                LogicalTimeFrontier::Candidate(later),
                Some(wake_for(&first_wakes, key(0))),
            ),
        )
        .unwrap();
    let invalidated = state
        .publish(
            key(1),
            2,
            publication(
                LogicalTimeFrontier::Candidate(later),
                Some(wake_for(&first_wakes, key(1))),
            ),
        )
        .unwrap();
    assert!(first_advance.iter().chain(&invalidated).all(|action| {
        !matches!(action, CoordinationAction::RequestNet { tag } if *tag == later)
    }));
    let second_wake_0 = wake_for(&invalidated, key(0));
    let second_wake_1 = wake_for(&invalidated, key(1));
    let first_certificate = state
        .publish(
            key(0),
            3,
            publication(LogicalTimeFrontier::Candidate(later), Some(second_wake_0)),
        )
        .unwrap();
    assert!(first_certificate.is_empty());

    let fixed_point = state
        .publish(
            key(1),
            3,
            publication(LogicalTimeFrontier::Candidate(later), Some(second_wake_1)),
        )
        .unwrap();

    assert!(matches!(
        fixed_point.as_slice(),
        [
            CoordinationAction::ReportLtc { tag: completed },
            CoordinationAction::RequestNet { tag: requested },
        ] if *completed == WireTag::finite(0, 0) && *requested == later
    ));
}

#[test]
fn terminal_failure_fans_out_pending_requests_and_preserves_first_error() {
    let participant = key(0);
    let mut state = FederateCoordinationState::new(
        FederateCoordinationLayout::new(vec![participant]),
    );
    state.publish(participant, 1, candidate(WireTag::finite(0, 0))).unwrap();
    state.acquire(participant, 11, 1, WireTag::finite(0, 0)).unwrap();
    state.complete(participant, 12, WireTag::finite(0, 0)).unwrap();

    let actions = state.fail("first failure".into());
    assert_eq!(state.terminal_error(), Some("first failure"));
    assert!(actions.iter().any(|action| matches!(
        action,
        CoordinationAction::FailRequest { request_id: 11, reason, .. }
            if reason == "first failure"
    )));
    assert!(actions.iter().any(|action| matches!(
        action,
        CoordinationAction::FailRequest { request_id: 12, reason, .. }
            if reason == "first failure"
    )));
    assert!(actions
        .iter()
        .any(|action| matches!(action, CoordinationAction::SendStop)));

    assert!(state.fail("second failure".into()).is_empty());
    assert_eq!(state.terminal_error(), Some("first failure"));
}

#[test]
fn net_is_requested_once_every_live_participant_published_and_not_again_for_the_same_tag() {
    let mut state = FederateCoordinationState::new(
        FederateCoordinationLayout::new(vec![key(0), key(1)]),
    );
    let tag = WireTag::finite(3, 0);
    assert!(state.publish(key(0), 1, candidate(tag)).unwrap().is_empty());
    assert_eq!(
        state.publish(key(1), 1, candidate(WireTag::finite(4, 0))).unwrap(),
        vec![CoordinationAction::RequestNet { tag }]
    );
    assert!(state
        .publish(key(1), 2, candidate(WireTag::finite(5, 0)))
        .unwrap()
        .iter()
        .all(|action| !matches!(action, CoordinationAction::RequestNet { .. })));
    assert!(!state.is_stopped());
}
