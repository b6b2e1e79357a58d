//! The Federate-local coordination state machine: frontier publications, acquisitions,
//! completions and RTI grants in; NET requests, wake-ups, releases and LTC reports out.
use vstd::prelude::*;
use vstd::string::StringExecFns;

use super::{
    keys_increasing, CoordinationWake, EnclaveKey, FederateCoordinationLayout,
    FrontierPublication, LogicalTimeFrontier, Tag,
};
use crate::protocol::{tag_le, tag_lt, tag_max, tag_min, WireTag};
use crate::text::{decimal, render_unsigned};

verus! {

/// An effect the coordination state asks its driver to perform.
#[derive(Debug, Clone, PartialEq, Eq)]
pub enum CoordinationAction {
    RequestNet { tag: Tag },
    WakeParticipant { participant: EnclaveKey, tag: Tag, observation_epoch: u64 },
    ReleaseAcquire { participant: EnclaveKey, request_id: u64, publication_sequence: u64, tag: Tag },
    ReleaseCompletion { participant: EnclaveKey, request_id: u64 },
    ReportLtc { tag: Tag },
    FailRequest { participant: EnclaveKey, request_id: u64, reason: String },
    SendStop,
}

/// Mathematical view of a [`CoordinationAction`].
pub enum ActionView {
    RequestNet { tag: Tag },
    WakeParticipant { participant: EnclaveKey, tag: Tag, observation_epoch: u64 },
    ReleaseAcquire { participant: EnclaveKey, request_id: u64, publication_sequence: u64, tag: Tag },
    ReleaseCompletion { participant: EnclaveKey, request_id: u64 },
    ReportLtc { tag: Tag },
    FailRequest { participant: EnclaveKey, request_id: u64, reason: Seq<char> },
    SendStop,
}

impl View for CoordinationAction {
    type V = ActionView;

    open spec fn view(&self) -> ActionView {
        match self {
            CoordinationAction::RequestNet { tag } => ActionView::RequestNet { tag: *tag },
            CoordinationAction::WakeParticipant { participant, tag, observation_epoch } =>
                ActionView::WakeParticipant {
                    participant: *participant,
                    tag: *tag,
                    observation_epoch: *observation_epoch,
                },
            CoordinationAction::ReleaseAcquire { participant, request_id, publication_sequence, tag } =>
                ActionView::ReleaseAcquire {
                    participant: *participant,
                    request_id: *request_id,
                    publication_sequence: *publication_sequence,
                    tag: *tag,
                },
            CoordinationAction::ReleaseCompletion { participant, request_id } =>
                ActionView::ReleaseCompletion { participant: *participant, request_id: *request_id },
            CoordinationAction::ReportLtc { tag } => ActionView::ReportLtc { tag: *tag },
            CoordinationAction::FailRequest { participant, request_id, reason } =>
                ActionView::FailRequest {
                    participant: *participant,
                    request_id: *request_id,
                    reason: reason@,
                },
            CoordinationAction::SendStop => ActionView::SendStop,
        }
    }
}

/// The views of a sequence of actions.
pub open spec fn actions_view(a: Seq<CoordinationAction>) -> Seq<ActionView> {
    a.map_values(|x: CoordinationAction| x@)
}

/// Why an operation on the coordination state was refused.
#[derive(Debug, Clone, PartialEq, Eq)]
pub enum CoordinationStateError {
    /// The state already failed; carries the first failure reason.
    Terminal(String),
    /// The participant is not part of the layout.
    UnknownParticipant(EnclaveKey),
    /// The participant already published `Finished`.
    AlreadyFinished(EnclaveKey),
    /// The publication sequence does not exceed the participant's latest one.
    NonMonotonicPublication { sequence: u64, participant: EnclaveKey },
    /// The acquisition does not name the participant's latest publication.
    StaleAcquire,
    /// The completion tag lies before the participant's latest completion.
    CompletionRegressed,
}

/// Mathematical view of a [`CoordinationStateError`].
pub enum ErrorView {
    Terminal(Seq<char>),
    UnknownParticipant(EnclaveKey),
    AlreadyFinished(EnclaveKey),
    NonMonotonicPublication { sequence: u64, participant: EnclaveKey },
    StaleAcquire,
    CompletionRegressed,
}

impl View for CoordinationStateError {
    type V = ErrorView;

    open spec fn view(&self) -> ErrorView {
        match self {
            CoordinationStateError::Terminal(e) => ErrorView::Terminal(e@),
            CoordinationStateError::UnknownParticipant(p) => ErrorView::UnknownParticipant(*p),
            CoordinationStateError::AlreadyFinished(p) => ErrorView::AlreadyFinished(*p),
            CoordinationStateError::NonMonotonicPublication { sequence, participant } =>
                ErrorView::NonMonotonicPublication { sequence: *sequence, participant: *participant },
            CoordinationStateError::StaleAcquire => ErrorView::StaleAcquire,
            CoordinationStateError::CompletionRegressed => ErrorView::CompletionRegressed,
        }
    }
}

/// How a coordination error reads; participants read as their key's decimal number.
pub open spec fn coordination_error_text(e: ErrorView) -> Seq<char> {
    match e {
        ErrorView::Terminal(reason) => reason,
        ErrorView::UnknownParticipant(p) => "unknown participant "@ + decimal(p as nat),
        ErrorView::AlreadyFinished(p) => "participant "@ + decimal(p as nat) + " already finished"@,
        ErrorView::NonMonotonicPublication { sequence, participant } => "non-monotonic publication sequence "@
            + decimal(sequence as nat) + " for participant "@ + decimal(participant as nat),
        ErrorView::StaleAcquire => "acquire does not match latest publication"@,
        ErrorView::CompletionRegressed => "completion regressed"@,
    }
}

impl CoordinationStateError {
    /// How this error reads.
    pub fn message(&self) -> (s: String)
        ensures
            s@ == coordination_error_text(self@),
    {
        match self {
            CoordinationStateError::Terminal(reason) => reason.clone(),
            CoordinationStateError::UnknownParticipant(p) => {
                let mut s = "unknown participant ".to_owned();
                s.append(render_unsigned(*p as u128).as_str());
                s
            },
            CoordinationStateError::AlreadyFinished(p) => {
                let mut s = "participant ".to_owned();
                s.append(render_unsigned(*p as u128).as_str());
                s.append(" already finished");
                s
            },
            CoordinationStateError::NonMonotonicPublication { sequence, participant } => {
                let mut s = "non-monotonic publication sequence ".to_owned();
                s.append(render_unsigned(*sequence as u128).as_str());
                s.append(" for participant ");
                s.append(render_unsigned(*participant as u128).as_str());
                s
            },
            CoordinationStateError::StaleAcquire => "acquire does not match latest publication".to_owned(),
            CoordinationStateError::CompletionRegressed => "completion regressed".to_owned(),
        }
    }
}

/// An acquisition waiting for grant coverage.
#[derive(Debug, Clone, Copy, PartialEq, Eq, Structural)]
pub struct PendingAcquire {
    pub request_id: u64,
    pub publication_sequence: u64,
    pub tag: Tag,
}

/// What the coordination state knows of one participant.
#[derive(Debug, Clone, Copy, PartialEq, Eq, Structural)]
pub struct ParticipantState {
    pub publication_sequence: Option<u64>,
    pub frontier: Option<LogicalTimeFrontier>,
    pub pending: Option<PendingAcquire>,
    /// Request id of the completion awaiting release.
    pub pending_completion: Option<u64>,
    pub certificate_epoch: Option<u64>,
    pub completed: Option<Tag>,
    pub finished: bool,
}

/// Mathematical view of the coordination state; `parts[i]` belongs to `keys[i]`.
pub struct StateView {
    pub keys: Seq<EnclaveKey>,
    pub parts: Seq<ParticipantState>,
    pub advertised_net: Option<Tag>,
    pub grant_coverage: Option<Tag>,
    pub round: Option<(Tag, u64)>,
    pub observation_epoch: u64,
    pub stopped: bool,
    pub terminal_error: Option<Seq<char>>,
}

/// The observation epoch after `e`, wrapping at the top of `u64`.
pub open spec fn next_epoch(e: u64) -> u64 {
    if e == u64::MAX { 0 } else { (e + 1) as u64 }
}

/// A participant that has published nothing yet.
pub open spec fn fresh_participant() -> ParticipantState {
    ParticipantState {
        publication_sequence: None,
        frontier: None,
        pending: None,
        pending_completion: None,
        certificate_epoch: None,
        completed: None,
        finished: false,
    }
}

/// The position of `k` among strictly increasing keys that contain it.
pub open spec fn key_index(keys: Seq<EnclaveKey>, k: EnclaveKey) -> int {
    choose|i: int| 0 <= i < keys.len() && keys[i] == k
}

/// The participant with its certificate withdrawn.
pub open spec fn uncertified(p: ParticipantState) -> ParticipantState {
    ParticipantState { certificate_epoch: None, ..p }
}

/// Every certificate withdrawn.
pub open spec fn clear_certificates(parts: Seq<ParticipantState>) -> Seq<ParticipantState> {
    Seq::new(parts.len(), |i: int| uncertified(parts[i]))
}

/// Whether some participant holds a certificate.
pub open spec fn any_certificate(parts: Seq<ParticipantState>) -> bool {
    exists|i: int| 0 <= i < parts.len() && (#[trigger] parts[i]).certificate_epoch is Some
}

/// Whether every participant has finished.
pub open spec fn all_finished(parts: Seq<ParticipantState>) -> bool {
    forall|i: int| 0 <= i < parts.len() ==> (#[trigger] parts[i]).finished
}

/// Whether every live participant certified quiescence for `epoch`.
pub open spec fn all_live_certified(parts: Seq<ParticipantState>, epoch: u64) -> bool {
    forall|i: int|
        0 <= i < parts.len() && !(#[trigger] parts[i]).finished ==> parts[i].certificate_epoch
            == Some(epoch)
}

/// Whether some live participant has not published yet.
pub open spec fn some_live_unpublished(parts: Seq<ParticipantState>) -> bool {
    exists|i: int| 0 <= i < parts.len() && !(#[trigger] parts[i]).finished && parts[i].frontier is None
}

/// The candidate tag of a live participant, if it has one.
pub open spec fn live_candidate(p: ParticipantState) -> Option<Tag> {
    if p.finished {
        None
    } else {
        match p.frontier {
            Some(LogicalTimeFrontier::Candidate(t)) => Some(t),
            _ => None,
        }
    }
}

/// The least live candidate among the first `n` participants.
pub open spec fn min_candidate_upto(parts: Seq<ParticipantState>, n: int) -> Option<Tag>
    decreases n,
{
    if n <= 0 {
        None
    } else {
        let prev = min_candidate_upto(parts, n - 1);
        match live_candidate(parts[n - 1]) {
            Some(t) => match prev {
                Some(m) => Some(tag_min(m, t)),
                None => Some(t),
            },
            None => prev,
        }
    }
}

/// The least live candidate tag.
pub open spec fn min_candidate(parts: Seq<ParticipantState>) -> Option<Tag> {
    min_candidate_upto(parts, parts.len() as int)
}

/// Wake-ups for the live participants among the first `n`, in key order.
pub open spec fn wakes_upto(
    keys: Seq<EnclaveKey>,
    parts: Seq<ParticipantState>,
    tag: Tag,
    epoch: u64,
    n: int,
) -> Seq<ActionView>
    decreases n,
{
    if n <= 0 {
        Seq::empty()
    } else {
        let prev = wakes_upto(keys, parts, tag, epoch, n - 1);
        if parts[n - 1].finished {
            prev
        } else {
            prev.push(
                ActionView::WakeParticipant { participant: keys[n - 1], tag, observation_epoch: epoch },
            )
        }
    }
}

/// Wake-ups for every live participant, in key order.
pub open spec fn wakes(keys: Seq<EnclaveKey>, parts: Seq<ParticipantState>, tag: Tag, epoch: u64) -> Seq<
    ActionView,
> {
    wakes_upto(keys, parts, tag, epoch, parts.len() as int)
}

/// The state with a fresh observation epoch, every certificate withdrawn.
pub open spec fn new_epoch(s: StateView) -> StateView {
    StateView {
        observation_epoch: next_epoch(s.observation_epoch),
        parts: clear_certificates(s.parts),
        ..s
    }
}

/// Advertise the least live candidate as NET when no round is open, every live participant
/// has published, the candidate is not `Forever` and differs from the last advertisement.
pub open spec fn recompute_net(s: StateView) -> (StateView, Seq<ActionView>) {
    if s.round is Some || all_finished(s.parts) || some_live_unpublished(s.parts) {
        (s, Seq::empty())
    } else {
        match min_candidate(s.parts) {
            None => (s, Seq::empty()),
            Some(tag) => if tag == WireTag::Forever || s.advertised_net == Some(tag) {
                (s, Seq::empty())
            } else {
                (StateView { advertised_net: Some(tag), ..s }, seq![ActionView::RequestNet { tag }])
            },
        }
    }
}

/// Report the LTC of the open round once every live participant certified its epoch, then
/// advertise the next NET.
pub open spec fn close_round(s: StateView) -> (StateView, Seq<ActionView>) {
    match s.round {
        Some((tag, epoch)) => if all_live_certified(s.parts, epoch) {
            let closed = StateView { round: None, ..s };
            let (after, net) = recompute_net(closed);
            (after, seq![ActionView::ReportLtc { tag }] + net)
        } else {
            (s, Seq::empty())
        },
        None => (s, Seq::empty()),
    }
}

/// Open a round for `tag` in a fresh observation epoch and wake every live participant.
pub open spec fn open_round(s: StateView, tag: Tag) -> (StateView, Seq<ActionView>) {
    let e = new_epoch(s);
    (
        StateView { round: Some((tag, e.observation_epoch)), ..e },
        wakes(e.keys, e.parts, tag, e.observation_epoch),
    )
}

/// A certificate changed meaning: start a fresh epoch and re-wake the open round, if any.
pub open spec fn invalidate(s: StateView) -> (StateView, Seq<ActionView>) {
    let e = new_epoch(s);
    match s.round {
        Some((tag, _)) => (
            StateView { round: Some((tag, e.observation_epoch)), ..e },
            wakes(e.keys, e.parts, tag, e.observation_epoch),
        ),
        None => (e, Seq::empty()),
    }
}

/// The state with participant `i` replaced.
pub open spec fn with_part(s: StateView, i: int, p: ParticipantState) -> StateView {
    StateView { parts: s.parts.update(i, p), ..s }
}

/// Whether a publication consuming `wake` certifies quiescence for the open round.
pub open spec fn certifies(
    frontier: LogicalTimeFrontier,
    wake: Option<CoordinationWake>,
    round: Option<(Tag, u64)>,
) -> bool {
    match (wake, round) {
        (Some(w), Some((round_tag, epoch))) => {
            &&& match frontier {
                LogicalTimeFrontier::Idle => true,
                LogicalTimeFrontier::Candidate(t) => tag_lt(round_tag, t),
                LogicalTimeFrontier::Finished => false,
            }
            &&& w.tag == round_tag
            &&& w.observation_epoch == epoch
        },
        _ => false,
    }
}

/// The reason given to an acquisition superseded by a newer publication.
pub open spec fn superseded_by_publication() -> Seq<char> {
    "superseded by newer frontier publication"@
}

/// The reason given to an acquisition superseded by a newer acquisition.
pub open spec fn superseded_by_acquire() -> Seq<char> {
    "superseded by newer acquire"@
}

/// The reason given to a completion superseded by a newer completion.
pub open spec fn superseded_by_completion() -> Seq<char> {
    "superseded by newer completion"@
}


/// The state after participant `i` published `publication` under `sequence`: its pending
/// acquisition fails, its frontier is recorded, and it certifies the open round when the
/// publication answers that round's wake with a frontier beyond the round tag.
pub open spec fn record_publication(
    s: StateView,
    i: int,
    sequence: u64,
    publication: FrontierPublication,
) -> (StateView, Seq<ActionView>) {
    let p = s.parts[i];
    let failed = match p.pending {
        Some(pending) => seq![
            ActionView::FailRequest {
                participant: s.keys[i],
                request_id: pending.request_id,
                reason: superseded_by_publication(),
            },
        ],
        None => Seq::empty(),
    };
    let certificate = match s.round {
        Some((_, epoch)) => if certifies(publication.frontier, publication.consumed_wake, s.round) {
            Some(epoch)
        } else {
            p.certificate_epoch
        },
        None => p.certificate_epoch,
    };
    let recorded = ParticipantState {
        pending: None,
        publication_sequence: Some(sequence),
        frontier: Some(publication.frontier),
        certificate_epoch: certificate,
        ..p
    };
    (with_part(s, i, recorded), failed)
}

/// Open a round for the least live candidate when a grant already covers it.
pub open spec fn open_covered_round(s: StateView) -> (StateView, Seq<ActionView>) {
    match (min_candidate(s.parts), s.grant_coverage) {
        (Some(tag), Some(grant)) => if tag_le(tag, grant) {
            open_round(s, tag)
        } else {
            (s, Seq::empty())
        },
        _ => (s, Seq::empty()),
    }
}

/// An accepted publication by participant `i` (known, live and with a newer sequence).
pub open spec fn publish_accepted(
    s: StateView,
    i: int,
    sequence: u64,
    publication: FrontierPublication,
) -> (StateView, Seq<ActionView>) {
    let changed = s.parts[i].frontier != Some(publication.frontier);
    let finishing = publication.frontier == LogicalTimeFrontier::Finished;
    let (s1, a1) = if changed && any_certificate(s.parts) {
        let marked = if finishing {
            with_part(s, i, ParticipantState { finished: true, ..s.parts[i] })
        } else {
            s
        };
        invalidate(marked)
    } else {
        (s, Seq::empty())
    };
    let (s2, a2) = record_publication(s1, i, sequence, publication);
    let s3 = if finishing {
        with_part(s2, i, ParticipantState { finished: true, certificate_epoch: None, ..s2.parts[i] })
    } else {
        s2
    };
    if finishing && all_finished(s3.parts) && !s3.stopped {
        (StateView { stopped: true, ..s3 }, a1 + a2 + seq![ActionView::SendStop])
    } else {
        let (s4, a4) = if changed && s3.round is None {
            open_covered_round(s3)
        } else {
            (s3, Seq::empty())
        };
        let (s5, a5) = recompute_net(s4);
        let (s6, a6) = close_round(s5);
        (s6, a1 + a2 + a4 + a5 + a6)
    }
}

/// The outcome of a frontier publication.
pub open spec fn spec_publish(
    s: StateView,
    participant: EnclaveKey,
    sequence: u64,
    publication: FrontierPublication,
) -> Result<(StateView, Seq<ActionView>), ErrorView> {
    if s.terminal_error is Some {
        Err(ErrorView::Terminal(s.terminal_error->0))
    } else if !s.keys.contains(participant) {
        Err(ErrorView::UnknownParticipant(participant))
    } else {
        let i = key_index(s.keys, participant);
        let p = s.parts[i];
        if p.finished {
            if publication.frontier == LogicalTimeFrontier::Finished {
                Ok((s, Seq::empty()))
            } else {
                Err(ErrorView::AlreadyFinished(participant))
            }
        } else if p.publication_sequence is Some && sequence <= p.publication_sequence->0 {
            Err(ErrorView::NonMonotonicPublication { sequence, participant })
        } else {
            Ok(publish_accepted(s, i, sequence, publication))
        }
    }
}

/// The outcome of an acquisition request for `tag` under the latest publication.
pub open spec fn spec_acquire(
    s: StateView,
    participant: EnclaveKey,
    request_id: u64,
    publication_sequence: u64,
    tag: Tag,
) -> Result<(StateView, Seq<ActionView>), ErrorView> {
    if s.terminal_error is Some {
        Err(ErrorView::Terminal(s.terminal_error->0))
    } else if !s.keys.contains(participant) {
        Err(ErrorView::UnknownParticipant(participant))
    } else {
        let i = key_index(s.keys, participant);
        let p = s.parts[i];
        if p.publication_sequence != Some(publication_sequence) {
            Err(ErrorView::StaleAcquire)
        } else {
            let failed = match p.pending {
                Some(old) => seq![
                    ActionView::FailRequest {
                        participant,
                        request_id: old.request_id,
                        reason: superseded_by_acquire(),
                    },
                ],
                None => Seq::empty(),
            };
            let covered = s.grant_coverage is Some && tag_le(tag, s.grant_coverage->0);
            if covered {
                Ok((
                    with_part(s, i, ParticipantState { pending: None, ..p }),
                    failed.push(
                        ActionView::ReleaseAcquire { participant, request_id, publication_sequence, tag },
                    ),
                ))
            } else {
                Ok((
                    with_part(
                        s,
                        i,
                        ParticipantState {
                            pending: Some(PendingAcquire { request_id, publication_sequence, tag }),
                            ..p
                        },
                    ),
                    failed,
                ))
            }
        }
    }
}

/// Whether participant `p`'s pending acquisition is covered by `grant`.
pub open spec fn released_by(p: ParticipantState, grant: Tag) -> bool {
    p.pending is Some && tag_le(p.pending->0.tag, grant)
}

/// The participants after `grant` released every covered acquisition.
pub open spec fn release_covered(parts: Seq<ParticipantState>, grant: Tag) -> Seq<ParticipantState> {
    Seq::new(
        parts.len(),
        |i: int|
            if released_by(parts[i], grant) {
                ParticipantState { pending: None, ..parts[i] }
            } else {
                parts[i]
            },
    )
}

/// Releases of the covered acquisitions among the first `n` participants, in key order.
pub open spec fn releases_upto(
    keys: Seq<EnclaveKey>,
    parts: Seq<ParticipantState>,
    grant: Tag,
    n: int,
) -> Seq<ActionView>
    decreases n,
{
    if n <= 0 {
        Seq::empty()
    } else {
        let prev = releases_upto(keys, parts, grant, n - 1);
        let p = parts[n - 1];
        if released_by(p, grant) {
            prev.push(
                ActionView::ReleaseAcquire {
                    participant: keys[n - 1],
                    request_id: p.pending->0.request_id,
                    publication_sequence: p.pending->0.publication_sequence,
                    tag: p.pending->0.tag,
                },
            )
        } else {
            prev
        }
    }
}

/// The outcome of an RTI grant: coverage grows to the largest grant, covered acquisitions are
/// released, and a round opens for the least live candidate the grant covers.
pub open spec fn spec_grant(s: StateView, grant: Tag) -> (StateView, Seq<ActionView>) {
    if s.stopped {
        (s, Seq::empty())
    } else {
        let coverage = match s.grant_coverage {
            Some(old) => tag_max(old, grant),
            None => grant,
        };
        let s1 = StateView {
            grant_coverage: Some(coverage),
            parts: release_covered(s.parts, grant),
            ..s
        };
        let a1 = releases_upto(s.keys, s.parts, grant, s.parts.len() as int);
        match min_candidate(s1.parts) {
            Some(tag) => if tag_le(tag, grant) {
                let (s2, a2) = open_round(s1, tag);
                (s2, a1 + a2)
            } else {
                (s1, a1)
            },
            None => (s1, a1),
        }
    }
}

/// The outcome of a completion report for `tag`.
pub open spec fn spec_complete(
    s: StateView,
    participant: EnclaveKey,
    request_id: u64,
    tag: Tag,
) -> Result<(StateView, Seq<ActionView>), ErrorView> {
    if s.terminal_error is Some {
        Err(ErrorView::Terminal(s.terminal_error->0))
    } else if !s.keys.contains(participant) {
        Err(ErrorView::UnknownParticipant(participant))
    } else {
        let i = key_index(s.keys, participant);
        let p = s.parts[i];
        if p.finished {
            Err(ErrorView::AlreadyFinished(participant))
        } else if p.completed is Some && tag_lt(tag, p.completed->0) {
            Err(ErrorView::CompletionRegressed)
        } else {
            let advances = p.completed != Some(tag);
            let (s1, a1) = if advances && any_certificate(s.parts) {
                invalidate(s)
            } else {
                (s, Seq::empty())
            };
            let q = s1.parts[i];
            let failed = match q.pending_completion {
                Some(old) => seq![
                    ActionView::FailRequest {
                        participant,
                        request_id: old,
                        reason: superseded_by_completion(),
                    },
                ],
                None => Seq::empty(),
            };
            let certificate = match s1.round {
                Some((round_tag, epoch)) => if tag_le(round_tag, tag) {
                    Some(epoch)
                } else {
                    q.certificate_epoch
                },
                None => q.certificate_epoch,
            };
            let s2 = with_part(
                s1,
                i,
                ParticipantState {
                    pending_completion: Some(request_id),
                    completed: Some(tag),
                    certificate_epoch: certificate,
                    ..q
                },
            );
            let (s3, a3) = close_round(s2);
            Ok((s3, a1 + failed + a3 + seq![ActionView::ReleaseCompletion { participant, request_id }]))
        }
    }
}

/// The participant with every outstanding request dropped.
pub open spec fn without_requests(p: ParticipantState) -> ParticipantState {
    ParticipantState { pending: None, pending_completion: None, ..p }
}

/// Failures of the outstanding requests among the first `n` participants, in key order: the
/// pending acquisition before the pending completion.
pub open spec fn failures_upto(
    keys: Seq<EnclaveKey>,
    parts: Seq<ParticipantState>,
    reason: Seq<char>,
    n: int,
) -> Seq<ActionView>
    decreases n,
{
    if n <= 0 {
        Seq::empty()
    } else {
        let prev = failures_upto(keys, parts, reason, n - 1);
        let p = parts[n - 1];
        let with_acquire = match p.pending {
            Some(pending) => prev.push(
                ActionView::FailRequest { participant: keys[n - 1], request_id: pending.request_id, reason },
            ),
            None => prev,
        };
        match p.pending_completion {
            Some(request_id) => with_acquire.push(
                ActionView::FailRequest { participant: keys[n - 1], request_id, reason },
            ),
            None => with_acquire,
        }
    }
}

/// The outcome of a terminal failure: the first reason sticks, every outstanding request fails,
/// and `SendStop` goes out unless the Federate already stopped.
pub open spec fn spec_fail(s: StateView, reason: Seq<char>) -> (StateView, Seq<ActionView>) {
    if s.terminal_error is Some {
        (s, Seq::empty())
    } else {
        let fanout = failures_upto(s.keys, s.parts, reason, s.parts.len() as int);
        let failed = StateView {
            terminal_error: Some(reason),
            parts: Seq::new(s.parts.len(), |i: int| without_requests(s.parts[i])),
            ..s
        };
        if s.stopped {
            (failed, fanout)
        } else {
            (StateView { stopped: true, ..failed }, fanout.push(ActionView::SendStop))
        }
    }
}

/// The state after the driver resolved request `request_id` of `participant` itself.
pub open spec fn spec_release_request(s: StateView, participant: EnclaveKey, request_id: u64) -> StateView {
    if !s.keys.contains(participant) {
        s
    } else {
        let i = key_index(s.keys, participant);
        let p = s.parts[i];
        let pending = if p.pending is Some && p.pending->0.request_id == request_id {
            None
        } else {
            p.pending
        };
        let pending_completion = if p.pending_completion == Some(request_id) {
            None
        } else {
            p.pending_completion
        };
        with_part(s, i, ParticipantState { pending, pending_completion, ..p })
    }
}

/// Coordination state of one Federate's participants.
#[derive(Debug)]
pub struct FederateCoordinationState {
    keys: Vec<EnclaveKey>,
    parts: Vec<ParticipantState>,
    advertised_net: Option<Tag>,
    grant_coverage: Option<Tag>,
    round: Option<(Tag, u64)>,
    observation_epoch: u64,
    stopped: bool,
    terminal_error: Option<String>,
}

impl View for FederateCoordinationState {
    type V = StateView;

    closed spec fn view(&self) -> StateView {
        StateView {
            keys: self.keys@,
            parts: self.parts@,
            advertised_net: self.advertised_net,
            grant_coverage: self.grant_coverage,
            round: self.round,
            observation_epoch: self.observation_epoch,
            stopped: self.stopped,
            terminal_error: match self.terminal_error {
                Some(e) => Some(e@),
                None => None,
            },
        }
    }
}

/// Keys and participant records line up, and keys strictly increase.
pub open spec fn state_wf(s: StateView) -> bool {
    &&& s.keys.len() == s.parts.len()
    &&& keys_increasing(s.keys)
}

/// How an operation's result and final state match the transition it is specified by.
pub open spec fn outcome_matches(
    before: StateView,
    after: StateView,
    r: Result<Vec<CoordinationAction>, CoordinationStateError>,
    expected: Result<(StateView, Seq<ActionView>), ErrorView>,
) -> bool {
    match expected {
        Ok((s, a)) => match r {
            Ok(v) => after == s && actions_view(v@) == a,
            Err(_) => false,
        },
        Err(e) => match r {
            Err(err) => err@ == e && after == before,
            Ok(_) => false,
        },
    }
}

proof fn lemma_view_push(a: Seq<CoordinationAction>, x: CoordinationAction)
    ensures
        actions_view(a.push(x)) == actions_view(a).push(x@),
{
    assert(actions_view(a.push(x)) =~= actions_view(a).push(x@));
}

proof fn lemma_key_index(keys: Seq<EnclaveKey>, i: int)
    requires
        keys_increasing(keys),
        0 <= i < keys.len(),
    ensures
        keys.contains(keys[i]),
        key_index(keys, keys[i]) == i,
{
    assert(keys[i] == keys[i]);
    let j = key_index(keys, keys[i]);
    if j != i {
        assert(keys[j] == keys[i]);
    }
}

proof fn lemma_min_candidate_step(parts: Seq<ParticipantState>, n: int)
    requires
        0 < n <= parts.len(),
    ensures
        min_candidate_upto(parts, n) == match live_candidate(parts[n - 1]) {
            Some(t) => match min_candidate_upto(parts, n - 1) {
                Some(m) => Some(tag_min(m, t)),
                None => Some(t),
            },
            None => min_candidate_upto(parts, n - 1),
        },
{
}

fn same_frontier(a: Option<LogicalTimeFrontier>, b: LogicalTimeFrontier) -> (r: bool)
    ensures
        r == (a == Some(b)),
{
    match a {
        Some(f) => f == b,
        None => false,
    }
}

fn is_finished_frontier(f: LogicalTimeFrontier) -> (r: bool)
    ensures
        r == (f == LogicalTimeFrontier::Finished),
{
    match f {
        LogicalTimeFrontier::Finished => true,
        _ => false,
    }
}

fn next_epoch_of(e: u64) -> (r: u64)
    ensures
        r == next_epoch(e),
{
    if e == u64::MAX {
        0
    } else {
        e + 1
    }
}

impl FederateCoordinationState {
    /// Keys and participant records line up, and keys strictly increase.
    pub closed spec fn wf(&self) -> bool {
        state_wf(self@)
    }

    /// A state with every participant of `layout` fresh, no grant, no round and epoch zero.
    pub fn new(layout: FederateCoordinationLayout) -> (state: Self)
        ensures
            state.wf(),
            state@.keys == layout.spec_participants(),
            state@.parts == Seq::new(layout.spec_participants().len(), |i: int| fresh_participant()),
            state@.advertised_net is None,
            state@.grant_coverage is None,
            state@.round is None,
            state@.observation_epoch == 0,
            !state@.stopped,
            state@.terminal_error is None,
    {
        proof {
            use_type_invariant(&layout);
        }
        let source = layout.participants();
        let mut keys: Vec<EnclaveKey> = Vec::new();
        let mut parts: Vec<ParticipantState> = Vec::new();
        let mut i: usize = 0;
        while i < source.len()
            invariant
                i <= source@.len(),
                keys@ == source@.subrange(0, i as int),
                parts@ == Seq::new(i as nat, |j: int| fresh_participant()),
            decreases source@.len() - i,
        {
            keys.push(source[i]);
            parts.push(
                ParticipantState {
                    publication_sequence: None,
                    frontier: None,
                    pending: None,
                    pending_completion: None,
                    certificate_epoch: None,
                    completed: None,
                    finished: false,
                },
            );
            assert(keys@ =~= source@.subrange(0, i + 1));
            assert(parts@ =~= Seq::new((i + 1) as nat, |j: int| fresh_participant()));
            i = i + 1;
        }
        assert(keys@ =~= source@);
        FederateCoordinationState {
            keys,
            parts,
            advertised_net: None,
            grant_coverage: None,
            round: None,
            observation_epoch: 0,
            stopped: false,
            terminal_error: None,
        }
    }

    /// Whether `SendStop` has been emitted.
    pub fn is_stopped(&self) -> (b: bool)
        ensures
            b == self@.stopped,
    {
        self.stopped
    }

    /// The first terminal failure, if any.
    pub fn terminal_error(&self) -> (e: Option<&str>)
        ensures
            match self@.terminal_error {
                Some(v) => e is Some && e->0@ == v,
                None => e is None,
            },
    {
        match &self.terminal_error {
            Some(e) => Some(e.as_str()),
            None => None,
        }
    }

    fn find(&self, participant: EnclaveKey) -> (r: Option<usize>)
        requires
            self.wf(),
        ensures
            r is Some <==> self@.keys.contains(participant),
            r is Some ==> r->0 < self@.parts.len() && r->0 == key_index(self@.keys, participant)
                && self@.keys[r->0 as int] == participant,
    {
        let mut i: usize = 0;
        while i < self.keys.len()
            invariant
                self.wf(),
                i <= self@.keys.len(),
                forall|j: int| 0 <= j < i ==> self@.keys[j] != participant,
            decreases self@.keys.len() - i,
        {
            if self.keys[i] == participant {
                proof {
                    lemma_key_index(self@.keys, i as int);
                }
                return Some(i);
            }
            i = i + 1;
        }
        None
    }

    fn any_certificate(&self) -> (b: bool)
        ensures
            b == any_certificate(self@.parts),
    {
        let mut i: usize = 0;
        while i < self.parts.len()
            invariant
                i <= self@.parts.len(),
                forall|j: int| 0 <= j < i ==> (#[trigger] self@.parts[j]).certificate_epoch is None,
            decreases self@.parts.len() - i,
        {
            if self.parts[i].certificate_epoch.is_some() {
                assert(self@.parts[i as int].certificate_epoch is Some);
                return true;
            }
            i = i + 1;
        }
        false
    }

    fn all_finished(&self) -> (b: bool)
        ensures
            b == all_finished(self@.parts),
    {
        let mut i: usize = 0;
        while i < self.parts.len()
            invariant
                i <= self@.parts.len(),
                forall|j: int| 0 <= j < i ==> (#[trigger] self@.parts[j]).finished,
            decreases self@.parts.len() - i,
        {
            if !self.parts[i].finished {
                assert(!self@.parts[i as int].finished);
                return false;
            }
            i = i + 1;
        }
        true
    }

    fn all_live_certified(&self, epoch: u64) -> (b: bool)
        ensures
            b == all_live_certified(self@.parts, epoch),
    {
        let mut i: usize = 0;
        while i < self.parts.len()
            invariant
                i <= self@.parts.len(),
                forall|j: int|
                    0 <= j < i && !(#[trigger] self@.parts[j]).finished
                        ==> self@.parts[j].certificate_epoch == Some(epoch),
            decreases self@.parts.len() - i,
        {
            let p = self.parts[i];
            if !p.finished {
                let certified = match p.certificate_epoch {
                    Some(e) => e == epoch,
                    None => false,
                };
                if !certified {
                    assert(!self@.parts[i as int].finished);
                    return false;
                }
            }
            i = i + 1;
        }
        true
    }

    fn some_live_unpublished(&self) -> (b: bool)
        ensures
            b == some_live_unpublished(self@.parts),
    {
        let mut i: usize = 0;
        while i < self.parts.len()
            invariant
                i <= self@.parts.len(),
                forall|j: int|
                    0 <= j < i ==> (#[trigger] self@.parts[j]).finished || self@.parts[j].frontier is Some,
            decreases self@.parts.len() - i,
        {
            let p = self.parts[i];
            if !p.finished && p.frontier.is_none() {
                assert(!self@.parts[i as int].finished);
                return true;
            }
            i = i + 1;
        }
        false
    }

    fn min_candidate(&self) -> (r: Option<Tag>)
        ensures
            r == min_candidate(self@.parts),
    {
        let mut best: Option<Tag> = None;
        let mut i: usize = 0;
        while i < self.parts.len()
            invariant
                i <= self@.parts.len(),
                best == min_candidate_upto(self@.parts, i as int),
            decreases self@.parts.len() - i,
        {
            let p = self.parts[i];
            let candidate: Option<Tag> = if p.finished {
                None
            } else {
                match p.frontier {
                    Some(LogicalTimeFrontier::Candidate(t)) => Some(t),
                    _ => None,
                }
            };
            proof {
                lemma_min_candidate_step(self@.parts, i + 1);
            }
            match candidate {
                Some(t) => {
                    best = match best {
                        Some(m) => Some(m.min_tag(t)),
                        None => Some(t),
                    };
                },
                None => {},
            }
            i = i + 1;
        }
        best
    }

    fn push_wakes(&self, actions: &mut Vec<CoordinationAction>, tag: Tag, epoch: u64)
        requires
            self.wf(),
        ensures
            actions_view(final(actions)@) == actions_view(old(actions)@) + wakes(
                self@.keys,
                self@.parts,
                tag,
                epoch,
            ),
    {
        let ghost start = actions_view(actions@);
        let mut i: usize = 0;
        while i < self.parts.len()
            invariant
                self.wf(),
                i <= self@.parts.len(),
                actions_view(actions@) == start + wakes_upto(self@.keys, self@.parts, tag, epoch, i as int),
            decreases self@.parts.len() - i,
        {
            if !self.parts[i].finished && i < self.keys.len() {
                let wake = CoordinationAction::WakeParticipant {
                    participant: self.keys[i],
                    tag,
                    observation_epoch: epoch,
                };
                proof {
                    lemma_view_push(actions@, wake);
                }
                actions.push(wake);
            }
            i = i + 1;
        }
    }

    fn set_part(&mut self, i: usize, p: ParticipantState)
        requires
            old(self).wf(),
            i < old(self)@.parts.len(),
        ensures
            final(self).wf(),
            final(self)@ == with_part(old(self)@, i as int, p),
    {
        self.parts.set(i, p);
        assert(self@.parts =~= old(self)@.parts.update(i as int, p));
    }

    fn start_epoch(&mut self)
        requires
            old(self).wf(),
        ensures
            final(self).wf(),
            final(self)@ == new_epoch(old(self)@),
    {
        let mut cleared: Vec<ParticipantState> = Vec::new();
        let mut i: usize = 0;
        while i < self.parts.len()
            invariant
                i <= self@.parts.len(),
                cleared@ == Seq::new(i as nat, |j: int| uncertified(self@.parts[j])),
            decreases self@.parts.len() - i,
        {
            let mut p = self.parts[i];
            p.certificate_epoch = None;
            cleared.push(p);
            assert(cleared@ =~= Seq::new((i + 1) as nat, |j: int| uncertified(self@.parts[j])));
            i = i + 1;
        }
        self.parts = cleared;
        self.observation_epoch = next_epoch_of(self.observation_epoch);
        assert(self@.parts =~= clear_certificates(old(self)@.parts));
    }

    fn invalidate(&mut self, actions: &mut Vec<CoordinationAction>)
        requires
            old(self).wf(),
        ensures
            final(self).wf(),
            final(self)@ == invalidate(old(self)@).0,
            actions_view(final(actions)@) == actions_view(old(actions)@) + invalidate(old(self)@).1,
    {
        self.start_epoch();
        match self.round {
            Some((tag, _)) => {
                self.round = Some((tag, self.observation_epoch));
                self.push_wakes(actions, tag, self.observation_epoch);
            },
            None => {
                assert(actions_view(actions@) =~= actions_view(actions@) + Seq::<ActionView>::empty());
            },
        }
    }

    fn open_round(&mut self, tag: Tag, actions: &mut Vec<CoordinationAction>)
        requires
            old(self).wf(),
        ensures
            final(self).wf(),
            final(self)@ == open_round(old(self)@, tag).0,
            actions_view(final(actions)@) == actions_view(old(actions)@) + open_round(old(self)@, tag).1,
    {
        self.start_epoch();
        self.round = Some((tag, self.observation_epoch));
        self.push_wakes(actions, tag, self.observation_epoch);
    }

    fn recompute_net(&mut self, actions: &mut Vec<CoordinationAction>)
        requires
            old(self).wf(),
        ensures
            final(self).wf(),
            final(self)@ == recompute_net(old(self)@).0,
            actions_view(final(actions)@) == actions_view(old(actions)@) + recompute_net(old(self)@).1,
    {
        let ghost start = actions_view(actions@);
        if self.round.is_some() || self.all_finished() || self.some_live_unpublished() {
            assert(actions_view(actions@) =~= start + Seq::<ActionView>::empty());
            return;
        }
        match self.min_candidate() {
            None => {
                assert(actions_view(actions@) =~= start + Seq::<ActionView>::empty());
            },
            Some(tag) => {
                let is_forever = match tag {
                    WireTag::Forever => true,
                    _ => false,
                };
                let already = match self.advertised_net {
                    Some(t) => t == tag,
                    None => false,
                };
                if is_forever || already {
                    assert(actions_view(actions@) =~= start + Seq::<ActionView>::empty());
                } else {
                    self.advertised_net = Some(tag);
                    let request = CoordinationAction::RequestNet { tag };
                    proof {
                        lemma_view_push(actions@, request);
                    }
                    actions.push(request);
                    assert(actions_view(actions@) =~= start + seq![ActionView::RequestNet { tag }]);
                }
            },
        }
    }

    fn close_round(&mut self, actions: &mut Vec<CoordinationAction>)
        requires
            old(self).wf(),
        ensures
            final(self).wf(),
            final(self)@ == close_round(old(self)@).0,
            actions_view(final(actions)@) == actions_view(old(actions)@) + close_round(old(self)@).1,
    {
        let ghost start = actions_view(actions@);
        match self.round {
            Some((tag, epoch)) => {
                if self.all_live_certified(epoch) {
                    self.round = None;
                    let report = CoordinationAction::ReportLtc { tag };
                    proof {
                        lemma_view_push(actions@, report);
                    }
                    actions.push(report);
                    let ghost mid = actions_view(actions@);
                    self.recompute_net(actions);
                    assert(actions_view(actions@) =~= start + (seq![ActionView::ReportLtc { tag }]
                        + recompute_net(StateView { round: None, ..old(self)@ }).1));
                } else {
                    assert(actions_view(actions@) =~= start + Seq::<ActionView>::empty());
                }
            },
            None => {
                assert(actions_view(actions@) =~= start + Seq::<ActionView>::empty());
            },
        }
    }

    /// Fails the whole coordination: the first reason is kept, every outstanding request of every
    /// participant fails with it (key order, acquisition before completion), and `SendStop` goes
    /// out once. A second failure changes nothing and returns no action.
    pub fn fail(&mut self, reason: String) -> (actions: Vec<CoordinationAction>)
        requires
            old(self).wf(),
        ensures
            final(self).wf(),
            final(self)@ == spec_fail(old(self)@, reason@).0,
            actions_view(actions@) == spec_fail(old(self)@, reason@).1,
    {
        let mut actions: Vec<CoordinationAction> = Vec::new();
        if self.terminal_error.is_some() {
            assert(actions_view(actions@) =~= Seq::<ActionView>::empty());
            return actions;
        }
        let mut cleared: Vec<ParticipantState> = Vec::new();
        let mut i: usize = 0;
        while i < self.parts.len()
            invariant
                self.wf(),
                i <= self@.parts.len(),
                cleared@ == Seq::new(i as nat, |j: int| without_requests(self@.parts[j])),
                actions_view(actions@) == failures_upto(self@.keys, self@.parts, reason@, i as int),
            decreases self@.parts.len() - i,
        {
            let p = self.parts[i];
            let participant = self.keys[i];
            match p.pending {
                Some(pending) => {
                    let failed = CoordinationAction::FailRequest {
                        participant,
                        request_id: pending.request_id,
                        reason: reason.clone(),
                    };
                    proof {
                        lemma_view_push(actions@, failed);
                    }
                    actions.push(failed);
                },
                None => {},
            }
            match p.pending_completion {
                Some(request_id) => {
                    let failed = CoordinationAction::FailRequest {
                        participant,
                        request_id,
                        reason: reason.clone(),
                    };
                    proof {
                        lemma_view_push(actions@, failed);
                    }
                    actions.push(failed);
                },
                None => {},
            }
            let mut q = p;
            q.pending = None;
            q.pending_completion = None;
            cleared.push(q);
            assert(cleared@ =~= Seq::new((i + 1) as nat, |j: int| without_requests(self@.parts[j])));
            i = i + 1;
        }
        self.parts = cleared;
        self.terminal_error = Some(reason);
        if !self.stopped {
            self.stopped = true;
            proof {
                lemma_view_push(actions@, CoordinationAction::SendStop);
            }
            actions.push(CoordinationAction::SendStop);
        }
        actions
    }

    /// Forgets request `request_id` of `participant`, pending acquisition or completion alike,
    /// once the driver has answered it by other means.
    pub fn release_request(&mut self, participant: EnclaveKey, request_id: u64)
        requires
            old(self).wf(),
        ensures
            final(self).wf(),
            final(self)@ == spec_release_request(old(self)@, participant, request_id),
    {
        match self.find(participant) {
            None => {},
            Some(i) => {
                let mut p = self.parts[i];
                let acquire_matches = match p.pending {
                    Some(pending) => pending.request_id == request_id,
                    None => false,
                };
                if acquire_matches {
                    p.pending = None;
                }
                let completion_matches = match p.pending_completion {
                    Some(id) => id == request_id,
                    None => false,
                };
                if completion_matches {
                    p.pending_completion = None;
                }
                self.set_part(i, p);
            },
        }
    }

    fn record_publication(
        &mut self,
        i: usize,
        sequence: u64,
        publication: FrontierPublication,
        actions: &mut Vec<CoordinationAction>,
    )
        requires
            old(self).wf(),
            i < old(self)@.parts.len(),
        ensures
            final(self).wf(),
            final(self)@ == record_publication(old(self)@, i as int, sequence, publication).0,
            actions_view(final(actions)@) == actions_view(old(actions)@) + record_publication(
                old(self)@,
                i as int,
                sequence,
                publication,
            ).1,
    {
        let ghost start = actions_view(actions@);
        let mut p = self.parts[i];
        match p.pending {
            Some(pending) => {
                let failed = CoordinationAction::FailRequest {
                    participant: self.keys[i],
                    request_id: pending.request_id,
                    reason: "superseded by newer frontier publication".to_owned(),
                };
                proof {
                    lemma_view_push(actions@, failed);
                }
                actions.push(failed);
            },
            None => {
                assert(actions_view(actions@) =~= start + Seq::<ActionView>::empty());
            },
        }
        let certificate = match self.round {
            Some((_, epoch)) => if certifies_publication(
                publication.frontier,
                publication.consumed_wake,
                self.round,
            ) {
                Some(epoch)
            } else {
                p.certificate_epoch
            },
            None => p.certificate_epoch,
        };
        p.pending = None;
        p.publication_sequence = Some(sequence);
        p.frontier = Some(publication.frontier);
        p.certificate_epoch = certificate;
        self.set_part(i, p);
    }

    fn open_covered_round(&mut self, actions: &mut Vec<CoordinationAction>)
        requires
            old(self).wf(),
        ensures
            final(self).wf(),
            final(self)@ == open_covered_round(old(self)@).0,
            actions_view(final(actions)@) == actions_view(old(actions)@) + open_covered_round(
                old(self)@,
            ).1,
    {
        let ghost start = actions_view(actions@);
        match (self.min_candidate(), self.grant_coverage) {
            (Some(tag), Some(grant)) => {
                if tag.le(&grant) {
                    self.open_round(tag, actions);
                } else {
                    assert(actions_view(actions@) =~= start + Seq::<ActionView>::empty());
                }
            },
            _ => {
                assert(actions_view(actions@) =~= start + Seq::<ActionView>::empty());
            },
        }
    }

    /// Records a frontier publication of `participant` under `sequence` (see [`spec_publish`]).
    pub fn publish(
        &mut self,
        participant: EnclaveKey,
        sequence: u64,
        publication: FrontierPublication,
    ) -> (r: Result<Vec<CoordinationAction>, CoordinationStateError>)
        requires
            old(self).wf(),
        ensures
            final(self).wf(),
            outcome_matches(
                old(self)@,
                final(self)@,
                r,
                spec_publish(old(self)@, participant, sequence, publication),
            ),
    {
        match &self.terminal_error {
            Some(e) => {
                return Err(CoordinationStateError::Terminal(e.clone()));
            },
            None => {},
        }
        let i = match self.find(participant) {
            Some(i) => i,
            None => {
                return Err(CoordinationStateError::UnknownParticipant(participant));
            },
        };
        let p = self.parts[i];
        let finishing = is_finished_frontier(publication.frontier);
        if p.finished {
            if finishing {
                let none: Vec<CoordinationAction> = Vec::new();
                assert(actions_view(none@) =~= Seq::<ActionView>::empty());
                return Ok(none);
            } else {
                return Err(CoordinationStateError::AlreadyFinished(participant));
            }
        }
        match p.publication_sequence {
            Some(previous) => {
                if sequence <= previous {
                    return Err(
                        CoordinationStateError::NonMonotonicPublication { sequence, participant },
                    );
                }
            },
            None => {},
        }
        let changed = !same_frontier(p.frontier, publication.frontier);
        let ghost s0 = self@;
        let mut actions: Vec<CoordinationAction> = Vec::new();
        if changed && self.any_certificate() {
            if finishing {
                let mut q = self.parts[i];
                q.finished = true;
                self.set_part(i, q);
            }
            self.invalidate(&mut actions);
        }
        let ghost s1 = self@;
        let ghost a1 = actions_view(actions@);
        self.record_publication(i, sequence, publication, &mut actions);
        let ghost a2 = record_publication(s1, i as int, sequence, publication).1;
        assert(actions_view(actions@) == a1 + a2);
        if finishing {
            let mut q = self.parts[i];
            q.finished = true;
            q.certificate_epoch = None;
            self.set_part(i, q);
            if self.all_finished() && !self.stopped {
                self.stopped = true;
                proof {
                    lemma_view_push(actions@, CoordinationAction::SendStop);
                }
                actions.push(CoordinationAction::SendStop);
                assert(actions_view(actions@) =~= a1 + a2 + seq![ActionView::SendStop]);
                return Ok(actions);
            }
        }
        let ghost s3 = self@;
        if changed && self.round.is_none() {
            self.open_covered_round(&mut actions);
        } else {
            assert(actions_view(actions@) =~= a1 + a2 + Seq::<ActionView>::empty());
        }
        let ghost s4 = self@;
        let ghost a4 = if changed && s3.round is None {
            open_covered_round(s3).1
        } else {
            Seq::<ActionView>::empty()
        };
        assert(actions_view(actions@) == a1 + a2 + a4);
        self.recompute_net(&mut actions);
        let ghost s5 = self@;
        let ghost a5 = recompute_net(s4).1;
        self.close_round(&mut actions);
        let ghost a6 = close_round(s5).1;
        assert(actions_view(actions@) =~= a1 + a2 + a4 + a5 + a6);
        Ok(actions)
    }

    /// Asks for permission to act at `tag` under the participant's latest publication (see
    /// [`spec_acquire`]): released at once when a grant covers `tag`, otherwise kept pending.
    pub fn acquire(
        &mut self,
        participant: EnclaveKey,
        request_id: u64,
        publication_sequence: u64,
        tag: Tag,
    ) -> (r: Result<Vec<CoordinationAction>, CoordinationStateError>)
        requires
            old(self).wf(),
        ensures
            final(self).wf(),
            outcome_matches(
                old(self)@,
                final(self)@,
                r,
                spec_acquire(old(self)@, participant, request_id, publication_sequence, tag),
            ),
    {
        match &self.terminal_error {
            Some(e) => {
                return Err(CoordinationStateError::Terminal(e.clone()));
            },
            None => {},
        }
        let i = match self.find(participant) {
            Some(i) => i,
            None => {
                return Err(CoordinationStateError::UnknownParticipant(participant));
            },
        };
        let mut p = self.parts[i];
        let latest = match p.publication_sequence {
            Some(sequence) => sequence == publication_sequence,
            None => false,
        };
        if !latest {
            return Err(CoordinationStateError::StaleAcquire);
        }
        let mut actions: Vec<CoordinationAction> = Vec::new();
        assert(actions_view(actions@) =~= Seq::<ActionView>::empty());
        match p.pending {
            Some(old) => {
                let failed = CoordinationAction::FailRequest {
                    participant,
                    request_id: old.request_id,
                    reason: "superseded by newer acquire".to_owned(),
                };
                proof {
                    lemma_view_push(actions@, failed);
                }
                actions.push(failed);
            },
            None => {},
        }
        let ghost failed_view = actions_view(actions@);
        let covered = match self.grant_coverage {
            Some(grant) => tag.le(&grant),
            None => false,
        };
        if covered {
            p.pending = None;
            self.set_part(i, p);
            let release = CoordinationAction::ReleaseAcquire {
                participant,
                request_id,
                publication_sequence,
                tag,
            };
            proof {
                lemma_view_push(actions@, release);
            }
            actions.push(release);
        } else {
            p.pending = Some(PendingAcquire { request_id, publication_sequence, tag });
            self.set_part(i, p);
        }
        Ok(actions)
    }

    /// Applies an RTI grant (see [`spec_grant`]). Ignored once stopped.
    pub fn grant(&mut self, grant: Tag) -> (actions: Vec<CoordinationAction>)
        requires
            old(self).wf(),
        ensures
            final(self).wf(),
            final(self)@ == spec_grant(old(self)@, grant).0,
            actions_view(actions@) == spec_grant(old(self)@, grant).1,
    {
        let mut actions: Vec<CoordinationAction> = Vec::new();
        if self.stopped {
            assert(actions_view(actions@) =~= Seq::<ActionView>::empty());
            return actions;
        }
        let coverage = match self.grant_coverage {
            Some(old) => old.max_tag(grant),
            None => grant,
        };
        let mut released: Vec<ParticipantState> = Vec::new();
        let mut i: usize = 0;
        while i < self.parts.len()
            invariant
                self.wf(),
                i <= self@.parts.len(),
                released@ == Seq::new(
                    i as nat,
                    |j: int|
                        if released_by(self@.parts[j], grant) {
                            ParticipantState { pending: None, ..self@.parts[j] }
                        } else {
                            self@.parts[j]
                        },
                ),
                actions_view(actions@) == releases_upto(self@.keys, self@.parts, grant, i as int),
            decreases self@.parts.len() - i,
        {
            let mut p = self.parts[i];
            match p.pending {
                Some(pending) => {
                    if pending.tag.le(&grant) {
                        let release = CoordinationAction::ReleaseAcquire {
                            participant: self.keys[i],
                            request_id: pending.request_id,
                            publication_sequence: pending.publication_sequence,
                            tag: pending.tag,
                        };
                        proof {
                            lemma_view_push(actions@, release);
                        }
                        actions.push(release);
                        p.pending = None;
                    }
                },
                None => {},
            }
            released.push(p);
            assert(released@ =~= Seq::new(
                (i + 1) as nat,
                |j: int|
                    if released_by(self@.parts[j], grant) {
                        ParticipantState { pending: None, ..self@.parts[j] }
                    } else {
                        self@.parts[j]
                    },
            ));
            i = i + 1;
        }
        let ghost a1 = actions_view(actions@);
        self.grant_coverage = Some(coverage);
        self.parts = released;
        assert(self@.parts =~= release_covered(old(self)@.parts, grant));
        match self.min_candidate() {
            Some(tag) => {
                if tag.le(&grant) {
                    self.open_round(tag, &mut actions);
                }
            },
            None => {},
        }
        actions
    }

    /// Records that `participant` completed `tag` under `request_id` (see [`spec_complete`]).
    pub fn complete(&mut self, participant: EnclaveKey, request_id: u64, tag: Tag) -> (r: Result<
        Vec<CoordinationAction>,
        CoordinationStateError,
    >)
        requires
            old(self).wf(),
        ensures
            final(self).wf(),
            outcome_matches(
                old(self)@,
                final(self)@,
                r,
                spec_complete(old(self)@, participant, request_id, tag),
            ),
    {
        match &self.terminal_error {
            Some(e) => {
                return Err(CoordinationStateError::Terminal(e.clone()));
            },
            None => {},
        }
        let i = match self.find(participant) {
            Some(i) => i,
            None => {
                return Err(CoordinationStateError::UnknownParticipant(participant));
            },
        };
        let p = self.parts[i];
        if p.finished {
            return Err(CoordinationStateError::AlreadyFinished(participant));
        }
        let (regressed, advances) = match p.completed {
            Some(completed) => (tag.lt(&completed), !completed.same(&tag)),
            None => (false, true),
        };
        if regressed {
            return Err(CoordinationStateError::CompletionRegressed);
        }
        let mut actions: Vec<CoordinationAction> = Vec::new();
        if advances && self.any_certificate() {
            self.invalidate(&mut actions);
        } else {
            assert(actions_view(actions@) =~= Seq::<ActionView>::empty());
        }
        let ghost s1 = self@;
        let ghost a1 = actions_view(actions@);
        let mut q = self.parts[i];
        match q.pending_completion {
            Some(old) => {
                let failed = CoordinationAction::FailRequest {
                    participant,
                    request_id: old,
                    reason: "superseded by newer completion".to_owned(),
                };
                proof {
                    lemma_view_push(actions@, failed);
                }
                actions.push(failed);
                assert(actions_view(actions@) =~= a1 + seq![
                    ActionView::FailRequest {
                        participant,
                        request_id: old,
                        reason: superseded_by_completion(),
                    },
                ]);
            },
            None => {
                assert(actions_view(actions@) =~= a1 + Seq::<ActionView>::empty());
            },
        }
        let ghost a_failed = actions_view(actions@);
        let certificate = match self.round {
            Some((round_tag, epoch)) => if round_tag.le(&tag) {
                Some(epoch)
            } else {
                q.certificate_epoch
            },
            None => q.certificate_epoch,
        };
        q.pending_completion = Some(request_id);
        q.completed = Some(tag);
        q.certificate_epoch = certificate;
        self.set_part(i, q);
        let ghost s2 = self@;
        self.close_round(&mut actions);
        let ghost a3 = close_round(s2).1;
        let release = CoordinationAction::ReleaseCompletion { participant, request_id };
        proof {
            lemma_view_push(actions@, release);
        }
        actions.push(release);
        assert(actions_view(actions@) =~= a_failed + a3 + seq![release@]);
        Ok(actions)
    }
}

fn certifies_publication(
    frontier: LogicalTimeFrontier,
    wake: Option<CoordinationWake>,
    round: Option<(Tag, u64)>,
) -> (b: bool)
    ensures
        b == certifies(frontier, wake, round),
{
    match (wake, round) {
        (Some(w), Some((round_tag, epoch))) => {
            let beyond = match frontier {
                LogicalTimeFrontier::Idle => true,
                LogicalTimeFrontier::Candidate(t) => round_tag.lt(&t),
                LogicalTimeFrontier::Finished => false,
            };
            beyond && w.tag == round_tag && w.observation_epoch == epoch
        },
        _ => false,
    }
}

} // verus!
