//! Properties every run of the Federate coordination state keeps.
use vstd::prelude::*;

use super::state::{
    all_finished, all_live_certified, any_certificate, close_round, invalidate, key_index,
    min_candidate, new_epoch, open_covered_round, publish_accepted, record_publication,
    recompute_net, released_by, releases_upto, spec_acquire, spec_complete, spec_fail,
    spec_grant, spec_publish, state_wf, superseded_by_publication, failures_upto, wakes_upto,
    with_part, live_candidate, min_candidate_upto, some_live_unpublished, ActionView, ErrorView, ParticipantState, StateView,
};
use super::{EnclaveKey, FrontierPublication, Tag};
use crate::protocol::{lemma_tag_order_total, tag_le, tag_max, WireTag};

verus! {

/// Whether `SendStop` occurs among `a`.
pub open spec fn emits_stop(a: Seq<ActionView>) -> bool {
    exists|i: int| 0 <= i < a.len() && (#[trigger] a[i]) is SendStop
}

/// Whether a round is open only for a tag that an RTI grant covers.
pub open spec fn round_covered(s: StateView) -> bool {
    match s.round {
        Some((tag, _)) => s.grant_coverage is Some && tag_le(tag, s.grant_coverage->0),
        None => true,
    }
}

/// Whether the grant coverage of `after` is at least that of `before`.
pub open spec fn coverage_kept(before: StateView, after: StateView) -> bool {
    before.grant_coverage is Some ==> after.grant_coverage is Some && tag_le(
        before.grant_coverage->0,
        after.grant_coverage->0,
    )
}

/// Whether the NET advertisement is never `Forever`.
pub open spec fn net_not_forever(s: StateView) -> bool {
    s.advertised_net != Some(WireTag::Forever)
}

proof fn lemma_no_stop_push(a: Seq<ActionView>, x: ActionView)
    requires
        !emits_stop(a),
        !(x is SendStop),
    ensures
        !emits_stop(a.push(x)),
{
    assert forall|i: int| 0 <= i < a.push(x).len() implies !(#[trigger] a.push(x)[i] is SendStop) by {
        if i < a.len() {
            assert(a.push(x)[i] == a[i]);
        }
    }
}

proof fn lemma_no_stop_add(a: Seq<ActionView>, b: Seq<ActionView>)
    requires
        !emits_stop(a),
        !emits_stop(b),
    ensures
        !emits_stop(a + b),
{
    assert forall|i: int| 0 <= i < (a + b).len() implies !(#[trigger] (a + b)[i] is SendStop) by {
        if i < a.len() {
            assert((a + b)[i] == a[i]);
        } else {
            assert((a + b)[i] == b[i - a.len()]);
        }
    }
}

proof fn lemma_stop_add(a: Seq<ActionView>, b: Seq<ActionView>)
    requires
        emits_stop(a) || emits_stop(b),
    ensures
        emits_stop(a + b),
{
    if emits_stop(a) {
        let i = choose|i: int| 0 <= i < a.len() && (#[trigger] a[i]) is SendStop;
        assert((a + b)[i] == a[i]);
    } else {
        let i = choose|i: int| 0 <= i < b.len() && (#[trigger] b[i]) is SendStop;
        assert((a + b)[a.len() + i] == b[i]);
    }
}

proof fn lemma_wakes_no_stop(
    keys: Seq<EnclaveKey>,
    parts: Seq<ParticipantState>,
    tag: Tag,
    epoch: u64,
    n: int,
)
    ensures
        !emits_stop(wakes_upto(keys, parts, tag, epoch, n)),
    decreases n,
{
    if n > 0 {
        lemma_wakes_no_stop(keys, parts, tag, epoch, n - 1);
        if !parts[n - 1].finished {
            lemma_no_stop_push(
                wakes_upto(keys, parts, tag, epoch, n - 1),
                ActionView::WakeParticipant { participant: keys[n - 1], tag, observation_epoch: epoch },
            );
        }
    }
}

proof fn lemma_releases_no_stop(keys: Seq<EnclaveKey>, parts: Seq<ParticipantState>, grant: Tag, n: int)
    ensures
        !emits_stop(releases_upto(keys, parts, grant, n)),
    decreases n,
{
    if n > 0 {
        lemma_releases_no_stop(keys, parts, grant, n - 1);
        let p = parts[n - 1];
        if released_by(p, grant) {
            lemma_no_stop_push(
                releases_upto(keys, parts, grant, n - 1),
                ActionView::ReleaseAcquire {
                    participant: keys[n - 1],
                    request_id: p.pending->0.request_id,
                    publication_sequence: p.pending->0.publication_sequence,
                    tag: p.pending->0.tag,
                },
            );
        }
    }
}

proof fn lemma_failures_no_stop(
    keys: Seq<EnclaveKey>,
    parts: Seq<ParticipantState>,
    reason: Seq<char>,
    n: int,
)
    ensures
        !emits_stop(failures_upto(keys, parts, reason, n)),
    decreases n,
{
    if n > 0 {
        lemma_failures_no_stop(keys, parts, reason, n - 1);
        let prev = failures_upto(keys, parts, reason, n - 1);
        let p = parts[n - 1];
        let with_acquire = match p.pending {
            Some(pending) => prev.push(
                ActionView::FailRequest { participant: keys[n - 1], request_id: pending.request_id, reason },
            ),
            None => prev,
        };
        if p.pending is Some {
            lemma_no_stop_push(
                prev,
                ActionView::FailRequest {
                    participant: keys[n - 1],
                    request_id: p.pending->0.request_id,
                    reason,
                },
            );
        }
        if p.pending_completion is Some {
            lemma_no_stop_push(
                with_acquire,
                ActionView::FailRequest {
                    participant: keys[n - 1],
                    request_id: p.pending_completion->0,
                    reason,
                },
            );
        }
    }
}

proof fn lemma_empty_no_stop()
    ensures
        !emits_stop(Seq::<ActionView>::empty()),
{
}

proof fn lemma_single_no_stop(x: ActionView)
    requires
        !(x is SendStop),
    ensures
        !emits_stop(seq![x]),
{
    lemma_no_stop_push(Seq::empty(), x);
}

proof fn lemma_recompute_net(s: StateView)
    ensures
        !emits_stop(recompute_net(s).1),
        recompute_net(s).0.stopped == s.stopped,
        recompute_net(s).0.round == s.round,
        recompute_net(s).0.grant_coverage == s.grant_coverage,
        net_not_forever(s) ==> net_not_forever(recompute_net(s).0),
{
    if recompute_net(s).1.len() > 0 {
        lemma_single_no_stop(ActionView::RequestNet { tag: min_candidate(s.parts)->0 });
    }
}

proof fn lemma_close_round(s: StateView)
    ensures
        !emits_stop(close_round(s).1),
        close_round(s).0.stopped == s.stopped,
        close_round(s).0.grant_coverage == s.grant_coverage,
        round_covered(s) ==> round_covered(close_round(s).0),
        net_not_forever(s) ==> net_not_forever(close_round(s).0),
{
    match s.round {
        Some((tag, epoch)) => if all_live_certified(s.parts, epoch) {
            let closed = StateView { round: None, ..s };
            lemma_recompute_net(closed);
            lemma_single_no_stop(ActionView::ReportLtc { tag });
            lemma_no_stop_add(seq![ActionView::ReportLtc { tag }], recompute_net(closed).1);
        },
        None => {},
    }
}

proof fn lemma_invalidate(s: StateView)
    ensures
        !emits_stop(invalidate(s).1),
        invalidate(s).0.stopped == s.stopped,
        invalidate(s).0.grant_coverage == s.grant_coverage,
        invalidate(s).0.advertised_net == s.advertised_net,
        round_covered(s) ==> round_covered(invalidate(s).0),
{
    let e = new_epoch(s);
    lemma_wakes_no_stop(e.keys, e.parts, WireTag::Never, 0, 0);
    match s.round {
        Some((tag, _)) => {
            lemma_wakes_no_stop(e.keys, e.parts, tag, e.observation_epoch, e.parts.len() as int);
        },
        None => {},
    }
}

proof fn lemma_open_covered_round(s: StateView)
    ensures
        !emits_stop(open_covered_round(s).1),
        open_covered_round(s).0.stopped == s.stopped,
        open_covered_round(s).0.grant_coverage == s.grant_coverage,
        open_covered_round(s).0.advertised_net == s.advertised_net,
        round_covered(s) ==> round_covered(open_covered_round(s).0),
{
    match (min_candidate(s.parts), s.grant_coverage) {
        (Some(tag), Some(grant)) => if tag_le(tag, grant) {
            let e = new_epoch(s);
            lemma_wakes_no_stop(e.keys, e.parts, tag, e.observation_epoch, e.parts.len() as int);
        },
        _ => {},
    }
}

/// Once `fail` recorded a reason, later failures change nothing and answer nothing; the first
/// failure stops the Federate.
pub proof fn lemma_fail_keeps_first_error(s: StateView, reason: Seq<char>)
    ensures
        s.terminal_error is Some ==> spec_fail(s, reason) == (s, Seq::<ActionView>::empty()),
        s.terminal_error is None ==> spec_fail(s, reason).0.terminal_error == Some(reason),
        s.terminal_error is None ==> spec_fail(s, reason).0.stopped,
        spec_fail(spec_fail(s, reason).0, reason).0 == spec_fail(s, reason).0,
{
}

/// A failed coordination refuses every publication, acquisition and completion with its first
/// failure reason.
pub proof fn lemma_terminal_refuses(
    s: StateView,
    participant: EnclaveKey,
    sequence: u64,
    publication: FrontierPublication,
    request_id: u64,
    tag: Tag,
)
    requires
        s.terminal_error is Some,
    ensures
        spec_publish(s, participant, sequence, publication) == Err::<(StateView, Seq<ActionView>), ErrorView>(
            ErrorView::Terminal(s.terminal_error->0),
        ),
        spec_acquire(s, participant, request_id, sequence, tag) == Err::<
            (StateView, Seq<ActionView>),
            ErrorView,
        >(ErrorView::Terminal(s.terminal_error->0)),
        spec_complete(s, participant, request_id, tag) == Err::<(StateView, Seq<ActionView>), ErrorView>(
            ErrorView::Terminal(s.terminal_error->0),
        ),
{
}

/// A grant is the only step that moves grant coverage, which only grows, to the largest grant
/// seen; a stopped Federate ignores grants.
pub proof fn lemma_grant_coverage(s: StateView, grant: Tag)
    ensures
        coverage_kept(s, spec_grant(s, grant).0),
        !s.stopped ==> spec_grant(s, grant).0.grant_coverage == Some(
            match s.grant_coverage {
                Some(old) => tag_max(old, grant),
                None => grant,
            },
        ),
        s.stopped ==> spec_grant(s, grant) == (s, Seq::<ActionView>::empty()),
{
    if !s.stopped && s.grant_coverage is Some {
        lemma_tag_order_total(s.grant_coverage->0, grant, grant);
    }
}

/// `SendStop` is emitted at most once over a run: a stopped state stays stopped and a step
/// that emits `SendStop` starts from a state that had not stopped. The same holds for publication.
pub proof fn lemma_publish_stops_once(
    s: StateView,
    participant: EnclaveKey,
    sequence: u64,
    publication: FrontierPublication,
)
    requires
        state_wf(s),
    ensures
        spec_publish(s, participant, sequence, publication) is Ok ==> {
            let (after, actions) = spec_publish(s, participant, sequence, publication)->Ok_0;
            &&& s.stopped ==> after.stopped
            &&& emits_stop(actions) ==> !s.stopped && after.stopped
            &&& coverage_kept(s, after)
            &&& round_covered(s) ==> round_covered(after)
        },
{
    if spec_publish(s, participant, sequence, publication) is Ok && s.terminal_error is None
        && s.keys.contains(participant) {
        let i = key_index(s.keys, participant);
        if !s.parts[i].finished {
            lemma_publish_accepted(s, i, sequence, publication);
        }
    }
}

proof fn lemma_publish_accepted(s: StateView, i: int, sequence: u64, publication: FrontierPublication)
    requires
        0 <= i < s.parts.len(),
        s.keys.len() == s.parts.len(),
    ensures
        ({
            let (after, actions) = publish_accepted(s, i, sequence, publication);
            &&& s.stopped ==> after.stopped
            &&& emits_stop(actions) ==> !s.stopped && after.stopped
            &&& coverage_kept(s, after)
            &&& round_covered(s) ==> round_covered(after)
        }),
{
    let changed = s.parts[i].frontier != Some(publication.frontier);
    let finishing = publication.frontier == super::LogicalTimeFrontier::Finished;
    let marked = if finishing {
        with_part(s, i, ParticipantState { finished: true, ..s.parts[i] })
    } else {
        s
    };
    lemma_invalidate(marked);
    let (s1, a1) = if changed && any_certificate(s.parts) {
        invalidate(marked)
    } else {
        (s, Seq::empty())
    };
    let (s2, a2) = record_publication(s1, i, sequence, publication);
    assert(!emits_stop(a1));
    let p = s1.parts[i];
    if p.pending is Some {
        lemma_single_no_stop(
            ActionView::FailRequest {
                participant: s1.keys[i],
                request_id: p.pending->0.request_id,
                reason: superseded_by_publication(),
            },
        );
    }
    assert(!emits_stop(a2));
    lemma_no_stop_add(a1, a2);
    let s3 = if finishing {
        with_part(s2, i, ParticipantState { finished: true, certificate_epoch: None, ..s2.parts[i] })
    } else {
        s2
    };
    if finishing && all_finished(s3.parts) && !s3.stopped {
        assert(seq![ActionView::SendStop][0] is SendStop);
        lemma_stop_add(a1 + a2, seq![ActionView::SendStop]);
        if s.grant_coverage is Some {
            lemma_tag_order_total(s.grant_coverage->0, s.grant_coverage->0, s.grant_coverage->0);
        }
    } else {
        lemma_open_covered_round(s3);
        let (s4, a4) = if changed && s3.round is None {
            open_covered_round(s3)
        } else {
            (s3, Seq::empty())
        };
        lemma_recompute_net(s4);
        let (s5, a5) = recompute_net(s4);
        lemma_close_round(s5);
        let (s6, a6) = close_round(s5);
        lemma_no_stop_add(a1 + a2, a4);
        lemma_no_stop_add(a1 + a2 + a4, a5);
        lemma_no_stop_add(a1 + a2 + a4 + a5, a6);
        if s.grant_coverage is Some {
            lemma_tag_order_total(s.grant_coverage->0, s.grant_coverage->0, s.grant_coverage->0);
        }
    }
}

proof fn lemma_release_covered_len(parts: Seq<ParticipantState>, grant: Tag)
    ensures
        super::state::release_covered(parts, grant).len() == parts.len(),
{
}

/// Grants never stop the Federate, keep coverage growing, and open rounds only for covered tags.
pub proof fn lemma_grant_keeps(s: StateView, grant: Tag)
    ensures
        ({
            let (after, actions) = spec_grant(s, grant);
            &&& after.stopped == s.stopped
            &&& !emits_stop(actions)
            &&& coverage_kept(s, after)
            &&& round_covered(s) ==> round_covered(after)
        }),
{
    lemma_grant_coverage(s, grant);
    lemma_releases_no_stop(s.keys, s.parts, grant, s.parts.len() as int);
    if !s.stopped {
        let coverage = match s.grant_coverage {
            Some(old) => tag_max(old, grant),
            None => grant,
        };
        let s1 = StateView {
            grant_coverage: Some(coverage),
            parts: super::state::release_covered(s.parts, grant),
            ..s
        };
        let a1 = releases_upto(s.keys, s.parts, grant, s.parts.len() as int);
        match s.grant_coverage {
            Some(old) => {
                lemma_tag_order_total(old, grant, grant);
                match s.round {
                    Some((t, _)) => {
                        lemma_tag_order_total(t, old, coverage);
                    },
                    None => {},
                }
            },
            None => {},
        }
        match min_candidate(s1.parts) {
            Some(tag) => if tag_le(tag, grant) {
                let e = new_epoch(s1);
                lemma_wakes_no_stop(e.keys, e.parts, tag, e.observation_epoch, e.parts.len() as int);
                lemma_no_stop_add(a1, wakes_upto(e.keys, e.parts, tag, e.observation_epoch, e.parts.len() as int));
                lemma_tag_order_total(tag, grant, coverage);
                match s.grant_coverage {
                    Some(old) => {
                        lemma_tag_order_total(grant, old, grant);
                    },
                    None => {},
                }
            },
            None => {},
        }
    }
}

/// Acquisitions never stop the Federate and touch neither coverage nor the open round.
pub proof fn lemma_acquire_keeps(
    s: StateView,
    participant: EnclaveKey,
    request_id: u64,
    publication_sequence: u64,
    tag: Tag,
)
    ensures
        spec_acquire(s, participant, request_id, publication_sequence, tag) is Ok ==> {
            let (after, actions) = spec_acquire(s, participant, request_id, publication_sequence, tag)->Ok_0;
            &&& after.stopped == s.stopped
            &&& !emits_stop(actions)
            &&& after.grant_coverage == s.grant_coverage
            &&& after.round == s.round
        },
{
    if spec_acquire(s, participant, request_id, publication_sequence, tag) is Ok {
        let i = key_index(s.keys, participant);
        let p = s.parts[i];
        let failed = match p.pending {
            Some(old) => seq![
                ActionView::FailRequest {
                    participant,
                    request_id: old.request_id,
                    reason: super::state::superseded_by_acquire(),
                },
            ],
            None => Seq::empty(),
        };
        if p.pending is Some {
            lemma_single_no_stop(failed[0]);
        }
        lemma_no_stop_push(
            failed,
            ActionView::ReleaseAcquire { participant, request_id, publication_sequence, tag },
        );
    }
}

/// Completions never stop the Federate, leave coverage alone and never open a round.
pub proof fn lemma_complete_keeps(s: StateView, participant: EnclaveKey, request_id: u64, tag: Tag)
    ensures
        spec_complete(s, participant, request_id, tag) is Ok ==> {
            let (after, actions) = spec_complete(s, participant, request_id, tag)->Ok_0;
            &&& after.stopped == s.stopped
            &&& !emits_stop(actions)
            &&& after.grant_coverage == s.grant_coverage
            &&& round_covered(s) ==> round_covered(after)
        },
{
    if spec_complete(s, participant, request_id, tag) is Ok {
        let i = key_index(s.keys, participant);
        let p = s.parts[i];
        let advances = p.completed != Some(tag);
        lemma_invalidate(s);
        let (s1, a1) = if advances && any_certificate(s.parts) {
            invalidate(s)
        } else {
            (s, Seq::empty())
        };
        let q = s1.parts[i];
        let failed = match q.pending_completion {
            Some(old) => seq![
                ActionView::FailRequest {
                    participant,
                    request_id: old,
                    reason: super::state::superseded_by_completion(),
                },
            ],
            None => Seq::empty(),
        };
        if q.pending_completion is Some {
            lemma_single_no_stop(failed[0]);
        }
        let certificate = match s1.round {
            Some((round_tag, epoch)) => if tag_le(round_tag, tag) {
                Some(epoch)
            } else {
                q.certificate_epoch
            },
            None => q.certificate_epoch,
        };
        let s2 = with_part(
            s1,
            i,
            ParticipantState {
                pending_completion: Some(request_id),
                completed: Some(tag),
                certificate_epoch: certificate,
                ..q
            },
        );
        lemma_close_round(s2);
        let a3 = close_round(s2).1;
        lemma_no_stop_add(a1, failed);
        lemma_no_stop_add(a1 + failed, a3);
        lemma_single_no_stop(ActionView::ReleaseCompletion { participant, request_id });
        lemma_no_stop_add(a1 + failed + a3, seq![ActionView::ReleaseCompletion { participant, request_id }]);
    }
}

/// A terminal failure emits `SendStop` only from a running Federate and leaves it stopped.
pub proof fn lemma_fail_stops_once(s: StateView, reason: Seq<char>)
    ensures
        ({
            let (after, actions) = spec_fail(s, reason);
            &&& s.stopped ==> after.stopped
            &&& emits_stop(actions) ==> !s.stopped && after.stopped
            &&& after.grant_coverage == s.grant_coverage
            &&& after.round == s.round
        }),
{
    lemma_failures_no_stop(s.keys, s.parts, reason, s.parts.len() as int);
    if s.terminal_error is None && s.stopped {
        assert(spec_fail(s, reason).1 == failures_upto(s.keys, s.parts, reason, s.parts.len() as int));
    }
}

/// A NET request names the least live candidate, is never `Forever`, and becomes the
/// advertised NET.
pub proof fn lemma_net_request(s: StateView)
    ensures
        recompute_net(s).1.len() > 0 ==> {
            &&& min_candidate(s.parts) is Some
            &&& min_candidate(s.parts)->0 != WireTag::Forever
            &&& recompute_net(s).1 == seq![ActionView::RequestNet { tag: min_candidate(s.parts)->0 }]
            &&& recompute_net(s).0.advertised_net == min_candidate(s.parts)
        },
        recompute_net(s).1.len() == 0 ==> recompute_net(s).0 == s,
{
}

/// Whether every NET request among `a` names a tag other than `Forever`.
pub open spec fn net_requests_finite_or_never(a: Seq<ActionView>) -> bool {
    forall|i: int| 0 <= i < a.len() ==> !((#[trigger] a[i]) matches ActionView::RequestNet { tag } && tag
        == WireTag::Forever)
}

proof fn lemma_wakes_request_no_net(keys: Seq<EnclaveKey>, parts: Seq<ParticipantState>, tag: Tag, epoch: u64, n: int)
    ensures
        forall|i: int| 0 <= i < wakes_upto(keys, parts, tag, epoch, n).len() ==> !((#[trigger] wakes_upto(
            keys,
            parts,
            tag,
            epoch,
            n,
        )[i]) is RequestNet),
    decreases n,
{
    if n > 0 {
        lemma_wakes_request_no_net(keys, parts, tag, epoch, n - 1);
    }
}

proof fn lemma_net_requests_concat(a: Seq<ActionView>, b: Seq<ActionView>)
    requires
        net_requests_finite_or_never(a),
        net_requests_finite_or_never(b),
    ensures
        net_requests_finite_or_never(a + b),
{
    assert forall|i: int| 0 <= i < (a + b).len() implies !((#[trigger] (a + b)[i]) matches ActionView::RequestNet {
        tag,
    } && tag == WireTag::Forever) by {
        if i < a.len() {
            assert((a + b)[i] == a[i]);
        } else {
            assert((a + b)[i] == b[i - a.len()]);
        }
    }
}

proof fn lemma_recompute_net_finite(s: StateView)
    ensures
        net_requests_finite_or_never(recompute_net(s).1),
{
    lemma_net_request(s);
}

proof fn lemma_close_round_finite(s: StateView)
    ensures
        net_requests_finite_or_never(close_round(s).1),
{
    if let Some((tag, epoch)) = s.round {
        if all_live_certified(s.parts, epoch) {
            let closed = StateView { round: None, ..s };
            lemma_recompute_net_finite(closed);
            lemma_net_requests_concat(seq![ActionView::ReportLtc { tag }], recompute_net(closed).1);
        }
    }
}

/// Law of publication: whatever a publication does, it never requests a NET of `Forever`.
pub proof fn lemma_publish_never_requests_forever(
    s: StateView,
    participant: EnclaveKey,
    sequence: u64,
    publication: FrontierPublication,
)
    ensures
        spec_publish(s, participant, sequence, publication) matches Ok((_, actions))
            ==> net_requests_finite_or_never(actions),
{
    if s.terminal_error is None && s.keys.contains(participant) {
        let i = key_index(s.keys, participant);
        if !s.parts[i].finished && !(s.parts[i].publication_sequence is Some && sequence
            <= s.parts[i].publication_sequence->0) {
            let changed = s.parts[i].frontier != Some(publication.frontier);
            let finishing = publication.frontier == super::LogicalTimeFrontier::Finished;
            let (s1, a1) = if changed && any_certificate(s.parts) {
                let marked = if finishing {
                    with_part(s, i, ParticipantState { finished: true, ..s.parts[i] })
                } else {
                    s
                };
                let e = new_epoch(marked);
                if let Some((tag, _)) = marked.round {
                    lemma_wakes_request_no_net(e.keys, e.parts, tag, e.observation_epoch, e.parts.len() as int);
                }
                invalidate(marked)
            } else {
                (s, Seq::empty())
            };
            let (s2, a2) = record_publication(s1, i, sequence, publication);
            let s3 = if finishing {
                with_part(s2, i, ParticipantState { finished: true, certificate_epoch: None, ..s2.parts[i] })
            } else {
                s2
            };
            lemma_net_requests_concat(a1, a2);
            if finishing && all_finished(s3.parts) && !s3.stopped {
                lemma_net_requests_concat(a1 + a2, seq![ActionView::SendStop]);
            } else {
                let (s4, a4) = if changed && s3.round is None {
                    open_covered_round(s3)
                } else {
                    (s3, Seq::empty())
                };
                if changed && s3.round is None {
                    if let (Some(tag), Some(grant)) = (min_candidate(s3.parts), s3.grant_coverage) {
                        let e = new_epoch(s3);
                        lemma_wakes_request_no_net(e.keys, e.parts, tag, e.observation_epoch, e.parts.len() as int);
                    }
                }
                let (s5, a5) = recompute_net(s4);
                lemma_recompute_net_finite(s4);
                lemma_close_round_finite(s5);
                lemma_net_requests_concat(a1 + a2, a4);
                lemma_net_requests_concat(a1 + a2 + a4, a5);
                lemma_net_requests_concat(a1 + a2 + a4 + a5, close_round(s5).1);
            }
        }
    }
}

/// Whether every NET request among `a` names `least`.
pub open spec fn net_requests_name(a: Seq<ActionView>, least: Option<Tag>) -> bool {
    forall|i: int| 0 <= i < a.len() ==> ((#[trigger] a[i]) matches ActionView::RequestNet { tag } ==> least
        == Some(tag))
}

proof fn lemma_no_net_requests_name(a: Seq<ActionView>, least: Option<Tag>)
    requires
        forall|i: int| 0 <= i < a.len() ==> !((#[trigger] a[i]) is RequestNet),
    ensures
        net_requests_name(a, least),
{
}

proof fn lemma_net_requests_name_concat(a: Seq<ActionView>, b: Seq<ActionView>, least: Option<Tag>)
    requires
        net_requests_name(a, least),
        net_requests_name(b, least),
    ensures
        net_requests_name(a + b, least),
{
    assert forall|i: int| 0 <= i < (a + b).len() implies ((#[trigger] (a + b)[i]) matches ActionView::RequestNet {
        tag,
    } ==> least == Some(tag)) by {
        if i < a.len() {
            assert((a + b)[i] == a[i]);
        } else {
            assert((a + b)[i] == b[i - a.len()]);
        }
    }
}

proof fn lemma_candidates_absent(parts: Seq<ParticipantState>, n: int)
    requires
        0 <= n <= parts.len(),
        forall|i: int| 0 <= i < n ==> #[trigger] live_candidate(parts[i]) is None,
    ensures
        min_candidate_upto(parts, n) is None,
    decreases n,
{
    if n > 0 {
        lemma_candidates_absent(parts, n - 1);
    }
}

/// With no live participant offering a candidate tag (every live one idle), nothing is left
/// to request: there is no least candidate.
pub proof fn lemma_idle_participants_have_no_candidate(parts: Seq<ParticipantState>)
    requires
        forall|i: int| 0 <= i < parts.len() ==> #[trigger] live_candidate(parts[i]) is None,
    ensures
        min_candidate(parts) is None,
{
    lemma_candidates_absent(parts, parts.len() as int);
}

/// Law of publication: every NET a publication requests names the least live candidate of the
/// state it leaves, so a Federate whose live participants are all idle requests none.
pub proof fn lemma_publish_requests_least_candidate(
    s: StateView,
    participant: EnclaveKey,
    sequence: u64,
    publication: FrontierPublication,
)
    ensures
        spec_publish(s, participant, sequence, publication) matches Ok((after, actions)) ==> net_requests_name(
            actions,
            min_candidate(after.parts),
        ),
{
    if s.terminal_error is None && s.keys.contains(participant) {
        let i = key_index(s.keys, participant);
        if !s.parts[i].finished && !(s.parts[i].publication_sequence is Some && sequence
            <= s.parts[i].publication_sequence->0) {
            let changed = s.parts[i].frontier != Some(publication.frontier);
            let finishing = publication.frontier == super::LogicalTimeFrontier::Finished;
            let (s1, a1) = if changed && any_certificate(s.parts) {
                let marked = if finishing {
                    with_part(s, i, ParticipantState { finished: true, ..s.parts[i] })
                } else {
                    s
                };
                let e = new_epoch(marked);
                if let Some((tag, _)) = marked.round {
                    lemma_wakes_request_no_net(e.keys, e.parts, tag, e.observation_epoch, e.parts.len() as int);
                }
                invalidate(marked)
            } else {
                (s, Seq::empty())
            };
            let (s2, a2) = record_publication(s1, i, sequence, publication);
            let s3 = if finishing {
                with_part(s2, i, ParticipantState { finished: true, certificate_epoch: None, ..s2.parts[i] })
            } else {
                s2
            };
            if !(finishing && all_finished(s3.parts) && !s3.stopped) {
                let (s4, a4) = if changed && s3.round is None {
                    open_covered_round(s3)
                } else {
                    (s3, Seq::empty())
                };
                if changed && s3.round is None {
                    if let (Some(tag), Some(grant)) = (min_candidate(s3.parts), s3.grant_coverage) {
                        let e = new_epoch(s3);
                        lemma_wakes_request_no_net(e.keys, e.parts, tag, e.observation_epoch, e.parts.len() as int);
                    }
                }
                let (s5, a5) = recompute_net(s4);
                let least = min_candidate(s4.parts);
                lemma_net_request(s4);
                lemma_no_net_requests_name(a1, least);
                lemma_no_net_requests_name(a2, least);
                lemma_no_net_requests_name(a4, least);
                if let Some((tag, epoch)) = s5.round {
                    if all_live_certified(s5.parts, epoch) {
                        let closed = StateView { round: None, ..s5 };
                        lemma_net_request(closed);
                        lemma_net_requests_name_concat(seq![ActionView::ReportLtc { tag }], recompute_net(closed).1, least);
                    }
                }
                lemma_net_requests_name_concat(a1, a2, least);
                lemma_net_requests_name_concat(a1 + a2, a4, least);
                lemma_net_requests_name_concat(a1 + a2 + a4, a5, least);
                lemma_net_requests_name_concat(a1 + a2 + a4 + a5, close_round(s5).1, least);
            } else {
                lemma_no_net_requests_name(a1, min_candidate(s3.parts));
                lemma_no_net_requests_name(a2, min_candidate(s3.parts));
                lemma_net_requests_name_concat(a1, a2, min_candidate(s3.parts));
                lemma_net_requests_name_concat(a1 + a2, seq![ActionView::SendStop], min_candidate(s3.parts));
            }
        }
    }
}

/// Whether every NET request among `a` is the advertisement `after` holds: no round is open,
/// every live participant has published, the tag is the least live candidate and is now the
/// advertised NET, and it differs from the NET advertised before (`before_net`).
pub open spec fn net_requests_fresh(a: Seq<ActionView>, before_net: Option<Tag>, after: StateView) -> bool {
    forall|i: int|
        0 <= i < a.len() ==> ((#[trigger] a[i]) matches ActionView::RequestNet { tag } ==> {
            &&& after.round is None
            &&& !some_live_unpublished(after.parts)
            &&& min_candidate(after.parts) == Some(tag)
            &&& after.advertised_net == Some(tag)
            &&& before_net != Some(tag)
        })
}

proof fn lemma_no_net_requests_fresh(a: Seq<ActionView>, before_net: Option<Tag>, after: StateView)
    requires
        forall|i: int| 0 <= i < a.len() ==> !((#[trigger] a[i]) is RequestNet),
    ensures
        net_requests_fresh(a, before_net, after),
{
}

proof fn lemma_net_requests_fresh_concat(
    a: Seq<ActionView>,
    b: Seq<ActionView>,
    before_net: Option<Tag>,
    after: StateView,
)
    requires
        net_requests_fresh(a, before_net, after),
        net_requests_fresh(b, before_net, after),
    ensures
        net_requests_fresh(a + b, before_net, after),
{
    assert forall|i: int| 0 <= i < (a + b).len() implies ((#[trigger] (a + b)[i]) matches ActionView::RequestNet {
        tag,
    } ==> {
        &&& after.round is None
        &&& !some_live_unpublished(after.parts)
        &&& min_candidate(after.parts) == Some(tag)
        &&& after.advertised_net == Some(tag)
        &&& before_net != Some(tag)
    }) by {
        if i < a.len() {
            assert((a + b)[i] == a[i]);
        } else {
            assert((a + b)[i] == b[i - a.len()]);
        }
    }
}

proof fn lemma_recompute_net_fresh(x: StateView)
    ensures
        net_requests_fresh(recompute_net(x).1, x.advertised_net, recompute_net(x).0),
        recompute_net(x).0.round == x.round,
        recompute_net(x).0.parts == x.parts,
        recompute_net(x).0.stopped == x.stopped,
        recompute_net(x).1.len() == 0 ==> recompute_net(x).0 == x,
{
}

/// Law of publication: a publication requests a NET only when no round is open and every live
/// participant has published, for the least live candidate, which becomes the advertised NET and
/// differs from the NET advertised before; when every live participant is idle it requests none.
/// A publication other than `Finished` never stops the Federate, and one that does stop it
/// leaves every participant finished.
pub proof fn lemma_publish_net_request(
    s: StateView,
    participant: EnclaveKey,
    sequence: u64,
    publication: FrontierPublication,
)
    requires
        state_wf(s),
    ensures
        spec_publish(s, participant, sequence, publication) matches Ok((after, actions)) ==> {
            &&& net_requests_fresh(actions, s.advertised_net, after)
            &&& (forall|i: int| 0 <= i < after.parts.len() ==> #[trigger] live_candidate(after.parts[i]) is None)
                ==> forall|i: int| 0 <= i < actions.len() ==> !((#[trigger] actions[i]) is RequestNet)
            &&& publication.frontier != super::LogicalTimeFrontier::Finished ==> after.stopped == s.stopped
                && !emits_stop(actions)
            &&& after.stopped != s.stopped ==> all_finished(after.parts)
        },
{
    lemma_publish_stops_once(s, participant, sequence, publication);
    if s.terminal_error is None && s.keys.contains(participant) {
        let i = key_index(s.keys, participant);
        if !s.parts[i].finished && !(s.parts[i].publication_sequence is Some && sequence
            <= s.parts[i].publication_sequence->0) {
            let changed = s.parts[i].frontier != Some(publication.frontier);
            let finishing = publication.frontier == super::LogicalTimeFrontier::Finished;
            let (s1, a1) = if changed && any_certificate(s.parts) {
                let marked = if finishing {
                    with_part(s, i, ParticipantState { finished: true, ..s.parts[i] })
                } else {
                    s
                };
                let e = new_epoch(marked);
                if let Some((tag, _)) = marked.round {
                    lemma_wakes_request_no_net(e.keys, e.parts, tag, e.observation_epoch, e.parts.len() as int);
                }
                invalidate(marked)
            } else {
                (s, Seq::empty())
            };
            let (s2, a2) = record_publication(s1, i, sequence, publication);
            let s3 = if finishing {
                with_part(s2, i, ParticipantState { finished: true, certificate_epoch: None, ..s2.parts[i] })
            } else {
                s2
            };
            assert(s3.advertised_net == s.advertised_net);
            assert(s3.stopped == s.stopped);
            let (after, actions) = publish_accepted(s, i, sequence, publication);
            lemma_no_net_requests_fresh(a1, s.advertised_net, after);
            lemma_no_net_requests_fresh(a2, s.advertised_net, after);
            lemma_net_requests_fresh_concat(a1, a2, s.advertised_net, after);
            if finishing && all_finished(s3.parts) && !s3.stopped {
                lemma_no_net_requests_fresh(seq![ActionView::SendStop], s.advertised_net, after);
                lemma_net_requests_fresh_concat(a1 + a2, seq![ActionView::SendStop], s.advertised_net, after);
            } else {
                let (s4, a4) = if changed && s3.round is None {
                    open_covered_round(s3)
                } else {
                    (s3, Seq::empty())
                };
                if changed && s3.round is None {
                    if let (Some(tag), Some(grant)) = (min_candidate(s3.parts), s3.grant_coverage) {
                        let e = new_epoch(s3);
                        lemma_wakes_request_no_net(e.keys, e.parts, tag, e.observation_epoch, e.parts.len() as int);
                    }
                }
                assert(s4.advertised_net == s.advertised_net);
                assert(s4.stopped == s.stopped);
                lemma_no_net_requests_fresh(a4, s.advertised_net, after);
                lemma_net_requests_fresh_concat(a1 + a2, a4, s.advertised_net, after);
                let (s5, a5) = recompute_net(s4);
                lemma_recompute_net_fresh(s4);
                let (s6, a6) = close_round(s5);
                if a5.len() > 0 {
                    assert(s6 == s5);
                    assert(a6 =~= Seq::<ActionView>::empty());
                    lemma_no_net_requests_fresh(a6, s.advertised_net, after);
                } else {
                    if let Some((tag, epoch)) = s5.round {
                        if all_live_certified(s5.parts, epoch) {
                            let closed = StateView { round: None, ..s5 };
                            lemma_recompute_net_fresh(closed);
                            lemma_no_net_requests_fresh(seq![ActionView::ReportLtc { tag }], s.advertised_net, after);
                            lemma_net_requests_fresh_concat(
                                seq![ActionView::ReportLtc { tag }],
                                recompute_net(closed).1,
                                s.advertised_net,
                                after,
                            );
                        } else {
                            lemma_no_net_requests_fresh(a6, s.advertised_net, after);
                        }
                    } else {
                        lemma_no_net_requests_fresh(a6, s.advertised_net, after);
                    }
                }
                lemma_net_requests_fresh_concat(a1 + a2 + a4, a5, s.advertised_net, after);
                lemma_net_requests_fresh_concat(a1 + a2 + a4 + a5, a6, s.advertised_net, after);
            }
            if forall|k: int| 0 <= k < after.parts.len() ==> #[trigger] live_candidate(after.parts[k]) is None {
                lemma_idle_participants_have_no_candidate(after.parts);
            }
        }
    }
}

proof fn lemma_min_candidate_upto_least(parts: Seq<ParticipantState>, n: int)
    requires
        0 <= n <= parts.len(),
    ensures
        min_candidate_upto(parts, n) matches Some(m) ==> {
            &&& forall|i: int| 0 <= i < n && (#[trigger] live_candidate(parts[i])) is Some ==> tag_le(m, live_candidate(parts[i])->0)
            &&& exists|i: int| 0 <= i < n && #[trigger] live_candidate(parts[i]) == Some(m)
        },
        min_candidate_upto(parts, n) is None ==> forall|i: int| 0 <= i < n ==> (#[trigger] live_candidate(parts[i])) is None,
    decreases n,
{
    if n > 0 {
        lemma_min_candidate_upto_least(parts, n - 1);
        let prev = min_candidate_upto(parts, n - 1);
        if let Some(t) = live_candidate(parts[n - 1]) {
            if let Some(m0) = prev {
                let m = min_candidate_upto(parts, n)->0;
                lemma_tag_order_total(m0, t, t);
                lemma_tag_order_total(m, m0, t);
                lemma_tag_order_total(m, t, m0);
                assert forall|i: int| 0 <= i < n && (#[trigger] live_candidate(parts[i])) is Some implies tag_le(
                    m,
                    live_candidate(parts[i])->0,
                ) by {
                    if i < n - 1 {
                        lemma_tag_order_total(m, m0, live_candidate(parts[i])->0);
                    }
                }
                if m == m0 {
                    let i = choose|i: int| 0 <= i < n - 1 && #[trigger] live_candidate(parts[i]) == Some(m0);
                    assert(live_candidate(parts[i]) == Some(m));
                } else {
                    assert(live_candidate(parts[n - 1]) == Some(m));
                }
            } else {
                lemma_tag_order_total(t, t, t);
                assert(live_candidate(parts[n - 1]) == Some(t));
            }
        }
    }
}

/// Law of the coordination state: the least live candidate is at most every live participant's
/// candidate tag and is one of them; there is none exactly when no live participant offers one.
pub proof fn lemma_min_candidate_is_least(parts: Seq<ParticipantState>)
    ensures
        min_candidate(parts) matches Some(m) ==> {
            &&& forall|i: int|
                0 <= i < parts.len() && (#[trigger] live_candidate(parts[i])) is Some ==> tag_le(
                    m,
                    live_candidate(parts[i])->0,
                )
            &&& exists|i: int| 0 <= i < parts.len() && #[trigger] live_candidate(parts[i]) == Some(m)
        },
        min_candidate(parts) is None <==> forall|i: int| 0 <= i < parts.len() ==> (#[trigger] live_candidate(parts[i])) is None,
{
    lemma_min_candidate_upto_least(parts, parts.len() as int);
    if forall|i: int| 0 <= i < parts.len() ==> (#[trigger] live_candidate(parts[i])) is None {
        lemma_idle_participants_have_no_candidate(parts);
    }
}

} // verus!
