//! Properties the reference coordinator and the ordered fault scheduler keep.
use vstd::prelude::*;

use super::faults::{
    is_ready_count, ready_count, spec_advance, spec_submit,
    PendingFrame, SchedulerView, ScheduledOutcome,
};
use super::oracle::{
    earliest, earliest_in_transit, frontier_upto, grant_for, grants_upto, permitted, spec_apply, step_member,
    OracleView,
};
use super::{Lane, Member, Outcome, VectorStep};
use crate::protocol::{tag_le, WireTag};

verus! {

/// A retained failure answers every later step with itself and changes nothing.
pub proof fn lemma_oracle_failure_is_terminal(s: OracleView, step: VectorStep)
    requires
        s.failure is Some,
    ensures
        spec_apply(s, step) == (s, seq![
            Outcome::Failed { member: step_member(step), failure: s.failure->0 },
        ]),
{
}

/// Once a step fails, the first failure stays retained.
pub proof fn lemma_oracle_failure_sticks(s: OracleView, step: VectorStep)
    ensures
        s.failure is Some ==> spec_apply(s, step).0.failure == s.failure,
{
}

/// Whether outcome `o` is a grant that answers member `m`'s current publication with exactly
/// the tag it is permitted, at or beyond its requested tag.
pub open spec fn grant_is_conservative(s: OracleView, o: Outcome) -> bool {
    match o {
        Outcome::Grant { member, revision, tag } => {
            let m = member.index as int;
            &&& 0 <= m < s.members.len()
            &&& !s.members[m].stopped
            &&& tag == permitted(s, m)
            &&& match s.members[m].publication {
                Some((r, Some(requested))) => r == revision && tag_le(requested, tag),
                _ => false,
            }
        },
        _ => false,
    }
}

/// Every grant the coordinator issues is conservative: it answers the member's current
/// revision, never exceeds the member's permitted horizon, and reaches its requested tag.
pub proof fn lemma_grants_are_conservative(s: OracleView, n: int)
    requires
        0 <= n <= s.members.len(),
        n <= usize::MAX,
    ensures
        forall|i: int| 0 <= i < grants_upto(s, n).len() ==> grant_is_conservative(
            s,
            #[trigger] grants_upto(s, n)[i],
        ),
    decreases n,
{
    if n > 0 {
        lemma_grants_are_conservative(s, n - 1);
        let prev = grants_upto(s, n - 1);
        match grant_for(s, n - 1) {
            Some((revision, tag)) => {
                let g = Outcome::Grant { member: Member { index: (n - 1) as usize }, revision, tag };
                match s.members[n - 1].publication {
                    Some((_, Some(requested))) => {
                        crate::protocol::lemma_tag_order_total(requested, tag, tag);
                    },
                    _ => {},
                }
                assert(grant_is_conservative(s, g));
                assert forall|i: int| 0 <= i < prev.push(g).len() implies grant_is_conservative(
                    s,
                    #[trigger] prev.push(g)[i],
                ) by {
                    if i < prev.len() {
                        assert(prev.push(g)[i] == prev[i]);
                    }
                }
            },
            None => {},
        }
    }
}

/// A member's completed tag never moves backwards.
pub proof fn lemma_completion_monotone(s: OracleView, step: VectorStep, m: int)
    requires
        0 <= m < s.members.len(),
        s.members[m].completion is Some,
    ensures
        spec_apply(s, step).0.members.len() == s.members.len(),
        spec_apply(s, step).0.members[m].completion is Some,
        tag_le(s.members[m].completion->0, spec_apply(s, step).0.members[m].completion->0),
{
    let c = s.members[m].completion->0;
    crate::protocol::lemma_tag_order_total(c, c, c);
    match step {
        VectorStep::Complete { member, tag } => {
            crate::protocol::lemma_tag_order_total(c, tag, tag);
        },
        _ => {},
    }
}

/// A retained scheduler failure answers every later submission and advance with itself and
/// changes nothing.
pub proof fn lemma_scheduler_failure_is_terminal(s: SchedulerView, tick: u64, lane: Lane, step: VectorStep)
    requires
        s.failure is Some,
    ensures
        spec_submit(s, tick, lane, step) == (s, seq![ScheduledOutcome::Failed { failure: s.failure->0 }]),
        spec_advance(s, tick) == (s, seq![ScheduledOutcome::Failed { failure: s.failure->0 }]),
{
}

/// Advancing never lets a later frame overtake an earlier one on its lane: each lane delivers
/// exactly a prefix of due frames in FIFO order and keeps the rest, whose first frame is not due.
pub proof fn lemma_advance_is_fifo(s: SchedulerView, tick: u64, i: int)
    requires
        s.failure is None,
        s.tick <= tick,
        0 <= i < s.lanes.len(),
    ensures
        ({
            let k = ready_count(s.lanes[i], tick);
            let after = spec_advance(s, tick).0;
            &&& 0 <= k <= s.lanes[i].len()
            &&& s.lanes[i] == s.lanes[i].take(k) + after.lanes[i]
            &&& forall|j: int| 0 <= j < k ==> (#[trigger] s.lanes[i][j]).release_tick <= tick
            &&& after.lanes[i].len() > 0 ==> after.lanes[i][0].release_tick > tick
        }),
{
    let q = s.lanes[i];
    lemma_ready_count_exists(q, tick);
    let k = ready_count(q, tick);
    assert(q =~= q.take(k) + q.skip(k));
}

proof fn lemma_ready_count_exists(q: Seq<PendingFrame>, tick: u64)
    ensures
        is_ready_count(q, tick, ready_count(q, tick)),
{
    lemma_ready_count_from(q, tick, 0);
}

proof fn lemma_ready_count_from(q: Seq<PendingFrame>, tick: u64, k: int)
    requires
        0 <= k <= q.len(),
        forall|j: int| 0 <= j < k ==> (#[trigger] q[j]).release_tick <= tick,
    ensures
        is_ready_count(q, tick, ready_count(q, tick)),
    decreases q.len() - k,
{
    if k < q.len() && q[k].release_tick <= tick {
        lemma_ready_count_from(q, tick, k + 1);
    } else {
        assert(is_ready_count(q, tick, k));
    }
}

/// The tag member `m` has published as its next event, or `Forever`.
pub open spec fn published_next(s: OracleView, m: int) -> WireTag {
    match s.members[m].publication {
        Some((_, Some(t))) => t,
        _ => WireTag::Forever,
    }
}

/// Law of the oracle: the earliest tag a member may still act at is at most its published next
/// event and at most the least tag in transit to it, and it is one of them.
pub proof fn lemma_earliest_is_least(s: OracleView, m: int)
    ensures
        tag_le(earliest(s, m), published_next(s, m)),
        s.in_transit[m].len() != 0 ==> tag_le(earliest(s, m), crate::tags::least(s.in_transit[m])),
        earliest(s, m) == published_next(s, m) || (s.in_transit[m].len() != 0 && earliest(s, m)
            == crate::tags::least(s.in_transit[m])),
{
    let p = published_next(s, m);
    crate::protocol::lemma_tag_order_total(p, p, p);
    if s.in_transit[m].len() != 0 {
        crate::protocol::lemma_tag_order_total(crate::tags::least(s.in_transit[m]), p, p);
        crate::protocol::lemma_tag_order_total(p, crate::tags::least(s.in_transit[m]), p);
    }
}

proof fn lemma_frontier_upto_least(s: OracleView, m: int, n: int)
    requires
        0 <= n <= s.routes.len(),
    ensures
        tag_le(frontier_upto(s, m, n), earliest_in_transit(s, m)),
        forall|i: int|
            0 <= i < n && (#[trigger] s.routes[i]).target.index == m ==> tag_le(
                frontier_upto(s, m, n),
                earliest(s, s.routes[i].source.index as int),
            ),
        frontier_upto(s, m, n) == earliest_in_transit(s, m) || exists|i: int|
            0 <= i < n && (#[trigger] s.routes[i]).target.index == m && frontier_upto(s, m, n) == earliest(
                s,
                s.routes[i].source.index as int,
            ),
    decreases n,
{
    let f = frontier_upto(s, m, n);
    crate::protocol::lemma_tag_order_total(f, f, f);
    if n > 0 {
        lemma_frontier_upto_least(s, m, n - 1);
        let prev = frontier_upto(s, m, n - 1);
        let rt = s.routes[n - 1];
        if rt.target.index == m {
            let c = earliest(s, rt.source.index as int);
            crate::protocol::lemma_tag_order_total(prev, c, c);
            crate::protocol::lemma_tag_order_total(f, prev, c);
            crate::protocol::lemma_tag_order_total(f, c, prev);
            crate::protocol::lemma_tag_order_total(f, prev, earliest_in_transit(s, m));
            assert forall|i: int| 0 <= i < n && (#[trigger] s.routes[i]).target.index == m implies tag_le(
                f,
                earliest(s, s.routes[i].source.index as int),
            ) by {
                if i < n - 1 {
                    crate::protocol::lemma_tag_order_total(f, prev, earliest(s, s.routes[i].source.index as int));
                }
            }
            if f != c && f != earliest_in_transit(s, m) {
                let i = choose|i: int|
                    0 <= i < n - 1 && (#[trigger] s.routes[i]).target.index == m && prev == earliest(
                        s,
                        s.routes[i].source.index as int,
                    );
                assert(s.routes[i].target.index == m);
            }
        } else {
            assert forall|i: int| 0 <= i < n && (#[trigger] s.routes[i]).target.index == m implies tag_le(
                f,
                earliest(s, s.routes[i].source.index as int),
            ) by {
                assert(i < n - 1);
            }
            if f != earliest_in_transit(s, m) {
                let i = choose|i: int|
                    0 <= i < n - 1 && (#[trigger] s.routes[i]).target.index == m && prev == earliest(
                        s,
                        s.routes[i].source.index as int,
                    );
                assert(s.routes[i].target.index == m);
            }
        }
    }
}

/// Law of the oracle: the input frontier of member `m` is the least of the earliest tag in
/// transit to it and the earliest tag every member routing into it may still act at: at most
/// each of them, and one of them.
pub proof fn lemma_frontier_is_least(s: OracleView, m: int)
    ensures
        tag_le(frontier_upto(s, m, s.routes.len() as int), earliest_in_transit(s, m)),
        forall|i: int|
            0 <= i < s.routes.len() && (#[trigger] s.routes[i]).target.index == m ==> tag_le(
                frontier_upto(s, m, s.routes.len() as int),
                earliest(s, s.routes[i].source.index as int),
            ),
        frontier_upto(s, m, s.routes.len() as int) == earliest_in_transit(s, m) || exists|i: int|
            0 <= i < s.routes.len() && (#[trigger] s.routes[i]).target.index == m && frontier_upto(
                s,
                m,
                s.routes.len() as int,
            ) == earliest(s, s.routes[i].source.index as int),
{
    lemma_frontier_upto_least(s, m, s.routes.len() as int);
}

} // verus!
