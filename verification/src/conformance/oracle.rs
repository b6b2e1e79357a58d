//! An unoptimized reference coordinator: the outcomes a conforming RTI may produce.
use vstd::prelude::*;

use super::{ConstructionError, Failure, Member, Outcome, Route, RouteTopology, Topology, VectorStep};
use crate::protocol::{spec_is_finite, spec_predecessor, tag_le, tag_lt, tag_min, WireTag};
use crate::tags::{least, SortedTags};

verus! {

/// What the reference coordinator knows of one member, besides its in-transit tags.
#[derive(Debug, Clone, Copy, PartialEq, Eq)]
pub struct MemberState {
    /// Latest publication: its revision and next event tag (`None` for idle).
    pub publication: Option<(u64, Option<WireTag>)>,
    pub completion: Option<WireTag>,
    /// Latest grant: the revision it answered and its inclusive tag.
    pub granted: Option<(u64, WireTag)>,
    pub stopped: bool,
}

/// Mathematical view of the reference coordinator.
pub struct OracleView {
    pub members: Seq<MemberState>,
    /// Delivered payload tags each member has not yet completed.
    pub in_transit: Seq<Set<WireTag>>,
    pub routes: Seq<RouteTopology>,
    pub capacity: usize,
    pub failure: Option<Failure>,
}

/// An event tag: finite and not before the zero tag.
pub open spec fn event_tag(t: WireTag) -> bool {
    spec_is_finite(t) && tag_le(WireTag::Finite { offset_ns: 0, microstep: 0 }, t)
}

/// The member a step speaks for.
pub open spec fn step_member(step: VectorStep) -> Member {
    match step {
        VectorStep::Publish { member, .. } => member,
        VectorStep::Complete { member, .. } => member,
        VectorStep::Payload { member, .. } => member,
        VectorStep::Stop { member } => member,
    }
}

/// Retain `failure` unless one is retained already, and report the retained one.
pub open spec fn oracle_fail(s: OracleView, member: Member, failure: Failure) -> (OracleView, Seq<Outcome>) {
    let kept = match s.failure {
        Some(f) => f,
        None => failure,
    };
    (OracleView { failure: Some(kept), ..s }, seq![Outcome::Failed { member, failure: kept }])
}

/// The state with member `m` replaced.
pub open spec fn with_member(s: OracleView, m: int, st: MemberState) -> OracleView {
    OracleView { members: s.members.update(m, st), ..s }
}

/// A publication by member `m`.
pub open spec fn oracle_publish(
    s: OracleView,
    m: int,
    member: Member,
    revision: u64,
    next_event: Option<WireTag>,
) -> (OracleView, Seq<Outcome>) {
    let st = s.members[m];
    let invalid = next_event is Some && !event_tag(next_event->0);
    let regress = match st.publication {
        Some((old, tag)) => revision < old || (revision == old && tag != next_event),
        None => false,
    };
    if st.stopped {
        oracle_fail(s, member, Failure::Stopped)
    } else if invalid {
        oracle_fail(s, member, Failure::InvalidTag)
    } else if regress {
        oracle_fail(s, member, Failure::Publication)
    } else {
        (
            with_member(s, m, MemberState { publication: Some((revision, next_event)), ..st }),
            Seq::empty(),
        )
    }
}

/// A completion by member `m`: it never regresses and releases the in-transit tags it covers.
pub open spec fn oracle_complete(s: OracleView, m: int, member: Member, tag: WireTag) -> (
    OracleView,
    Seq<Outcome>,
) {
    let st = s.members[m];
    if st.stopped {
        oracle_fail(s, member, Failure::Stopped)
    } else if !event_tag(tag) {
        oracle_fail(s, member, Failure::InvalidTag)
    } else if st.completion is Some && tag_lt(tag, st.completion->0) {
        oracle_fail(s, member, Failure::Completion)
    } else {
        (
            OracleView {
                members: s.members.update(m, MemberState { completion: Some(tag), ..st }),
                in_transit: s.in_transit.update(m, s.in_transit[m].filter(|p: WireTag| tag_lt(tag, p))),
                ..s
            },
            Seq::empty(),
        )
    }
}

/// A payload by member `m` on `route`: delivered to the route target and accounted there.
pub open spec fn oracle_payload(s: OracleView, m: int, member: Member, route: Route, tag: WireTag) -> (
    OracleView,
    Seq<Outcome>,
) {
    if s.members[m].stopped {
        oracle_fail(s, member, Failure::Stopped)
    } else if !event_tag(tag) {
        oracle_fail(s, member, Failure::InvalidTag)
    } else if route.index >= s.routes.len() {
        oracle_fail(s, member, Failure::UnknownRoute)
    } else {
        let rt = s.routes[route.index as int];
        let t = rt.target.index as int;
        if rt.source != member {
            oracle_fail(s, member, Failure::RouteSource)
        } else if t >= s.members.len() {
            oracle_fail(s, member, Failure::UnknownMember)
        } else if s.members[t].stopped {
            oracle_fail(s, member, Failure::Stopped)
        } else if !s.in_transit[t].contains(tag) && s.in_transit[t].len() == s.capacity {
            oracle_fail(s, member, Failure::InTransitCapacity)
        } else {
            (
                OracleView { in_transit: s.in_transit.update(t, s.in_transit[t].insert(tag)), ..s },
                seq![Outcome::Payload { member: rt.target, route, tag }],
            )
        }
    }
}

/// The terminal lifecycle step of member `m`.
pub open spec fn oracle_stop(s: OracleView, m: int, member: Member) -> (OracleView, Seq<Outcome>) {
    if s.members[m].stopped {
        oracle_fail(s, member, Failure::Stopped)
    } else {
        (
            with_member(s, m, MemberState { stopped: true, ..s.members[m] }),
            seq![Outcome::Stopped { member }],
        )
    }
}

/// The earliest tag still in transit to member `m`, or `Forever`.
pub open spec fn earliest_in_transit(s: OracleView, m: int) -> WireTag {
    if s.in_transit[m].len() == 0 {
        WireTag::Forever
    } else {
        least(s.in_transit[m])
    }
}

/// The earliest tag member `m` may still act at: its published next event or in-transit input.
pub open spec fn earliest(s: OracleView, m: int) -> WireTag {
    let published = match s.members[m].publication {
        Some((_, Some(t))) => t,
        _ => WireTag::Forever,
    };
    if s.in_transit[m].len() == 0 {
        published
    } else {
        tag_min(least(s.in_transit[m]), published)
    }
}

/// The earliest tag at which input may reach member `m`, over the first `n` routes.
pub open spec fn frontier_upto(s: OracleView, m: int, n: int) -> WireTag
    decreases n,
{
    if n <= 0 {
        earliest_in_transit(s, m)
    } else {
        let f = frontier_upto(s, m, n - 1);
        let rt = s.routes[n - 1];
        if rt.target.index == m {
            tag_min(f, earliest(s, rt.source.index as int))
        } else {
            f
        }
    }
}

/// The greatest tag member `m` may be granted: just before its input frontier.
pub open spec fn permitted(s: OracleView, m: int) -> WireTag {
    match spec_predecessor(frontier_upto(s, m, s.routes.len() as int)) {
        Some(p) => p,
        None => WireTag::Never,
    }
}

/// The grant member `m` receives now, if any: a live member with a published event tag is
/// granted its permitted tag when that reaches the request and improves on its last grant for
/// the same revision.
pub open spec fn grant_for(s: OracleView, m: int) -> Option<(u64, WireTag)> {
    let st = s.members[m];
    match st.publication {
        Some((revision, Some(requested))) => if st.stopped {
            None
        } else {
            let horizon = permitted(s, m);
            let repeated = match st.granted {
                Some((old_revision, old)) => old_revision == revision && tag_le(horizon, old),
                None => false,
            };
            if tag_lt(horizon, requested) || repeated {
                None
            } else {
                Some((revision, horizon))
            }
        },
        _ => None,
    }
}

/// Grants of the first `n` members, in member order.
pub open spec fn grants_upto(s: OracleView, n: int) -> Seq<Outcome>
    decreases n,
{
    if n <= 0 {
        Seq::empty()
    } else {
        let prev = grants_upto(s, n - 1);
        match grant_for(s, n - 1) {
            Some((revision, tag)) => prev.push(
                Outcome::Grant { member: Member { index: (n - 1) as usize }, revision, tag },
            ),
            None => prev,
        }
    }
}

/// The state after every grant was issued.
pub open spec fn granted_state(s: OracleView) -> OracleView {
    OracleView {
        members: Seq::new(
            s.members.len(),
            |m: int|
                match grant_for(s, m) {
                    Some(g) => MemberState { granted: Some(g), ..s.members[m] },
                    None => s.members[m],
                },
        ),
        ..s
    }
}

/// One vector step: a retained failure answers every step; otherwise the step applies and,
/// unless it failed, every grant it enables follows its own outcomes.
pub open spec fn spec_apply(s: OracleView, step: VectorStep) -> (OracleView, Seq<Outcome>) {
    let member = step_member(step);
    match s.failure {
        Some(f) => (s, seq![Outcome::Failed { member, failure: f }]),
        None => if member.index >= s.members.len() {
            oracle_fail(s, member, Failure::UnknownMember)
        } else {
            let m = member.index as int;
            let (s1, o1) = match step {
                VectorStep::Publish { member, revision, next_event } => oracle_publish(
                    s,
                    m,
                    member,
                    revision,
                    next_event,
                ),
                VectorStep::Complete { member, tag } => oracle_complete(s, m, member, tag),
                VectorStep::Payload { member, route, tag } => oracle_payload(s, m, member, route, tag),
                VectorStep::Stop { member } => oracle_stop(s, m, member),
            };
            if s1.failure is None {
                (granted_state(s1), o1 + grants_upto(s1, s1.members.len() as int))
            } else {
                (s1, o1)
            }
        },
    }
}

/// Whether the `n` member keys are the positions `0..n`.
pub open spec fn dense_members(members: Seq<Member>) -> bool {
    forall|i: int| 0 <= i < members.len() ==> (#[trigger] members[i]).index == i
}

/// Whether `i` is the first position whose member key differs from the position.
pub open spec fn first_member_mismatch(members: Seq<Member>, i: int) -> bool {
    &&& 0 <= i < members.len()
    &&& members[i].index != i
    &&& forall|j: int| 0 <= j < i ==> (#[trigger] members[j]).index == j
}

/// Whether both endpoints of route `r` are among `n` members.
pub open spec fn endpoints_known(routes: Seq<RouteTopology>, n: int, r: int) -> bool {
    routes[r].source.index < n && routes[r].target.index < n
}

/// Whether `r` is the first route with an endpoint outside `n` members.
pub open spec fn first_unknown_endpoint(routes: Seq<RouteTopology>, n: int, r: int) -> bool {
    &&& 0 <= r < routes.len()
    &&& !endpoints_known(routes, n, r)
    &&& forall|j: int| 0 <= j < r ==> #[trigger] endpoints_known(routes, n, j)
}

/// The error for route `r` whose endpoint is missing: the source when it is missing, else the
/// target.
pub open spec fn endpoint_error(routes: Seq<RouteTopology>, n: int, r: int) -> ConstructionError {
    ConstructionError::RouteEndpoint {
        route: Route { index: r as usize },
        member: if routes[r].source.index >= n {
            routes[r].source
        } else {
            routes[r].target
        },
    }
}

/// A portable semantic coordinator that owns trace-local coordination state.
pub struct ReferenceCoordinator {
    members: Vec<MemberState>,
    in_transit: Vec<SortedTags>,
    topology: Topology,
    in_transit_capacity: usize,
    failure: Option<Failure>,
}

impl View for ReferenceCoordinator {
    type V = OracleView;

    closed spec fn view(&self) -> OracleView {
        OracleView {
            members: self.members@,
            in_transit: self.in_transit@.map_values(|t: SortedTags| t@),
            routes: self.topology.spec_routes(),
            capacity: self.in_transit_capacity,
            failure: self.failure,
        }
    }
}

/// Member tables line up and every route endpoint is a member.
pub open spec fn oracle_wf(s: OracleView) -> bool {
    &&& s.members.len() == s.in_transit.len()
    &&& forall|r: int| 0 <= r < s.routes.len() ==> #[trigger] endpoints_known(s.routes, s.members.len() as int, r)
    &&& forall|m: int| 0 <= m < s.in_transit.len() ==> (#[trigger] s.in_transit[m]).finite()
}

fn same_next_event(a: Option<WireTag>, b: Option<WireTag>) -> (r: bool)
    ensures
        r == (a == b),
{
    match (a, b) {
        (Some(x), Some(y)) => x.same(&y),
        (None, None) => true,
        _ => false,
    }
}

fn is_event_tag(t: WireTag) -> (r: bool)
    ensures
        r == event_tag(t),
{
    t.is_finite() && WireTag::Finite { offset_ns: 0, microstep: 0 }.le(&t)
}

proof fn lemma_wf_frame(before: OracleView, after: OracleView)
    requires
        oracle_wf(before),
        after.routes == before.routes,
        after.members.len() == before.members.len(),
        after.in_transit.len() == before.in_transit.len(),
        forall|m: int| 0 <= m < after.in_transit.len() ==> (#[trigger] after.in_transit[m]).finite(),
    ensures
        oracle_wf(after),
{
    assert forall|r: int| 0 <= r < after.routes.len() implies #[trigger] endpoints_known(
        after.routes,
        after.members.len() as int,
        r,
    ) by {
        assert(endpoints_known(before.routes, before.members.len() as int, r));
    }
}

impl ReferenceCoordinator {
    /// Member tables line up, every route endpoint is a member, and every in-transit table is
    /// well formed.
    pub closed spec fn wf(&self) -> bool {
        &&& oracle_wf(self@)
        &&& self.members@.len() == self.in_transit@.len()
        &&& forall|m: int| 0 <= m < self.in_transit@.len() ==> (#[trigger] self.in_transit@[m]).wf()
    }

    /// Creates a coordinator over a fixed dense member table and a topology whose route
    /// endpoints are all members; every member starts unpublished, with nothing in transit.
    pub fn new(members: Vec<Member>, topology: Topology, in_transit_capacity: usize) -> (r: Result<
        Self,
        ConstructionError,
    >)
        ensures
            r is Ok <==> dense_members(members@) && forall|j: int|
                0 <= j < topology.spec_routes().len() ==> #[trigger] endpoints_known(
                    topology.spec_routes(),
                    members@.len() as int,
                    j,
                ),
            r is Ok ==> r->Ok_0.wf() && r->Ok_0@ == (OracleView {
                members: Seq::new(
                    members@.len(),
                    |i: int|
                        MemberState { publication: None, completion: None, granted: None, stopped: false },
                ),
                in_transit: Seq::new(members@.len(), |i: int| Set::<WireTag>::empty()),
                routes: topology.spec_routes(),
                capacity: in_transit_capacity,
                failure: None,
            }),
            !dense_members(members@) ==> exists|i: int|
                first_member_mismatch(members@, i) && r == Err::<Self, ConstructionError>(
                    ConstructionError::MemberKey { member: #[trigger] members@[i] },
                ),
            dense_members(members@) ==> forall|j: int|
                first_unknown_endpoint(topology.spec_routes(), members@.len() as int, j) ==> r
                    == Err::<Self, ConstructionError>(
                    endpoint_error(topology.spec_routes(), members@.len() as int, j),
                ),
    {
        let mut states: Vec<MemberState> = Vec::new();
        let mut pending: Vec<SortedTags> = Vec::new();
        let mut i: usize = 0;
        while i < members.len()
            invariant
                i <= members@.len(),
                forall|j: int| 0 <= j < i ==> (#[trigger] members@[j]).index == j,
                states@ == Seq::new(
                    i as nat,
                    |j: int|
                        MemberState { publication: None, completion: None, granted: None, stopped: false },
                ),
                pending@.len() == i,
                forall|j: int| 0 <= j < i ==> (#[trigger] pending@[j]).wf() && pending@[j]@ == Set::<WireTag>::empty(),
            decreases members@.len() - i,
        {
            let member = members[i];
            if member.index != i {
                assert(first_member_mismatch(members@, i as int));
                proof {
                    assert forall|k: int| first_member_mismatch(members@, k) implies k == i by {
                        if k > i {
                            assert(members@[i as int].index == i);
                        }
                    }
                }
                return Err(ConstructionError::MemberKey { member });
            }
            states.push(MemberState { publication: None, completion: None, granted: None, stopped: false });
            pending.push(SortedTags::new());
            assert(states@ =~= Seq::new(
                (i + 1) as nat,
                |j: int| MemberState { publication: None, completion: None, granted: None, stopped: false },
            ));
            i = i + 1;
        }
        let n = members.len();
        let mut r: usize = 0;
        while r < topology.len()
            invariant
                n == members@.len(),
                dense_members(members@),
                r <= topology.spec_routes().len(),
                forall|j: int| 0 <= j < r ==> #[trigger] endpoints_known(topology.spec_routes(), n as int, j),
            decreases topology.spec_routes().len() - r,
        {
            let route = Route { index: r };
            match topology.get(route) {
                Some(rt) => {
                    if rt.source.index >= n || rt.target.index >= n {
                        proof {
                            assert(first_unknown_endpoint(topology.spec_routes(), n as int, r as int));
                            assert forall|k: int| first_unknown_endpoint(topology.spec_routes(), n as int, k)
                                implies k == r by {
                                if k > r {
                                    assert(endpoints_known(topology.spec_routes(), n as int, r as int));
                                }
                            }
                        }
                        let member = if rt.source.index >= n {
                            rt.source
                        } else {
                            rt.target
                        };
                        return Err(ConstructionError::RouteEndpoint { route, member });
                    }
                },
                None => {},
            }
            r = r + 1;
        }
        let coordinator = ReferenceCoordinator {
            members: states,
            in_transit: pending,
            topology,
            in_transit_capacity,
            failure: None,
        };
        assert(coordinator@.in_transit =~= Seq::new(members@.len(), |i: int| Set::<WireTag>::empty()));
        Ok(coordinator)
    }

    fn fail(&mut self, member: Member, failure: Failure) -> (outcomes: Vec<Outcome>)
        requires
            old(self).wf(),
        ensures
            final(self).wf(),
            (final(self)@, outcomes@) == oracle_fail(old(self)@, member, failure),
    {
        let kept = match self.failure {
            Some(f) => f,
            None => {
                self.failure = Some(failure);
                failure
            },
        };
        let outcomes = vec![Outcome::Failed { member, failure: kept }];
        assert(outcomes@ =~= seq![Outcome::Failed { member, failure: kept }]);
        proof {
            lemma_wf_frame(old(self)@, self@);
        }
        outcomes
    }

    fn earliest_in_transit(&self, m: usize) -> (t: WireTag)
        requires
            self.wf(),
            m < self@.members.len(),
        ensures
            t == earliest_in_transit(self@, m as int),
    {
        let tags = &self.in_transit[m];
        assert(tags@ == self@.in_transit[m as int]);
        if tags.len() == 0 {
            WireTag::Forever
        } else {
            match tags.first() {
                Some(t) => t,
                None => {
                    assert(tags@.len() == 0);
                    WireTag::Forever
                },
            }
        }
    }

    fn earliest(&self, m: usize) -> (t: WireTag)
        requires
            self.wf(),
            m < self@.members.len(),
        ensures
            t == earliest(self@, m as int),
    {
        let published = match self.members[m].publication {
            Some((_, Some(t))) => t,
            _ => WireTag::Forever,
        };
        let tags = &self.in_transit[m];
        assert(tags@ == self@.in_transit[m as int]);
        if tags.len() == 0 {
            published
        } else {
            match tags.first() {
                Some(t) => t.min_tag(published),
                None => {
                    assert(tags@.len() == 0);
                    published
                },
            }
        }
    }

    fn permitted(&self, m: usize) -> (t: WireTag)
        requires
            self.wf(),
            m < self@.members.len(),
        ensures
            t == permitted(self@, m as int),
    {
        let mut frontier = self.earliest_in_transit(m);
        let mut r: usize = 0;
        while r < self.topology.len()
            invariant
                self.wf(),
                m < self@.members.len(),
                r <= self@.routes.len(),
                frontier == frontier_upto(self@, m as int, r as int),
            decreases self@.routes.len() - r,
        {
            match self.topology.get(Route { index: r }) {
                Some(rt) => {
                    assert(endpoints_known(self@.routes, self@.members.len() as int, r as int));
                    if rt.target.index == m {
                        frontier = frontier.min_tag(self.earliest(rt.source.index));
                    }
                },
                None => {},
            }
            r = r + 1;
        }
        match frontier.checked_predecessor() {
            Some(p) => p,
            None => WireTag::Never,
        }
    }

    fn grant_decision(&self, m: usize) -> (g: Option<(u64, WireTag)>)
        requires
            self.wf(),
            m < self@.members.len(),
        ensures
            g == grant_for(self@, m as int),
    {
        let st = self.members[m];
        match st.publication {
            Some((revision, Some(requested))) => {
                if st.stopped {
                    None
                } else {
                    let horizon = self.permitted(m);
                    let repeated = match st.granted {
                        Some((old_revision, old)) => old_revision == revision && horizon.le(&old),
                        None => false,
                    };
                    if horizon.lt(&requested) || repeated {
                        None
                    } else {
                        Some((revision, horizon))
                    }
                }
            },
            _ => None,
        }
    }

    fn grants(&mut self) -> (outcomes: Vec<Outcome>)
        requires
            old(self).wf(),
        ensures
            final(self).wf(),
            final(self)@ == granted_state(old(self)@),
            outcomes@ == grants_upto(old(self)@, old(self)@.members.len() as int),
    {
        let mut outcomes: Vec<Outcome> = Vec::new();
        let mut updated: Vec<MemberState> = Vec::new();
        let mut m: usize = 0;
        while m < self.members.len()
            invariant
                self.wf(),
                m <= self@.members.len(),
                outcomes@ == grants_upto(self@, m as int),
                updated@ == granted_state(self@).members.subrange(0, m as int),
            decreases self@.members.len() - m,
        {
            let mut st = self.members[m];
            match self.grant_decision(m) {
                Some((revision, tag)) => {
                    outcomes.push(Outcome::Grant { member: Member { index: m }, revision, tag });
                    st.granted = Some((revision, tag));
                },
                None => {},
            }
            updated.push(st);
            assert(updated@ =~= granted_state(self@).members.subrange(0, m + 1));
            m = m + 1;
        }
        let ghost before = self@;
        self.members = updated;
        assert(self@.members =~= granted_state(before).members);
        outcomes
    }

    fn publish(&mut self, m: usize, member: Member, revision: u64, next_event: Option<WireTag>) -> (outcomes:
        Vec<Outcome>)
        requires
            old(self).wf(),
            m < old(self)@.members.len(),
            old(self)@.failure is None,
        ensures
            final(self).wf(),
            (final(self)@, outcomes@) == oracle_publish(old(self)@, m as int, member, revision, next_event),
    {
        let st = self.members[m];
        let invalid = match next_event {
            Some(t) => !is_event_tag(t),
            None => false,
        };
        let regress = match st.publication {
            Some((old, tag)) => revision < old || (revision == old && !same_next_event(tag, next_event)),
            None => false,
        };
        if st.stopped {
            return self.fail(member, Failure::Stopped);
        }
        if invalid {
            return self.fail(member, Failure::InvalidTag);
        }
        if regress {
            return self.fail(member, Failure::Publication);
        }
        let mut next = st;
        next.publication = Some((revision, next_event));
        self.members.set(m, next);
        proof {
            lemma_wf_frame(old(self)@, self@);
        }
        let outcomes: Vec<Outcome> = Vec::new();
        assert(outcomes@ =~= Seq::<Outcome>::empty());
        outcomes
    }

    fn complete(&mut self, m: usize, member: Member, tag: WireTag) -> (outcomes: Vec<Outcome>)
        requires
            old(self).wf(),
            m < old(self)@.members.len(),
            old(self)@.failure is None,
        ensures
            final(self).wf(),
            (final(self)@, outcomes@) == oracle_complete(old(self)@, m as int, member, tag),
    {
        let st = self.members[m];
        if st.stopped {
            return self.fail(member, Failure::Stopped);
        }
        if !is_event_tag(tag) {
            return self.fail(member, Failure::InvalidTag);
        }
        let regress = match st.completion {
            Some(old) => tag.lt(&old),
            None => false,
        };
        if regress {
            return self.fail(member, Failure::Completion);
        }
        let ghost before = self@;
        let mut next = st;
        next.completion = Some(tag);
        self.members.set(m, next);
        self.in_transit[m].retain_after(tag);
        assert(self@.in_transit =~= before.in_transit.update(
            m as int,
            before.in_transit[m as int].filter(|p: WireTag| tag_lt(tag, p)),
        ));
        proof {
            lemma_wf_frame(old(self)@, self@);
        }
        let outcomes: Vec<Outcome> = Vec::new();
        assert(outcomes@ =~= Seq::<Outcome>::empty());
        outcomes
    }

    fn payload(&mut self, m: usize, member: Member, route: Route, tag: WireTag) -> (outcomes: Vec<Outcome>)
        requires
            old(self).wf(),
            m < old(self)@.members.len(),
            old(self)@.failure is None,
        ensures
            final(self).wf(),
            (final(self)@, outcomes@) == oracle_payload(old(self)@, m as int, member, route, tag),
    {
        if self.members[m].stopped {
            return self.fail(member, Failure::Stopped);
        }
        if !is_event_tag(tag) {
            return self.fail(member, Failure::InvalidTag);
        }
        let rt = match self.topology.get(route) {
            Some(rt) => rt,
            None => {
                return self.fail(member, Failure::UnknownRoute);
            },
        };
        if rt.source != member {
            return self.fail(member, Failure::RouteSource);
        }
        let t = rt.target.index;
        if t >= self.members.len() {
            return self.fail(member, Failure::UnknownMember);
        }
        if self.members[t].stopped {
            return self.fail(member, Failure::Stopped);
        }
        let ghost before = self@;
        assert(self.in_transit@[t as int]@ == before.in_transit[t as int]);
        let present = self.in_transit[t].contains(tag);
        if !present && self.in_transit[t].len() == self.in_transit_capacity {
            return self.fail(member, Failure::InTransitCapacity);
        }
        self.in_transit[t].insert(tag);
        assert(self@.in_transit =~= before.in_transit.update(
            t as int,
            before.in_transit[t as int].insert(tag),
        ));
        let outcomes = vec![Outcome::Payload { member: rt.target, route, tag }];
        assert(outcomes@ =~= seq![Outcome::Payload { member: rt.target, route, tag }]);
        outcomes
    }

    fn stop(&mut self, m: usize, member: Member) -> (outcomes: Vec<Outcome>)
        requires
            old(self).wf(),
            m < old(self)@.members.len(),
            old(self)@.failure is None,
        ensures
            final(self).wf(),
            (final(self)@, outcomes@) == oracle_stop(old(self)@, m as int, member),
    {
        if self.members[m].stopped {
            return self.fail(member, Failure::Stopped);
        }
        let mut next = self.members[m];
        next.stopped = true;
        self.members.set(m, next);
        proof {
            lemma_wf_frame(old(self)@, self@);
        }
        let outcomes = vec![Outcome::Stopped { member }];
        assert(outcomes@ =~= seq![Outcome::Stopped { member }]);
        outcomes
    }

    /// Applies one vector step and emits deliveries before consequent grants (see
    /// [`spec_apply`]).
    pub fn apply(&mut self, step: VectorStep) -> (outcomes: Vec<Outcome>)
        requires
            old(self).wf(),
        ensures
            final(self).wf(),
            (final(self)@, outcomes@) == spec_apply(old(self)@, step),
    {
        let member = match step {
            VectorStep::Publish { member, .. } => member,
            VectorStep::Complete { member, .. } => member,
            VectorStep::Payload { member, .. } => member,
            VectorStep::Stop { member } => member,
        };
        match self.failure {
            Some(f) => {
                let outcomes = vec![Outcome::Failed { member, failure: f }];
                assert(outcomes@ =~= seq![Outcome::Failed { member, failure: f }]);
                return outcomes;
            },
            None => {},
        }
        if member.index >= self.members.len() {
            return self.fail(member, Failure::UnknownMember);
        }
        let m = member.index;
        let mut outcomes = match step {
            VectorStep::Publish { member, revision, next_event } => self.publish(
                m,
                member,
                revision,
                next_event,
            ),
            VectorStep::Complete { member, tag } => self.complete(m, member, tag),
            VectorStep::Payload { member, route, tag } => self.payload(m, member, route, tag),
            VectorStep::Stop { member } => self.stop(m, member),
        };
        if self.failure.is_none() {
            let mut grants = self.grants();
            outcomes.append(&mut grants);
        }
        outcomes
    }
}

} // verus!
