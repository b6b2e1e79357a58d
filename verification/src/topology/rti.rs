//! Deterministic RTI state for static TAG/NET/LTC/MSG coordination over a [`FederatedTopology`].
use vstd::prelude::*;

use super::{edge_views, EdgeView, FederatedTopology, TopologyView};
use crate::ids::{id_views, ids_sorted, lemma_seq_lt_order, seq_lt, FederateId};
use crate::protocol::{
    tag_le, tag_lt, FederateToRti, FederateToRtiView, RtiToFederate, RtiToFederateView, WireTag,
};
use crate::rti::{
    apply_edge_delay, spec_apply_edge_delay, DeliveryView, GrantDecision, RtiDelivery, RtiError,
    RtiErrorView,
};
use crate::tags::{least, SortedTags};

verus! {

/// Per-federate control-plane state known by the RTI.
#[derive(Debug, Clone, Copy, PartialEq, Eq, Structural)]
pub struct FederateState {
    pub last_completed: WireTag,
    pub last_granted: Option<WireTag>,
    pub next_event: Option<WireTag>,
    pub stopped: bool,
}

impl Default for FederateState {
    /// Nothing completed, granted or requested; running.
    fn default() -> (s: Self)
        ensures
            s == initial_federate_state(),
    {
        FederateState {
            last_completed: WireTag::Never,
            last_granted: None,
            next_event: None,
            stopped: false,
        }
    }
}

/// A Federate that has not completed, been granted or requested anything.
pub open spec fn initial_federate_state() -> FederateState {
    FederateState { last_completed: WireTag::Never, last_granted: None, next_event: None, stopped: false }
}

/// Mathematical view of the RTI: `states[k]` and `in_transit[k]` belong to `federates[k]`.
pub struct StaticRtiView {
    pub federates: Seq<Seq<char>>,
    pub edges: Seq<EdgeView>,
    pub states: Seq<FederateState>,
    pub in_transit: Seq<Set<WireTag>>,
}

/// The position of a known Federate.
pub open spec fn federate_index(s: StaticRtiView, id: Seq<char>) -> int {
    choose|k: int| 0 <= k < s.federates.len() && s.federates[k] == id
}

/// The earliest tag still in transit to Federate `k`.
pub open spec fn transit_earliest(s: StaticRtiView, k: int) -> Option<WireTag> {
    if s.in_transit[k].len() == 0 {
        None
    } else {
        Some(least(s.in_transit[k]))
    }
}

/// The earliest tag a message may still arrive at Federate `k` with, over the first `n` routes:
/// in-transit tags and each upstream NET shifted by its route delay (`Never` for an upstream
/// without NET).
pub open spec fn eimt_upto(s: StaticRtiView, k: int, n: int) -> Result<Option<WireTag>, RtiErrorView>
    decreases n,
{
    if n <= 0 {
        Ok(transit_earliest(s, k))
    } else {
        match eimt_upto(s, k, n - 1) {
            Err(e) => Err(e),
            Ok(current) => {
                let e = s.edges[n - 1];
                if e.target != s.federates[k] {
                    Ok(current)
                } else if !s.federates.contains(e.source) {
                    Err(RtiErrorView::UnknownFederate(e.source))
                } else {
                    let upstream = s.states[federate_index(s, e.source)];
                    let candidate = match upstream.next_event {
                        Some(t) => spec_apply_edge_delay(t, e.delay),
                        None => Ok(WireTag::Never),
                    };
                    match candidate {
                        Err(x) => Err(x),
                        Ok(c) => Ok(
                            if current is None || tag_lt(c, current->0) {
                                Some(c)
                            } else {
                                current
                            },
                        ),
                    }
                }
            },
        }
    }
}

/// The earliest incoming message tag of Federate `k`.
pub open spec fn eimt(s: StaticRtiView, k: int) -> Result<Option<WireTag>, RtiErrorView> {
    eimt_upto(s, k, s.edges.len() as int)
}

/// Blocked on `requested`, reporting the earliest incoming tag.
pub open spec fn blocked(s: StaticRtiView, k: int, requested: WireTag) -> Result<
    (StaticRtiView, GrantDecision),
    RtiErrorView,
> {
    match eimt(s, k) {
        Err(e) => Err(e),
        Ok(x) => Ok((s, GrantDecision::Blocked { requested, earliest_incoming: x })),
    }
}

/// Evaluating the pending NET of Federate `k`: a running Federate with a finite request beyond
/// its last grant is granted when no message can arrive at or before the request.
pub open spec fn try_grant(s: StaticRtiView, k: int) -> Result<(StaticRtiView, GrantDecision), RtiErrorView> {
    let st = s.states[k];
    if st.stopped {
        blocked(
            s,
            k,
            match st.next_event {
                Some(t) => t,
                None => WireTag::Forever,
            },
        )
    } else {
        match st.next_event {
            None => blocked(s, k, WireTag::Forever),
            Some(requested) => if requested == WireTag::Forever {
                blocked(s, k, requested)
            } else if st.last_granted is Some && tag_le(requested, st.last_granted->0) {
                Ok((s, GrantDecision::AlreadyGranted { tag: requested }))
            } else {
                match eimt(s, k) {
                    Err(e) => Err(e),
                    Ok(x) => if x is None || tag_lt(requested, x->0) {
                        Ok((
                            StaticRtiView {
                                states: s.states.update(
                                    k,
                                    FederateState { last_granted: Some(requested), ..st },
                                ),
                                ..s
                            },
                            GrantDecision::Granted { tag: requested },
                        ))
                    } else {
                        Ok((s, GrantDecision::Blocked { requested, earliest_incoming: x }))
                    },
                }
            },
        }
    }
}

/// The TAG delivery a decision sends to `id`, if any.
pub open spec fn grant_delivery(id: Seq<char>, decision: GrantDecision) -> Seq<DeliveryView> {
    match decision {
        GrantDecision::Granted { tag } => seq![
            DeliveryView { federate_id: id, message: RtiToFederateView::Tag { tag } },
        ],
        _ => Seq::empty(),
    }
}

/// Re-evaluating the first `n` Federates in order; an error stops the sweep with the grants
/// already made kept.
pub open spec fn grants_upto(s: StaticRtiView, n: int) -> (StaticRtiView, Result<Seq<DeliveryView>, RtiErrorView>)
    decreases n,
{
    if n <= 0 {
        (s, Ok(Seq::empty()))
    } else {
        let (s1, r1) = grants_upto(s, n - 1);
        match r1 {
            Err(e) => (s1, Err(e)),
            Ok(d1) => match try_grant(s1, n - 1) {
                Err(e) => (s1, Err(e)),
                Ok((s2, decision)) => (s2, Ok(d1 + grant_delivery(s.federates[n - 1], decision))),
            },
        }
    }
}

/// Re-evaluating every Federate in lexical order.
pub open spec fn grants_for_all(s: StaticRtiView) -> (StaticRtiView, Result<Seq<DeliveryView>, RtiErrorView>) {
    grants_upto(s, s.federates.len() as int)
}

/// The state with Federate `k`'s record replaced.
pub open spec fn with_state(s: StaticRtiView, k: int, st: FederateState) -> StaticRtiView {
    StaticRtiView { states: s.states.update(k, st), ..s }
}

/// Records an LTC of Federate `k`: completion never moves backwards and in-transit tags it
/// covers are released.
pub open spec fn completed(s: StaticRtiView, k: int, tag: WireTag) -> StaticRtiView {
    let st = s.states[k];
    StaticRtiView {
        states: s.states.update(
            k,
            FederateState {
                last_completed: if tag_lt(st.last_completed, tag) {
                    tag
                } else {
                    st.last_completed
                },
                ..st
            },
        ),
        in_transit: s.in_transit.update(k, s.in_transit[k].filter(|t: WireTag| tag_lt(tag, t))),
        ..s
    }
}

/// Prefixes the delivery of a sweep's outcome.
pub open spec fn after_sweep(
    first: Seq<DeliveryView>,
    sweep: (StaticRtiView, Result<Seq<DeliveryView>, RtiErrorView>),
) -> (StaticRtiView, Result<Seq<DeliveryView>, RtiErrorView>) {
    match sweep.1 {
        Ok(d) => (sweep.0, Ok(first + d)),
        Err(e) => (sweep.0, Err(e)),
    }
}

/// The outcome of handling one Federate message.
pub open spec fn spec_handle(s: StaticRtiView, message: FederateToRtiView) -> (StaticRtiView, Result<
    Seq<DeliveryView>,
    RtiErrorView,
>) {
    match message {
        FederateToRtiView::Hello { federate_id } => if s.federates.contains(federate_id) {
            (s, Ok(Seq::empty()))
        } else {
            (s, Err(RtiErrorView::UnknownFederate(federate_id)))
        },
        FederateToRtiView::Net { federate_id, tag } => if !s.federates.contains(federate_id) {
            (s, Err(RtiErrorView::UnknownFederate(federate_id)))
        } else {
            let k = federate_index(s, federate_id);
            let s1 = with_state(s, k, FederateState { next_event: Some(tag), ..s.states[k] });
            match try_grant(s1, k) {
                Err(e) => (s1, Err(e)),
                Ok((s2, decision)) => after_sweep(grant_delivery(federate_id, decision), grants_for_all(s2)),
            }
        },
        FederateToRtiView::Ltc { federate_id, tag } => if !s.federates.contains(federate_id) {
            (s, Err(RtiErrorView::UnknownFederate(federate_id)))
        } else {
            grants_for_all(completed(s, federate_index(s, federate_id), tag))
        },
        FederateToRtiView::Msg { source, target, endpoint, tag, payload } => if !s.federates.contains(
            source,
        ) {
            (s, Err(RtiErrorView::UnknownFederate(source)))
        } else if !s.federates.contains(target) {
            (s, Err(RtiErrorView::UnknownFederate(target)))
        } else {
            let t = federate_index(s, target);
            (
                StaticRtiView { in_transit: s.in_transit.update(t, s.in_transit[t].insert(tag)), ..s },
                Ok(seq![
                    DeliveryView {
                        federate_id: target,
                        message: RtiToFederateView::Msg { source, endpoint, tag, payload },
                    },
                ]),
            )
        },
        FederateToRtiView::Stop { federate_id } => if !s.federates.contains(federate_id) {
            (s, Err(RtiErrorView::UnknownFederate(federate_id)))
        } else {
            let k = federate_index(s, federate_id);
            grants_for_all(
                with_state(
                    s,
                    k,
                    FederateState { next_event: Some(WireTag::Forever), stopped: true, ..s.states[k] },
                ),
            )
        },
    }
}

/// The view of a handling result.
pub open spec fn outcome_view(r: Result<Vec<RtiDelivery>, RtiError>) -> Result<Seq<DeliveryView>, RtiErrorView> {
    match r {
        Ok(v) => Ok(v@.map_values(|d: RtiDelivery| d@)),
        Err(e) => Err(e@),
    }
}

/// Every Federate named by a route is part of the Federate set, which is sorted.
pub open spec fn static_rti_wf(s: StaticRtiView) -> bool {
    &&& ids_sorted(s.federates)
    &&& s.states.len() == s.federates.len()
    &&& s.in_transit.len() == s.federates.len()
    &&& forall|k: int| 0 <= k < s.in_transit.len() ==> (#[trigger] s.in_transit[k]).finite()
}

/// Deterministic RTI state for static TAG/NET/LTC/MSG coordination.
#[derive(Debug)]
pub struct RtiState {
    topology: FederatedTopology,
    states: Vec<FederateState>,
    in_transit: Vec<SortedTags>,
}

impl View for RtiState {
    type V = StaticRtiView;

    closed spec fn view(&self) -> StaticRtiView {
        StaticRtiView {
            federates: self.topology@.federates,
            edges: self.topology@.edges,
            states: self.states@,
            in_transit: self.in_transit@.map_values(|t: SortedTags| t@),
        }
    }
}

proof fn lemma_sweep_keeps_shape(s: StaticRtiView, n: int)
    ensures
        grants_upto(s, n).0.federates == s.federates,
        grants_upto(s, n).0.edges == s.edges,
        grants_upto(s, n).0.in_transit == s.in_transit,
    decreases n,
{
    if n > 0 {
        lemma_sweep_keeps_shape(s, n - 1);
    }
}

/// Handling a message never changes the Federate set or the routes.
pub proof fn lemma_handle_keeps_shape(s: StaticRtiView, message: FederateToRtiView)
    ensures
        spec_handle(s, message).0.federates == s.federates,
        spec_handle(s, message).0.edges == s.edges,
{
    match message {
        FederateToRtiView::Net { federate_id, tag } => if s.federates.contains(federate_id) {
            let k = federate_index(s, federate_id);
            let s1 = with_state(s, k, FederateState { next_event: Some(tag), ..s.states[k] });
            if try_grant(s1, k) is Ok {
                let s2 = try_grant(s1, k)->Ok_0.0;
                lemma_sweep_keeps_shape(s2, s2.federates.len() as int);
            }
        },
        FederateToRtiView::Ltc { federate_id, tag } => if s.federates.contains(federate_id) {
            let s1 = completed(s, federate_index(s, federate_id), tag);
            lemma_sweep_keeps_shape(s1, s1.federates.len() as int);
        },
        FederateToRtiView::Stop { federate_id } => if s.federates.contains(federate_id) {
            let k = federate_index(s, federate_id);
            let s1 = with_state(s, k, FederateState { next_event: Some(WireTag::Forever), stopped: true, ..s.states[k] });
            lemma_sweep_keeps_shape(s1, s1.federates.len() as int);
        },
        _ => {},
    }
}

proof fn lemma_federate_index(ids: Seq<Seq<char>>, k: int)
    requires
        ids_sorted(ids),
        0 <= k < ids.len(),
    ensures
        ids.contains(ids[k]),
        forall|s: StaticRtiView| s.federates == ids ==> federate_index(s, ids[k]) == k,
{
    assert(ids[k] == ids[k]);
    assert forall|s: StaticRtiView| s.federates == ids implies federate_index(s, ids[k]) == k by {
        let j = federate_index(s, ids[k]);
        if j != k {
            if j < k {
                assert(seq_lt(ids[j], ids[k]));
            } else {
                assert(seq_lt(ids[k], ids[j]));
            }
            lemma_seq_lt_order(ids[k], ids[k], ids[k]);
        }
    }
}

proof fn lemma_eimt_error_stays(s: StaticRtiView, k: int, i: int, n: int)
    requires
        0 <= i <= n,
        eimt_upto(s, k, i) is Err,
    ensures
        eimt_upto(s, k, n) == eimt_upto(s, k, i),
    decreases n - i,
{
    if n > i {
        lemma_eimt_error_stays(s, k, i, n - 1);
    }
}

proof fn lemma_grants_error_stays(s: StaticRtiView, i: int, n: int)
    requires
        0 <= i <= n,
        grants_upto(s, i).1 is Err,
    ensures
        grants_upto(s, n) == grants_upto(s, i),
    decreases n - i,
{
    if n > i {
        lemma_grants_error_stays(s, i, n - 1);
    }
}

/// Whether `r` is the RTI for `t` before any message: its Federates are those of `t` and every
/// route endpoint, with nothing completed, granted, requested or in transit.
pub open spec fn fresh_for(r: StaticRtiView, t: TopologyView) -> bool {
    &&& r.edges == t.edges
    &&& forall|id: Seq<char>|
        r.federates.contains(id) <==> (t.federates.contains(id) || exists|i: int|
            0 <= i < t.edges.len() && #[trigger] touches(t.edges[i], id))
    &&& r.states == Seq::new(r.federates.len(), |k: int| initial_federate_state())
    &&& r.in_transit == Seq::new(r.federates.len(), |k: int| Set::<WireTag>::empty())
}

/// Whether route `e` starts or ends at `id`.
pub open spec fn touches(e: EdgeView, id: Seq<char>) -> bool {
    e.source == id || e.target == id
}

/// The route endpoints of the first `n` routes: each route's source, then its target.
pub open spec fn edge_endpoints(edges: Seq<EdgeView>, n: int) -> Seq<Seq<char>>
    decreases n,
{
    if n <= 0 {
        Seq::empty()
    } else {
        edge_endpoints(edges, n - 1).push(edges[n - 1].source).push(edges[n - 1].target)
    }
}

proof fn lemma_edge_endpoints(edges: Seq<EdgeView>, n: int)
    requires
        0 <= n <= edges.len(),
    ensures
        forall|id: Seq<char>|
            edge_endpoints(edges, n).contains(id) <==> exists|i: int|
                0 <= i < n && #[trigger] touches(edges[i], id),
    decreases n,
{
    if n > 0 {
        lemma_edge_endpoints(edges, n - 1);
        let prev = edge_endpoints(edges, n - 1);
        let cur = edge_endpoints(edges, n);
        assert forall|id: Seq<char>|
            cur.contains(id) <==> exists|i: int| 0 <= i < n && #[trigger] touches(edges[i], id) by {
            if cur.contains(id) {
                let w = choose|w: int| 0 <= w < cur.len() && cur[w] == id;
                if w < prev.len() {
                    assert(prev[w] == id);
                    assert(prev.contains(id));
                    let i = choose|i: int| 0 <= i < n - 1 && #[trigger] touches(edges[i], id);
                    assert(touches(edges[i], id));
                } else {
                    assert(touches(edges[n - 1], id));
                }
            }
            if exists|i: int| 0 <= i < n && #[trigger] touches(edges[i], id) {
                let i = choose|i: int| 0 <= i < n && #[trigger] touches(edges[i], id);
                if i < n - 1 {
                    assert(prev.contains(id));
                    let w = choose|w: int| 0 <= w < prev.len() && prev[w] == id;
                    assert(cur[w] == id);
                } else if edges[i].source == id {
                    assert(cur[prev.len() as int] == id);
                } else {
                    assert(cur[prev.len() + 1int] == id);
                }
            }
        }
    }
}

/// The outcome of a NET request by Federate `id` for `tag`: the request is recorded, then
/// evaluated.
pub open spec fn spec_request_tag(s: StaticRtiView, id: Seq<char>, tag: WireTag) -> (StaticRtiView, Result<
    GrantDecision,
    RtiErrorView,
>) {
    if !s.federates.contains(id) {
        (s, Err(RtiErrorView::UnknownFederate(id)))
    } else {
        let k = federate_index(s, id);
        let s1 = with_state(s, k, FederateState { next_event: Some(tag), ..s.states[k] });
        match try_grant(s1, k) {
            Ok((s2, d)) => (s2, Ok(d)),
            Err(e) => (s1, Err(e)),
        }
    }
}

/// Whether a message at or before `requested` may still reach Federate `k`.
pub open spec fn spec_can_grant(s: StaticRtiView, k: int, requested: WireTag) -> Result<bool, RtiErrorView> {
    match eimt(s, k) {
        Err(e) => Err(e),
        Ok(x) => Ok(
            match x {
                Some(earliest) => tag_lt(requested, earliest),
                None => true,
            },
        ),
    }
}

impl RtiState {
    /// The Federate set is sorted and every per-Federate table lines up with it.
    pub closed spec fn wf(&self) -> bool {
        &&& self.topology.wf()
        &&& static_rti_wf(self@)
        &&& self.states@.len() == self.in_transit@.len()
        &&& forall|k: int| 0 <= k < self.in_transit@.len() ==> (#[trigger] self.in_transit@[k]).wf()
    }

    /// The RTI for `topology`: every route endpoint joins the Federate set, every Federate starts
    /// with nothing completed, granted or requested and nothing in transit.
    pub fn new(topology: FederatedTopology) -> (r: Self)
        requires
            topology.wf(),
        ensures
            r.wf(),
            fresh_for(r@, topology@),
    {
        let mut topology = topology;
        let ghost given = topology@;
        let mut endpoints: Vec<FederateId> = Vec::new();
        let mut i: usize = 0;
        while i < topology.edges().len()
            invariant
                topology@ == given,
                i <= given.edges.len(),
                id_views(endpoints@) == edge_endpoints(given.edges, i as int),
            decreases given.edges.len() - i,
        {
            let edges = topology.edges();
            assert(edge_views(edges@)[i as int] == edges@[i as int]@);
            endpoints.push(edges[i].source.duplicate());
            endpoints.push(edges[i].target.duplicate());
            assert(id_views(endpoints@) =~= edge_endpoints(given.edges, i + 1));
            i = i + 1;
        }
        proof {
            lemma_edge_endpoints(given.edges, given.edges.len() as int);
        }
        let mut j: usize = 0;
        while j < endpoints.len()
            invariant
                topology.wf(),
                topology@.edges == given.edges,
                j <= endpoints@.len(),
                topology@.federates.to_set() == given.federates.to_set().union(
                    id_views(endpoints@.subrange(0, j as int)).to_set(),
                ),
            decreases endpoints@.len() - j,
        {
            topology.add_federate(&endpoints[j]);
            proof {
                assert(id_views(endpoints@.subrange(0, j + 1)) =~= id_views(
                    endpoints@.subrange(0, j as int),
                ).push(endpoints@[j as int]@));
                id_views(endpoints@.subrange(0, j as int)).lemma_push_to_set_commute(endpoints@[j as int]@);
                assert(topology@.federates.to_set() =~= given.federates.to_set().union(
                    id_views(endpoints@.subrange(0, j + 1)).to_set(),
                ));
            }
            j = j + 1;
        }
        assert(endpoints@.subrange(0, endpoints@.len() as int) =~= endpoints@);
        let n = topology.federates().len();
        let mut states: Vec<FederateState> = Vec::new();
        let mut in_transit: Vec<SortedTags> = Vec::new();
        let mut k: usize = 0;
        while k < n
            invariant
                k <= n,
                states@ == Seq::new(k as nat, |x: int| initial_federate_state()),
                in_transit@.len() == k,
                forall|x: int| 0 <= x < k ==> (#[trigger] in_transit@[x]).wf() && in_transit@[x]@ == Set::<WireTag>::empty(),
            decreases n - k,
        {
            states.push(FederateState::default());
            in_transit.push(SortedTags::new());
            assert(states@ =~= Seq::new((k + 1) as nat, |x: int| initial_federate_state()));
            k = k + 1;
        }
        let r = RtiState { topology, states, in_transit };
        assert(r@.in_transit =~= Seq::new(r@.federates.len(), |x: int| Set::<WireTag>::empty()));
        proof {
            assert forall|id: Seq<char>| r@.federates.contains(id) <==> (given.federates.contains(id)
                || exists|i: int| 0 <= i < given.edges.len() && #[trigger] touches(given.edges[i], id)) by {
                assert(r@.federates.contains(id) == r@.federates.to_set().contains(id));
                assert(given.federates.contains(id) == given.federates.to_set().contains(id));
                assert(id_views(endpoints@).contains(id) == id_views(endpoints@).to_set().contains(id));
                assert(edge_endpoints(given.edges, given.edges.len() as int).contains(id) <==> exists|i: int|
                    0 <= i < given.edges.len() && #[trigger] touches(given.edges[i], id));
            }
        }
        r
    }

    fn find(&self, id: &FederateId) -> (r: Option<usize>)
        requires
            self.wf(),
        ensures
            r is Some <==> self@.federates.contains(id@),
            r is Some ==> r->0 < self@.federates.len() && r->0 == federate_index(self@, id@)
                && self@.federates[r->0 as int] == id@,
    {
        let ids = self.topology.federates();
        let mut k: usize = 0;
        while k < ids.len()
            invariant
                self.wf(),
                id_views(ids@) == self@.federates,
                k <= ids@.len(),
                forall|j: int| 0 <= j < k ==> self@.federates[j] != id@,
            decreases ids@.len() - k,
        {
            assert(self@.federates[k as int] == ids@[k as int]@);
            if ids[k].same(id) {
                proof {
                    lemma_federate_index(self@.federates, k as int);
                }
                return Some(k);
            }
            k = k + 1;
        }
        None
    }

    fn set_state(&mut self, k: usize, st: FederateState)
        requires
            old(self).wf(),
            k < old(self)@.states.len(),
        ensures
            final(self).wf(),
            final(self)@ == with_state(old(self)@, k as int, st),
    {
        self.states.set(k, st);
        assert(self@.states =~= old(self)@.states.update(k as int, st));
        assert(self@.in_transit == old(self)@.in_transit);
    }

    fn transit_earliest(&self, k: usize) -> (t: Option<WireTag>)
        requires
            self.wf(),
            k < self@.federates.len(),
        ensures
            t == transit_earliest(self@, k as int),
    {
        let tags = &self.in_transit[k];
        assert(tags@ == self@.in_transit[k as int]);
        if tags.len() == 0 {
            None
        } else {
            tags.first()
        }
    }

    fn eimt(&self, k: usize) -> (r: Result<Option<WireTag>, RtiError>)
        requires
            self.wf(),
            k < self@.federates.len(),
        ensures
            match eimt(self@, k as int) {
                Ok(x) => r == Ok::<Option<WireTag>, RtiError>(x),
                Err(e) => r is Err && r->Err_0@ == e,
            },
    {
        let mut current = self.transit_earliest(k);
        let edges = self.topology.edges();
        let ids = self.topology.federates();
        let mut i: usize = 0;
        while i < edges.len()
            invariant
                self.wf(),
                k < self@.federates.len(),
                edge_views(edges@) == self@.edges,
                id_views(ids@) == self@.federates,
                i <= edges@.len(),
                eimt_upto(self@, k as int, i as int) == Ok::<Option<WireTag>, RtiErrorView>(current),
            decreases edges@.len() - i,
        {
            let e = &edges[i];
            assert(self@.edges[i as int] == e@);
            assert(self@.federates[k as int] == ids@[k as int]@);
            if e.target.same(&ids[k]) {
                match self.find(&e.source) {
                    None => {
                        proof {
                            lemma_eimt_error_stays(self@, k as int, i + 1, self@.edges.len() as int);
                        }
                        return Err(RtiError::UnknownFederate(e.source.duplicate()));
                    },
                    Some(u) => {
                        let candidate = match self.states[u].next_event {
                            Some(t) => match apply_edge_delay(t, e.delay) {
                                Ok(d) => d,
                                Err(x) => {
                                    proof {
                                        lemma_eimt_error_stays(self@, k as int, i + 1, self@.edges.len() as int);
                                    }
                                    return Err(x);
                                },
                            },
                            None => WireTag::Never,
                        };
                        let replace = match current {
                            None => true,
                            Some(cur) => candidate.lt(&cur),
                        };
                        if replace {
                            current = Some(candidate);
                        }
                    },
                }
            }
            i = i + 1;
        }
        Ok(current)
    }

    fn try_grant_tag(&mut self, k: usize) -> (r: Result<GrantDecision, RtiError>)
        requires
            old(self).wf(),
            k < old(self)@.federates.len(),
        ensures
            final(self).wf(),
            match try_grant(old(self)@, k as int) {
                Ok((s, d)) => r == Ok::<GrantDecision, RtiError>(d) && final(self)@ == s,
                Err(e) => r is Err && r->Err_0@ == e && final(self)@ == old(self)@,
            },
    {
        let st = self.states[k];
        if st.stopped {
            let requested = match st.next_event {
                Some(t) => t,
                None => WireTag::Forever,
            };
            let x = self.eimt(k)?;
            return Ok(GrantDecision::Blocked { requested, earliest_incoming: x });
        }
        let requested = match st.next_event {
            None => {
                let x = self.eimt(k)?;
                return Ok(GrantDecision::Blocked { requested: WireTag::Forever, earliest_incoming: x });
            },
            Some(t) => t,
        };
        if requested.same(&WireTag::Forever) {
            let x = self.eimt(k)?;
            return Ok(GrantDecision::Blocked { requested, earliest_incoming: x });
        }
        let already = match st.last_granted {
            Some(g) => requested.le(&g),
            None => false,
        };
        if already {
            return Ok(GrantDecision::AlreadyGranted { tag: requested });
        }
        let x = self.eimt(k)?;
        let clear = match x {
            None => true,
            Some(earliest) => requested.lt(&earliest),
        };
        if clear {
            let mut next = st;
            next.last_granted = Some(requested);
            self.set_state(k, next);
            Ok(GrantDecision::Granted { tag: requested })
        } else {
            Ok(GrantDecision::Blocked { requested, earliest_incoming: x })
        }
    }

    fn try_grants_for_all(&mut self) -> (r: Result<Vec<RtiDelivery>, RtiError>)
        requires
            old(self).wf(),
        ensures
            final(self).wf(),
            (final(self)@, outcome_view(r)) == grants_for_all(old(self)@),
    {
        let ghost start = self@;
        let n = self.states.len();
        let mut deliveries: Vec<RtiDelivery> = Vec::new();
        assert(deliveries@.map_values(|d: RtiDelivery| d@) =~= Seq::<DeliveryView>::empty());
        let mut k: usize = 0;
        while k < n
            invariant
                self.wf(),
                start == old(self)@,
                n == start.federates.len(),
                self@.federates == start.federates,
                k <= n,
                grants_upto(start, k as int).0 == self@,
                grants_upto(start, k as int).1 == Ok::<Seq<DeliveryView>, RtiErrorView>(
                    deliveries@.map_values(|d: RtiDelivery| d@),
                ),
            decreases n - k,
        {
            match self.try_grant_tag(k) {
                Err(e) => {
                    assert(grants_upto(start, k + 1) == (self@, Err::<Seq<DeliveryView>, RtiErrorView>(e@)));
                    proof {
                        lemma_grants_error_stays(start, k + 1, n as int);
                    }
                    return Err(e);
                },
                Ok(decision) => {
                    match decision {
                        GrantDecision::Granted { tag } => {
                            let id = self.topology.federates()[k].duplicate();
                            let delivery = RtiDelivery::new(id, RtiToFederate::Tag { tag });
                            let ghost before = deliveries@.map_values(|d: RtiDelivery| d@);
                            deliveries.push(delivery);
                            assert(deliveries@.map_values(|d: RtiDelivery| d@) =~= before + grant_delivery(
                                start.federates[k as int],
                                decision,
                            ));
                        },
                        _ => {
                            assert(deliveries@.map_values(|d: RtiDelivery| d@) =~= deliveries@.map_values(
                                |d: RtiDelivery| d@,
                            ) + grant_delivery(start.federates[k as int], decision));
                        },
                    }
                },
            }
            k = k + 1;
        }
        Ok(deliveries)
    }

    /// The position of Federate `id` in the lexically ordered Federate set, if known.
    pub fn federate_position(&self, id: &FederateId) -> (r: Option<usize>)
        requires
            self.wf(),
        ensures
            r is Some <==> self@.federates.contains(id@),
            r is Some ==> r->0 < self@.federates.len() && r->0 == federate_index(self@, id@)
                && self@.federates[r->0 as int] == id@,
    {
        self.find(id)
    }

    /// The number of Federates.
    pub fn federate_count(&self) -> (n: usize)
        requires
            self.wf(),
        ensures
            n == self@.federates.len(),
    {
        self.states.len()
    }

    /// The Federate at position `k`.
    pub fn federate_at(&self, k: usize) -> (id: &FederateId)
        requires
            self.wf(),
            k < self@.federates.len(),
        ensures
            id@ == self@.federates[k as int],
    {
        let ids = self.topology.federates();
        assert(id_views(ids@)[k as int] == ids@[k as int]@);
        &ids[k]
    }

    /// The topology, with every route endpoint in its Federate set.
    pub fn topology(&self) -> (t: &FederatedTopology)
        ensures
            t@.federates == self@.federates,
            t@.edges == self@.edges,
    {
        &self.topology
    }

    /// The state of Federate `id`, if known.
    pub fn federate_state(&self, id: &FederateId) -> (r: Option<&FederateState>)
        requires
            self.wf(),
        ensures
            r is Some <==> self@.federates.contains(id@),
            r is Some ==> *r->0 == self@.states[federate_index(self@, id@)],
    {
        match self.find(id) {
            Some(k) => Some(&self.states[k]),
            None => None,
        }
    }

    /// Records and evaluates a NET request (see [`spec_request_tag`]).
    pub fn request_tag(&mut self, id: &FederateId, tag: WireTag) -> (r: Result<GrantDecision, RtiError>)
        requires
            old(self).wf(),
        ensures
            final(self).wf(),
            final(self)@ == spec_request_tag(old(self)@, id@, tag).0,
            match spec_request_tag(old(self)@, id@, tag).1 {
                Ok(d) => r == Ok::<GrantDecision, RtiError>(d),
                Err(e) => r is Err && r->Err_0@ == e,
            },
    {
        let k = match self.find(id) {
            Some(k) => k,
            None => {
                return Err(RtiError::UnknownFederate(id.duplicate()));
            },
        };
        let mut st = self.states[k];
        st.next_event = Some(tag);
        self.set_state(k, st);
        self.try_grant_tag(k)
    }

    /// Records an LTC of Federate `id` (see [`completed`]).
    pub fn complete_tag(&mut self, id: &FederateId, tag: WireTag) -> (r: Result<(), RtiError>)
        requires
            old(self).wf(),
        ensures
            final(self).wf(),
            !old(self)@.federates.contains(id@) ==> r is Err && r->Err_0@ == RtiErrorView::UnknownFederate(id@)
                && final(self)@ == old(self)@,
            old(self)@.federates.contains(id@) ==> r is Ok && final(self)@ == completed(
                old(self)@,
                federate_index(old(self)@, id@),
                tag,
            ),
    {
        let k = match self.find(id) {
            Some(k) => k,
            None => {
                return Err(RtiError::UnknownFederate(id.duplicate()));
            },
        };
        let ghost before = self@;
        let mut st = self.states[k];
        if st.last_completed.lt(&tag) {
            st.last_completed = tag;
        }
        self.states.set(k, st);
        assert(self.in_transit@[k as int]@ == before.in_transit[k as int]);
        self.in_transit[k].retain_after(tag);
        assert(self@.states =~= completed(before, k as int, tag).states);
        assert(self@.in_transit =~= completed(before, k as int, tag).in_transit);
        Ok(())
    }

    /// Records a message from `source` to `target` at `tag` as in transit.
    pub fn record_in_transit_message(&mut self, source: &FederateId, target: &FederateId, tag: WireTag) -> (r:
        Result<(), RtiError>)
        requires
            old(self).wf(),
        ensures
            final(self).wf(),
            !old(self)@.federates.contains(source@) ==> r is Err && r->Err_0@
                == RtiErrorView::UnknownFederate(source@) && final(self)@ == old(self)@,
            old(self)@.federates.contains(source@) && !old(self)@.federates.contains(target@) ==> r is Err
                && r->Err_0@ == RtiErrorView::UnknownFederate(target@) && final(self)@ == old(self)@,
            old(self)@.federates.contains(source@) && old(self)@.federates.contains(target@) ==> r is Ok
                && final(self)@ == ({
                let t = federate_index(old(self)@, target@);
                StaticRtiView {
                    in_transit: old(self)@.in_transit.update(t, old(self)@.in_transit[t].insert(tag)),
                    ..old(self)@
                }
            }),
    {
        if self.find(source).is_none() {
            return Err(RtiError::UnknownFederate(source.duplicate()));
        }
        let t = match self.find(target) {
            Some(t) => t,
            None => {
                return Err(RtiError::UnknownFederate(target.duplicate()));
            },
        };
        let ghost before = self@;
        assert(self.in_transit@[t as int]@ == before.in_transit[t as int]);
        self.in_transit[t].insert(tag);
        assert(self@.in_transit =~= before.in_transit.update(t as int, before.in_transit[t as int].insert(tag)));
        Ok(())
    }

    /// The earliest tag a message may still arrive at Federate `id` with (see [`eimt`]).
    pub fn earliest_incoming_message_tag(&self, id: &FederateId) -> (r: Result<Option<WireTag>, RtiError>)
        requires
            self.wf(),
        ensures
            !self@.federates.contains(id@) ==> r is Err && r->Err_0@ == RtiErrorView::UnknownFederate(id@),
            self@.federates.contains(id@) ==> match eimt(self@, federate_index(self@, id@)) {
                Ok(x) => r == Ok::<Option<WireTag>, RtiError>(x),
                Err(e) => r is Err && r->Err_0@ == e,
            },
    {
        match self.find(id) {
            Some(k) => self.eimt(k),
            None => Err(RtiError::UnknownFederate(id.duplicate())),
        }
    }

    /// Whether no message at or before `requested` can still reach Federate `id`.
    pub fn can_grant_tag(&self, id: &FederateId, requested: WireTag) -> (r: Result<bool, RtiError>)
        requires
            self.wf(),
        ensures
            !self@.federates.contains(id@) ==> r is Err && r->Err_0@ == RtiErrorView::UnknownFederate(id@),
            self@.federates.contains(id@) ==> match spec_can_grant(self@, federate_index(self@, id@), requested) {
                Ok(b) => r == Ok::<bool, RtiError>(b),
                Err(e) => r is Err && r->Err_0@ == e,
            },
    {
        let k = match self.find(id) {
            Some(k) => k,
            None => {
                return Err(RtiError::UnknownFederate(id.duplicate()));
            },
        };
        match self.eimt(k)? {
            Some(earliest) => Ok(requested.lt(&earliest)),
            None => Ok(true),
        }
    }

    /// Handles one Federate message (see [`spec_handle`]).
    pub fn handle(&mut self, message: FederateToRti) -> (r: Result<Vec<RtiDelivery>, RtiError>)
        requires
            old(self).wf(),
        ensures
            final(self).wf(),
            (final(self)@, outcome_view(r)) == spec_handle(old(self)@, message@),
    {
        match message {
            FederateToRti::Hello { federate_id } => {
                if self.find(&federate_id).is_none() {
                    return Err(RtiError::UnknownFederate(federate_id));
                }
                let none: Vec<RtiDelivery> = Vec::new();
                assert(none@.map_values(|d: RtiDelivery| d@) =~= Seq::<DeliveryView>::empty());
                Ok(none)
            },
            FederateToRti::Net { federate_id, tag } => {
                let decision = self.request_tag(&federate_id, tag)?;
                let ghost after_request = self@;
                let mut deliveries: Vec<RtiDelivery> = Vec::new();
                match decision {
                    GrantDecision::Granted { tag: granted } => {
                        deliveries.push(RtiDelivery::new(federate_id, RtiToFederate::Tag { tag: granted }));
                    },
                    _ => {},
                }
                let ghost first = deliveries@.map_values(|d: RtiDelivery| d@);
                assert(first =~= grant_delivery(message@->Net_federate_id, decision));
                let mut rest = self.try_grants_for_all()?;
                let ghost rest_view = rest@.map_values(|d: RtiDelivery| d@);
                deliveries.append(&mut rest);
                assert(deliveries@.map_values(|d: RtiDelivery| d@) =~= first + rest_view);
                Ok(deliveries)
            },
            FederateToRti::Ltc { federate_id, tag } => {
                self.complete_tag(&federate_id, tag)?;
                self.try_grants_for_all()
            },
            FederateToRti::Msg { source, target, endpoint, tag, payload } => {
                self.record_in_transit_message(&source, &target, tag)?;
                let mut deliveries: Vec<RtiDelivery> = Vec::new();
                deliveries.push(
                    RtiDelivery::new(target, RtiToFederate::Msg { source, endpoint, tag, payload }),
                );
                assert(deliveries@.map_values(|d: RtiDelivery| d@) =~= seq![
                    DeliveryView {
                        federate_id: message@->Msg_target,
                        message: RtiToFederateView::Msg {
                            source: message@->Msg_source,
                            endpoint: message@->Msg_endpoint,
                            tag,
                            payload: message@->Msg_payload,
                        },
                    },
                ]);
                Ok(deliveries)
            },
            FederateToRti::Stop { federate_id } => {
                let k = match self.find(&federate_id) {
                    Some(k) => k,
                    None => {
                        return Err(RtiError::UnknownFederate(federate_id));
                    },
                };
                let mut st = self.states[k];
                st.next_event = Some(WireTag::Forever);
                st.stopped = true;
                self.set_state(k, st);
                self.try_grants_for_all()
            },
        }
    }
}

/// The earliest tag at which a message sent along route `e` could arrive: its source's NET
/// delayed by the route's delay, or `Never` when the source has advertised none.
pub open spec fn route_arrival(s: StaticRtiView, e: EdgeView) -> Result<WireTag, RtiErrorView> {
    match s.states[federate_index(s, e.source)].next_event {
        Some(t) => spec_apply_edge_delay(t, e.delay),
        None => Ok(WireTag::Never),
    }
}

/// Whether the first `n` routes hold none into Federate `k`.
pub open spec fn no_route_into(s: StaticRtiView, k: int, n: int) -> bool {
    forall|i: int| 0 <= i < n ==> (#[trigger] s.edges[i]).target != s.federates[k]
}

proof fn lemma_eimt_upto_least(s: StaticRtiView, k: int, n: int)
    requires
        0 <= n <= s.edges.len(),
    ensures
        eimt_upto(s, k, n) matches Ok(r) ==> {
            &&& (r is None <==> (transit_earliest(s, k) is None && no_route_into(s, k, n)))
            &&& transit_earliest(s, k) matches Some(t) ==> tag_le(r->0, t)
            &&& forall|i: int|
                0 <= i < n && (#[trigger] s.edges[i]).target == s.federates[k] ==> s.federates.contains(
                    s.edges[i].source,
                ) && (route_arrival(s, s.edges[i]) matches Ok(c) && tag_le(r->0, c))
            &&& r matches Some(e) ==> (transit_earliest(s, k) == Some(e) || exists|i: int|
                0 <= i < n && (#[trigger] s.edges[i]).target == s.federates[k] && route_arrival(s, s.edges[i])
                    == Ok::<WireTag, RtiErrorView>(e))
        },
        eimt_upto(s, k, n) matches Err(x) ==> exists|i: int|
            0 <= i < n && (#[trigger] s.edges[i]).target == s.federates[k] && (if s.federates.contains(s.edges[i].source) {
                route_arrival(s, s.edges[i]) == Err::<WireTag, RtiErrorView>(x)
            } else {
                x == RtiErrorView::UnknownFederate(s.edges[i].source)
            }),
    decreases n,
{
    if n > 0 {
        lemma_eimt_upto_least(s, k, n - 1);
        if let Err(x) = eimt_upto(s, k, n) {
            if eimt_upto(s, k, n - 1) is Err {
                let i = choose|i: int|
                    0 <= i < n - 1 && (#[trigger] s.edges[i]).target == s.federates[k] && (if s.federates.contains(
                        s.edges[i].source,
                    ) {
                        route_arrival(s, s.edges[i]) == Err::<WireTag, RtiErrorView>(x)
                    } else {
                        x == RtiErrorView::UnknownFederate(s.edges[i].source)
                    });
                assert(0 <= i < n && s.edges[i].target == s.federates[k]);
            } else {
                assert(s.edges[n - 1].target == s.federates[k]);
            }
        }
        if let Ok(r) = eimt_upto(s, k, n) {
            let current = eimt_upto(s, k, n - 1)->Ok_0;
            let ed = s.edges[n - 1];
            if ed.target != s.federates[k] {
                assert(r == current);
                assert forall|i: int|
                    0 <= i < n && (#[trigger] s.edges[i]).target == s.federates[k] implies s.federates.contains(
                    s.edges[i].source,
                ) && (route_arrival(s, s.edges[i]) matches Ok(c) && tag_le(r->0, c)) by {
                    assert(i < n - 1);
                }
                if let Some(e) = r {
                    if transit_earliest(s, k) != Some(e) {
                        let i = choose|i: int|
                            0 <= i < n - 1 && (#[trigger] s.edges[i]).target == s.federates[k] && route_arrival(
                                s,
                                s.edges[i],
                            ) == Ok::<WireTag, RtiErrorView>(e);
                        assert(0 <= i < n && s.edges[i].target == s.federates[k]);
                    }
                }
            } else {
                let c = route_arrival(s, ed)->Ok_0;
                let e = r->0;
                assert(route_arrival(s, ed) == Ok::<WireTag, RtiErrorView>(c));
                crate::protocol::lemma_tag_order_total(e, c, c);
                if let Some(cur) = current {
                    crate::protocol::lemma_tag_order_total(c, cur, c);
                    crate::protocol::lemma_tag_order_total(cur, c, cur);
                    if let Some(t) = transit_earliest(s, k) {
                        crate::protocol::lemma_tag_order_total(e, cur, t);
                    }
                    assert forall|i: int|
                        0 <= i < n && (#[trigger] s.edges[i]).target == s.federates[k] implies s.federates.contains(
                        s.edges[i].source,
                    ) && (route_arrival(s, s.edges[i]) matches Ok(x) && tag_le(e, x)) by {
                        if i < n - 1 {
                            let x = route_arrival(s, s.edges[i])->Ok_0;
                            crate::protocol::lemma_tag_order_total(e, cur, x);
                        }
                    }
                    if e == cur {
                        if transit_earliest(s, k) != Some(e) {
                            let i = choose|i: int|
                                0 <= i < n - 1 && (#[trigger] s.edges[i]).target == s.federates[k] && route_arrival(
                                    s,
                                    s.edges[i],
                                ) == Ok::<WireTag, RtiErrorView>(e);
                            assert(0 <= i < n && s.edges[i].target == s.federates[k]);
                        }
                    } else {
                        assert(s.edges[n - 1].target == s.federates[k]);
                    }
                } else {
                    assert(transit_earliest(s, k) is None);
                    assert forall|i: int|
                        0 <= i < n && (#[trigger] s.edges[i]).target == s.federates[k] implies s.federates.contains(
                        s.edges[i].source,
                    ) && (route_arrival(s, s.edges[i]) matches Ok(x) && tag_le(e, x)) by {
                        assert(i == n - 1);
                    }
                    assert(s.edges[n - 1].target == s.federates[k]);
                }
                assert(!no_route_into(s, k, n));
            }
        }
    }
}

/// Law of grant evaluation over a topology: the earliest incoming message tag of Federate `k`
/// is the least of the earliest tag still in transit to `k` and the arrival tag of every route
/// into `k`: it is at most each of them and equal to one of them; there is none exactly when
/// nothing is in transit to `k` and no route leads into it.
pub proof fn lemma_eimt_is_least_incoming(s: StaticRtiView, k: int)
    ensures
        eimt(s, k) matches Ok(r) ==> {
            &&& (r is None <==> (transit_earliest(s, k) is None && no_route_into(s, k, s.edges.len() as int)))
            &&& transit_earliest(s, k) matches Some(t) ==> tag_le(r->0, t)
            &&& forall|i: int|
                0 <= i < s.edges.len() && (#[trigger] s.edges[i]).target == s.federates[k] ==> s.federates.contains(
                    s.edges[i].source,
                ) && (route_arrival(s, s.edges[i]) matches Ok(c) && tag_le(r->0, c))
            &&& r matches Some(e) ==> (transit_earliest(s, k) == Some(e) || exists|i: int|
                0 <= i < s.edges.len() && (#[trigger] s.edges[i]).target == s.federates[k] && route_arrival(
                    s,
                    s.edges[i],
                ) == Ok::<WireTag, RtiErrorView>(e))
        },
        eimt(s, k) matches Err(x) ==> exists|i: int|
            0 <= i < s.edges.len() && (#[trigger] s.edges[i]).target == s.federates[k] && (if s.federates.contains(
                s.edges[i].source,
            ) {
                route_arrival(s, s.edges[i]) == Err::<WireTag, RtiErrorView>(x)
            } else {
                x == RtiErrorView::UnknownFederate(s.edges[i].source)
            }),
{
    lemma_eimt_upto_least(s, k, s.edges.len() as int);
}

} // verus!
