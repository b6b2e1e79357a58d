//! A static federated topology: a set of Federates and the delayed routes between them, and the
//! deterministic RTI that coordinates it.
use vstd::prelude::*;

pub mod laws;
pub mod rti;

use crate::ids::{id_views, ids_sorted, insert_sorted_id, EndpointId, FederateId};
use crate::protocol::WireDelay;

verus! {

/// One delayed route from a source Federate's endpoint to a target Federate.
#[derive(Debug, Clone, PartialEq, Eq)]
pub struct TopologyEdge {
    pub source: FederateId,
    pub target: FederateId,
    pub endpoint: EndpointId,
    pub delay: WireDelay,
}

/// Mathematical view of a [`TopologyEdge`].
pub struct EdgeView {
    pub source: Seq<char>,
    pub target: Seq<char>,
    pub endpoint: Seq<char>,
    pub delay: WireDelay,
}

impl View for TopologyEdge {
    type V = EdgeView;

    open spec fn view(&self) -> EdgeView {
        EdgeView {
            source: self.source@,
            target: self.target@,
            endpoint: self.endpoint@,
            delay: self.delay,
        }
    }
}

/// The views of a sequence of edges.
pub open spec fn edge_views(edges: Seq<TopologyEdge>) -> Seq<EdgeView> {
    edges.map_values(|e: TopologyEdge| e@)
}

impl TopologyEdge {
    /// A route from `source` to `target` through `endpoint` with `delay`.
    pub fn new(source: FederateId, target: FederateId, endpoint: EndpointId, delay: WireDelay) -> (e: Self)
        ensures
            e@ == (EdgeView { source: source@, target: target@, endpoint: endpoint@, delay }),
    {
        TopologyEdge { source, target, endpoint, delay }
    }

    /// An identical copy.
    pub fn duplicate(&self) -> (e: Self)
        ensures
            e@ == self@,
    {
        TopologyEdge {
            source: self.source.duplicate(),
            target: self.target.duplicate(),
            endpoint: self.endpoint.duplicate(),
            delay: self.delay,
        }
    }
}

/// A set of Federates, in lexical order, and the routes between them, in declaration order.
#[derive(Debug, Clone)]
pub struct FederatedTopology {
    federates: Vec<FederateId>,
    edges: Vec<TopologyEdge>,
}

/// Mathematical view of a [`FederatedTopology`].
pub struct TopologyView {
    pub federates: Seq<Seq<char>>,
    pub edges: Seq<EdgeView>,
}

impl View for FederatedTopology {
    type V = TopologyView;

    closed spec fn view(&self) -> TopologyView {
        TopologyView { federates: id_views(self.federates@), edges: edge_views(self.edges@) }
    }
}

/// The edges of `edges` whose target is `id`, in order.
pub open spec fn incoming(edges: Seq<EdgeView>, id: Seq<char>) -> Seq<EdgeView> {
    edges.filter(|e: EdgeView| e.target == id)
}

impl FederatedTopology {
    /// The Federate set is lexically sorted without repetition.
    pub closed spec fn wf(&self) -> bool {
        ids_sorted(self@.federates)
    }

    /// The Federates `federates`, without routes.
    pub fn new(federates: Vec<FederateId>) -> (t: Self)
        ensures
            t.wf(),
            t@.federates.to_set() == id_views(federates@).to_set(),
            t@.edges == Seq::<EdgeView>::empty(),
    {
        let mut t = FederatedTopology { federates: Vec::new(), edges: Vec::new() };
        assert(id_views(t.federates@) =~= Seq::<Seq<char>>::empty());
        let mut i: usize = 0;
        while i < federates.len()
            invariant
                t.wf(),
                i <= federates@.len(),
                t@.federates.to_set() == id_views(federates@.subrange(0, i as int)).to_set(),
                t@.edges == Seq::<EdgeView>::empty(),
            decreases federates@.len() - i,
        {
            t.add_federate(&federates[i]);
            assert(id_views(federates@.subrange(0, i + 1)) =~= id_views(
                federates@.subrange(0, i as int),
            ).push(federates@[i as int]@));
            proof {
                id_views(federates@.subrange(0, i as int)).lemma_push_to_set_commute(
                    federates@[i as int]@,
                );
            }
            i = i + 1;
        }
        assert(federates@.subrange(0, federates@.len() as int) =~= federates@);
        t
    }

    /// The Federates `federates` with the routes `edges`.
    pub fn with_edges(federates: Vec<FederateId>, edges: Vec<TopologyEdge>) -> (t: Self)
        ensures
            t.wf(),
            t@.federates.to_set() == id_views(federates@).to_set(),
            t@.edges == edge_views(edges@),
    {
        let mut t = FederatedTopology::new(federates);
        t.edges = edges;
        t
    }

    /// Adds `id` to the Federate set.
    pub fn add_federate(&mut self, id: &FederateId)
        requires
            old(self).wf(),
        ensures
            final(self).wf(),
            final(self)@.federates.to_set() == old(self)@.federates.to_set().insert(id@),
            final(self)@.edges == old(self)@.edges,
    {
        insert_sorted_id(&mut self.federates, id);
    }

    /// The Federates in lexical order.
    pub fn federates(&self) -> (f: &Vec<FederateId>)
        ensures
            id_views(f@) == self@.federates,
    {
        &self.federates
    }

    /// The routes in declaration order.
    pub fn edges(&self) -> (e: &Vec<TopologyEdge>)
        ensures
            edge_views(e@) == self@.edges,
    {
        &self.edges
    }

    /// The routes into `id`, in declaration order.
    pub fn incoming_edges(&self, id: &FederateId) -> (r: Vec<TopologyEdge>)
        ensures
            edge_views(r@) == incoming(self@.edges, id@),
    {
        let ghost all = self@.edges;
        let mut r: Vec<TopologyEdge> = Vec::new();
        let mut i: usize = 0;
        while i < self.edges.len()
            invariant
                all == edge_views(self.edges@),
                i <= self.edges@.len(),
                edge_views(r@) == incoming(all.subrange(0, i as int), id@),
            decreases self.edges@.len() - i,
        {
            let e = &self.edges[i];
            proof {
                assert(all.subrange(0, i + 1) =~= all.subrange(0, i as int).push(all[i as int]));
                all.subrange(0, i as int).lemma_filter_push(all[i as int], |x: EdgeView| x.target == id@);
            }
            if e.target.same(id) {
                let copy = e.duplicate();
                r.push(copy);
                assert(edge_views(r@) =~= incoming(all.subrange(0, i as int), id@).push(all[i as int]));
            }
            i = i + 1;
        }
        assert(all.subrange(0, all.len() as int) =~= all);
        r
    }
}

} // verus!
