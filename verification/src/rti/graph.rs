//! Immutable RTI graph indexed by dense process-local identities.
use vstd::prelude::*;

use crate::ids::{ids_distinct, ids_sorted, lexical_order, seq_lt, str_compare, EndpointId, FederateId};
use crate::protocol::WireDelay;

verus! {

/// One direct incoming endpoint dependency of a Federate.
#[derive(Debug, Clone, Copy, PartialEq, Eq, PartialOrd, Ord, Structural)]
pub struct IncomingDependency {
    /// Dense key of the source Federate.
    pub source: usize,
    /// Dense key of the serialized endpoint.
    pub endpoint: usize,
    /// Minimum logical delay on the endpoint.
    pub delay: WireDelay,
}

/// One transitive incoming path and its minimum accumulated delay.
#[derive(Debug, Clone, Copy, PartialEq, Eq, PartialOrd, Ord, Structural)]
pub struct IncomingPath {
    /// Dense key of the path's source Federate.
    pub source: usize,
    /// Minimum accumulated logical delay from source to target.
    pub delay: WireDelay,
}

#[derive(Debug)]
struct RtiFederate {
    id: FederateId,
    incoming: Vec<IncomingDependency>,
    transitive_incoming: Vec<IncomingPath>,
    affected_downstream: Vec<usize>,
}

#[derive(Debug)]
struct RtiEndpoint {
    id: EndpointId,
    source: usize,
    target: usize,
    delay: WireDelay,
}

/// Immutable RTI graph indexed by dense runtime-local identities.
///
/// Federates and endpoints are numbered in the lexical order of their stable identities.
#[derive(Debug)]
pub struct RtiGraph {
    federates: Vec<RtiFederate>,
    endpoints: Vec<RtiEndpoint>,
}

/// Final stable-identity records produced by federation lowering.
pub struct RtiGraphParts {
    pub federates: Vec<RtiFederateParts>,
    pub endpoints: Vec<RtiEndpointParts>,
}

/// Final graph-analysis results for one Federate.
pub struct RtiFederateParts {
    pub id: FederateId,
    pub transitive_incoming: Vec<(FederateId, WireDelay)>,
    pub affected_downstream: Vec<FederateId>,
}

/// Final lowered route for one federated endpoint.
pub struct RtiEndpointParts {
    pub id: EndpointId,
    pub source: FederateId,
    pub target: FederateId,
    pub delay: WireDelay,
}

/// `a` precedes `b` in the (source, endpoint) order of incoming dependencies.
pub open spec fn dep_lt(a: IncomingDependency, b: IncomingDependency) -> bool {
    a.source < b.source || (a.source == b.source && a.endpoint < b.endpoint)
}

/// Incoming dependencies strictly increasing by (source, endpoint).
pub open spec fn deps_sorted(s: Seq<IncomingDependency>) -> bool {
    forall|i: int, j: int| 0 <= i < j < s.len() ==> dep_lt(s[i], s[j])
}

/// Transitive paths strictly increasing by source.
pub open spec fn paths_sorted(s: Seq<IncomingPath>) -> bool {
    forall|i: int, j: int| 0 <= i < j < s.len() ==> s[i].source < s[j].source
}

/// Keys strictly increasing.
pub open spec fn keys_sorted(s: Seq<usize>) -> bool {
    forall|i: int, j: int| 0 <= i < j < s.len() ==> s[i] < s[j]
}

/// The identities of a sequence of Federate parts.
pub open spec fn part_fed_ids(parts: Seq<RtiFederateParts>) -> Seq<Seq<char>> {
    parts.map_values(|p: RtiFederateParts| p.id@)
}

/// The identities of a sequence of endpoint parts.
pub open spec fn part_ep_ids(parts: Seq<RtiEndpointParts>) -> Seq<Seq<char>> {
    parts.map_values(|p: RtiEndpointParts| p.id@)
}

/// Source identities of a Federate part's transitive incoming paths.
pub open spec fn part_transitive_ids(p: RtiFederateParts) -> Seq<Seq<char>> {
    p.transitive_incoming@.map_values(|x: (FederateId, WireDelay)| x.0@)
}

/// Identities of a Federate part's affected downstream Federates.
pub open spec fn part_affected_ids(p: RtiFederateParts) -> Seq<Seq<char>> {
    p.affected_downstream@.map_values(|x: FederateId| x@)
}

/// Whether `id` is the identity of some Federate part.
pub open spec fn names_federate(parts: Seq<RtiFederateParts>, id: Seq<char>) -> bool {
    exists|p: int| 0 <= p < parts.len() && parts[p].id@ == id
}

/// The lowering records that `RtiGraph::from_lowered` accepts: unique identities, and every
/// referenced Federate declared, with no repeated transitive source or downstream target.
pub open spec fn parts_valid(parts: RtiGraphParts) -> bool {
    let feds = parts.federates@;
    let eps = parts.endpoints@;
    &&& ids_distinct(part_fed_ids(feds))
    &&& ids_distinct(part_ep_ids(eps))
    &&& forall|e: int| 0 <= e < eps.len() ==> names_federate(feds, #[trigger] eps[e].source@)
    &&& forall|e: int| 0 <= e < eps.len() ==> names_federate(feds, #[trigger] eps[e].target@)
    &&& forall|p: int, j: int|
        0 <= p < feds.len() && 0 <= j < feds[p].transitive_incoming@.len() ==> names_federate(
            feds,
            #[trigger] feds[p].transitive_incoming@[j].0@,
        )
    &&& forall|p: int|
        0 <= p < feds.len() ==> ids_distinct(
            #[trigger] part_transitive_ids(feds[p]),
        )
    &&& forall|p: int, j: int|
        0 <= p < feds.len() && 0 <= j < feds[p].affected_downstream@.len() ==> names_federate(
            feds,
            #[trigger] feds[p].affected_downstream@[j]@,
        )
    &&& forall|p: int|
        0 <= p < feds.len() ==> ids_distinct(
            #[trigger] part_affected_ids(feds[p]),
        )
}

/// The texts of a sequence of strings.
pub open spec fn strs_view(v: Seq<&str>) -> Seq<Seq<char>> {
    v.map_values(|s: &str| s@)
}

/// Whether the strings are pairwise distinct.
fn distinct_strs(v: &Vec<&str>) -> (b: bool)
    ensures
        b == ids_distinct(strs_view(v@)),
{
    let n = v.len();
    let mut i: usize = 0;
    while i < n
        invariant
            n == v@.len(),
            i <= n,
            forall|a: int, b: int| 0 <= a < b < i ==> strs_view(v@)[a] != strs_view(v@)[b],
        decreases n - i,
    {
        let mut j: usize = 0;
        while j < i
            invariant
                n == v@.len(),
                i < n,
                j <= i,
                forall|a: int, b: int| 0 <= a < b < i ==> strs_view(v@)[a] != strs_view(v@)[b],
                forall|a: int| 0 <= a < j ==> strs_view(v@)[a] != strs_view(v@)[i as int],
            decreases i - j,
        {
            if str_compare(v[j], v[i]).is_none() {
                assert(strs_view(v@)[j as int] == strs_view(v@)[i as int]);
                return false;
            }
            j = j + 1;
        }
        i = i + 1;
    }
    true
}

/// Whether `x` is one of `names`.
fn listed_str(names: &Vec<&str>, x: &str) -> (b: bool)
    ensures
        b == strs_view(names@).contains(x@),
{
    let mut k: usize = 0;
    while k < names.len()
        invariant
            k <= names@.len(),
            forall|c: int| 0 <= c < k ==> strs_view(names@)[c] != x@,
        decreases names@.len() - k,
    {
        if str_compare(names[k], x).is_none() {
            assert(strs_view(names@)[k as int] == x@);
            return true;
        }
        k = k + 1;
    }
    false
}

/// Whether every string of `v` is one of `names`.
fn all_listed(v: &Vec<&str>, names: &Vec<&str>) -> (b: bool)
    ensures
        b == forall|i: int| 0 <= i < v@.len() ==> strs_view(names@).contains(#[trigger] strs_view(v@)[i]),
{
    let n = v.len();
    let mut i: usize = 0;
    while i < n
        invariant
            n == v@.len(),
            i <= n,
            forall|a: int| 0 <= a < i ==> strs_view(names@).contains(#[trigger] strs_view(v@)[a]),
        decreases n - i,
    {
        if !listed_str(names, v[i]) {
            assert(strs_view(v@)[i as int] == v@[i as int]@);
            return false;
        }
        i = i + 1;
    }
    true
}

/// The source identities of a Federate part's transitive incoming paths, as strings.
fn transitive_strs(p: &RtiFederateParts) -> (r: Vec<&str>)
    ensures
        strs_view(r@) == part_transitive_ids(*p),
{
    let mut r: Vec<&str> = Vec::new();
    let mut k: usize = 0;
    while k < p.transitive_incoming.len()
        invariant
            k <= p.transitive_incoming@.len(),
            r@.len() == k,
            strs_view(r@) == part_transitive_ids(*p).subrange(0, k as int),
        decreases p.transitive_incoming@.len() - k,
    {
        let x = p.transitive_incoming[k].0.as_str();
        let ghost before = r@;
        r.push(x);
        assert(r@ == before.push(x));
        assert(strs_view(r@) =~= part_transitive_ids(*p).subrange(0, k + 1)) by {
            assert(strs_view(r@).len() == k + 1);
            assert forall|a: int| 0 <= a < k + 1 implies strs_view(r@)[a] == part_transitive_ids(*p).subrange(0, k + 1)[a] by {
                if a < k {
                    assert(strs_view(r@)[a] == strs_view(before)[a]);
                }
            }
        }
        k = k + 1;
    }
    assert(part_transitive_ids(*p).subrange(0, k as int) =~= part_transitive_ids(*p));
    r
}

/// The affected downstream identities of a Federate part, as strings.
fn affected_strs(p: &RtiFederateParts) -> (r: Vec<&str>)
    ensures
        strs_view(r@) == part_affected_ids(*p),
{
    let mut r: Vec<&str> = Vec::new();
    let mut k: usize = 0;
    while k < p.affected_downstream.len()
        invariant
            k <= p.affected_downstream@.len(),
            r@.len() == k,
            strs_view(r@) == part_affected_ids(*p).subrange(0, k as int),
        decreases p.affected_downstream@.len() - k,
    {
        let x = p.affected_downstream[k].as_str();
        let ghost before = r@;
        r.push(x);
        assert(r@ == before.push(x));
        assert(strs_view(r@) =~= part_affected_ids(*p).subrange(0, k + 1)) by {
            assert(strs_view(r@).len() == k + 1);
            assert forall|a: int| 0 <= a < k + 1 implies strs_view(r@)[a] == part_affected_ids(*p).subrange(0, k + 1)[a] by {
                if a < k {
                    assert(strs_view(r@)[a] == strs_view(before)[a]);
                }
            }
        }
        k = k + 1;
    }
    assert(part_affected_ids(*p).subrange(0, k as int) =~= part_affected_ids(*p));
    r
}

/// The source and target identities of the endpoint parts, as strings.
fn route_strs(eps: &Vec<RtiEndpointParts>) -> (r: (Vec<&str>, Vec<&str>))
    ensures
        r.0@.len() == eps@.len(),
        r.1@.len() == eps@.len(),
        forall|e: int| 0 <= e < eps@.len() ==> strs_view(r.0@)[e] == (#[trigger] eps@[e]).source@ && strs_view(
            r.1@,
        )[e] == eps@[e].target@,
{
    let mut sources: Vec<&str> = Vec::new();
    let mut targets: Vec<&str> = Vec::new();
    let mut k: usize = 0;
    while k < eps.len()
        invariant
            k <= eps@.len(),
            sources@.len() == k,
            targets@.len() == k,
            forall|e: int| 0 <= e < k ==> strs_view(sources@)[e] == (#[trigger] eps@[e]).source@ && strs_view(
                targets@,
            )[e] == eps@[e].target@,
        decreases eps@.len() - k,
    {
        sources.push(eps[k].source.as_str());
        targets.push(eps[k].target.as_str());
        k = k + 1;
    }
    (sources, targets)
}

proof fn lemma_names_federate(feds: Seq<RtiFederateParts>, id: Seq<char>)
    ensures
        names_federate(feds, id) <==> part_fed_ids(feds).contains(id),
{
    if names_federate(feds, id) {
        let p = choose|p: int| 0 <= p < feds.len() && feds[p].id@ == id;
        assert(part_fed_ids(feds)[p] == id);
    }
    if part_fed_ids(feds).contains(id) {
        let p = choose|p: int| 0 <= p < part_fed_ids(feds).len() && part_fed_ids(feds)[p] == id;
        assert(feds[p].id@ == id);
    }
}

/// Inserts a path into a source-sorted sequence of paths with distinct sources.
fn insert_path(v: &mut Vec<IncomingPath>, x: IncomingPath)
    requires
        paths_sorted(old(v)@),
        forall|j: int| 0 <= j < old(v)@.len() ==> old(v)@[j].source != x.source,
    ensures
        paths_sorted(final(v)@),
        final(v)@.len() == old(v)@.len() + 1,
        forall|y: IncomingPath| final(v)@.contains(y) <==> (old(v)@.contains(y) || y == x),
{
    let mut pos: usize = 0;
    while pos < v.len() && v[pos].source < x.source
        invariant
            pos <= v@.len(),
            forall|k: int| 0 <= k < pos ==> v@[k].source < x.source,
        decreases v@.len() - pos,
    {
        pos = pos + 1;
    }
    let ghost old_v = v@;
    proof {
        if pos < old_v.len() {
            assert(old_v[pos as int].source != x.source);
        }
    }
    v.insert(pos, x);
    proof {
        assert(v@ == old_v.insert(pos as int, x));
        assert forall|a: int, b: int| 0 <= a < b < v@.len() implies v@[a].source < v@[b].source by {
            if a < pos && b == pos {
            } else if a < pos && b > pos {
                assert(v@[b] == old_v[b - 1]);
                if b - 1 > pos {
                    assert(old_v[pos as int].source < old_v[b - 1].source);
                }
            } else if a == pos {
                assert(v@[b] == old_v[b - 1]);
                if b - 1 > pos {
                    assert(old_v[pos as int].source < old_v[b - 1].source);
                }
            } else if b < pos {
                assert(v@[a] == old_v[a]);
                assert(v@[b] == old_v[b]);
            } else {
                assert(v@[a] == old_v[a - 1]);
                assert(v@[b] == old_v[b - 1]);
            }
        }
        crate::seqs::lemma_insert_contains(old_v, pos as int, x);
    }
}

/// Inserts a key into a strictly increasing sequence of keys that lacks it.
fn insert_key(v: &mut Vec<usize>, x: usize)
    requires
        keys_sorted(old(v)@),
        !old(v)@.contains(x),
    ensures
        keys_sorted(final(v)@),
        final(v)@.len() == old(v)@.len() + 1,
        forall|y: usize| final(v)@.contains(y) <==> (old(v)@.contains(y) || y == x),
{
    let mut pos: usize = 0;
    while pos < v.len() && v[pos] < x
        invariant
            pos <= v@.len(),
            forall|k: int| 0 <= k < pos ==> v@[k] < x,
        decreases v@.len() - pos,
    {
        pos = pos + 1;
    }
    let ghost old_v = v@;
    proof {
        if pos < old_v.len() {
            assert(old_v[pos as int] != x);
        }
    }
    v.insert(pos, x);
    proof {
        assert(v@ == old_v.insert(pos as int, x));
        assert forall|y: usize| v@.contains(y) <==> (old_v.contains(y) || y == x) by {
            if v@.contains(y) {
                let w = choose|w: int| 0 <= w < v@.len() && v@[w] == y;
                if w < pos {
                    assert(old_v[w] == y);
                } else if w > pos {
                    assert(old_v[w - 1] == y);
                }
            }
            if old_v.contains(y) {
                let w = choose|w: int| 0 <= w < old_v.len() && old_v[w] == y;
                if w < pos {
                    assert(v@[w] == y);
                } else {
                    assert(v@[w + 1] == y);
                }
            }
            if y == x {
                assert(v@[pos as int] == y);
            }
        }
    }
}

/// Inserts a dependency into a (source, endpoint)-sorted sequence whose endpoints differ from it.
fn insert_dep(v: &mut Vec<IncomingDependency>, x: IncomingDependency)
    requires
        deps_sorted(old(v)@),
        forall|j: int| 0 <= j < old(v)@.len() ==> old(v)@[j].endpoint != x.endpoint,
    ensures
        deps_sorted(final(v)@),
        final(v)@.len() == old(v)@.len() + 1,
        forall|y: IncomingDependency| final(v)@.contains(y) <==> (old(v)@.contains(y) || y == x),
{
    let mut pos: usize = 0;
    while pos < v.len() && (v[pos].source < x.source || (v[pos].source == x.source
        && v[pos].endpoint < x.endpoint))
        invariant
            pos <= v@.len(),
            forall|k: int| 0 <= k < pos ==> dep_lt(v@[k], x),
        decreases v@.len() - pos,
    {
        pos = pos + 1;
    }
    let ghost old_v = v@;
    proof {
        if pos < old_v.len() {
            assert(old_v[pos as int].endpoint != x.endpoint);
            assert(dep_lt(x, old_v[pos as int]));
        }
    }
    v.insert(pos, x);
    proof {
        assert(v@ == old_v.insert(pos as int, x));
        assert forall|a: int, b: int| 0 <= a < b < v@.len() implies dep_lt(v@[a], v@[b]) by {
            if a < pos && b == pos {
            } else if a < pos && b > pos {
                assert(v@[b] == old_v[b - 1]);
                if b - 1 > pos {
                    assert(dep_lt(old_v[pos as int], old_v[b - 1]));
                }
            } else if a == pos {
                assert(v@[b] == old_v[b - 1]);
                if b - 1 > pos {
                    assert(dep_lt(old_v[pos as int], old_v[b - 1]));
                }
            } else if b < pos {
                assert(v@[a] == old_v[a]);
                assert(v@[b] == old_v[b]);
            } else {
                assert(v@[a] == old_v[a - 1]);
                assert(v@[b] == old_v[b - 1]);
            }
        }
        assert forall|y: IncomingDependency| v@.contains(y) <==> (old_v.contains(y) || y == x) by {
            if v@.contains(y) {
                let w = choose|w: int| 0 <= w < v@.len() && v@[w] == y;
                if w < pos {
                    assert(old_v[w] == y);
                } else if w > pos {
                    assert(old_v[w - 1] == y);
                }
            }
            if old_v.contains(y) {
                let w = choose|w: int| 0 <= w < old_v.len() && old_v[w] == y;
                if w < pos {
                    assert(v@[w] == y);
                } else {
                    assert(v@[w + 1] == y);
                }
            }
            if y == x {
                assert(v@[pos as int] == y);
            }
        }
    }
}

/// Position of an identity in a sequence of Federate identities.
fn position_of(ids: &Vec<FederateId>, id: &FederateId) -> (r: Option<usize>)
    ensures
        match r {
            Some(k) => k < ids@.len() && ids@[k as int]@ == id@,
            None => forall|k: int| 0 <= k < ids@.len() ==> ids@[k]@ != id@,
        },
{
    let mut k: usize = 0;
    while k < ids.len()
        invariant
            k <= ids@.len(),
            forall|j: int| 0 <= j < k ==> ids@[j]@ != id@,
        decreases ids@.len() - k,
    {
        if ids[k].same(id) {
            return Some(k);
        }
        k = k + 1;
    }
    None
}

/// Identity view of a graph's transitive incoming paths of Federate `k`.
pub open spec fn path_entries(g: RtiGraph, k: int) -> Set<(Seq<char>, WireDelay)> {
    Set::new(
        |x: (Seq<char>, WireDelay)|
            exists|j: int|
                0 <= j < g.transitive_of(k).len() && x == (
                    g.fed_id(#[trigger] g.transitive_of(k)[j].source as int),
                    g.transitive_of(k)[j].delay,
                ),
    )
}

/// Identity view of a Federate part's transitive incoming paths.
pub open spec fn part_path_entries(p: RtiFederateParts) -> Set<(Seq<char>, WireDelay)> {
    Set::new(
        |x: (Seq<char>, WireDelay)|
            exists|i: int|
                0 <= i < p.transitive_incoming@.len() && x == (
                    (#[trigger] p.transitive_incoming@[i]).0@,
                    p.transitive_incoming@[i].1,
                ),
    )
}

/// Identity view of a graph's affected downstream Federates of Federate `k`.
pub open spec fn affected_entries(g: RtiGraph, k: int) -> Set<Seq<char>> {
    Set::new(
        |x: Seq<char>|
            exists|j: int|
                0 <= j < g.affected_of(k).len() && x == g.fed_id(#[trigger] g.affected_of(k)[j] as int),
    )
}

/// Identity view of a Federate part's affected downstream Federates.
pub open spec fn part_affected_entries(p: RtiFederateParts) -> Set<Seq<char>> {
    Set::new(
        |x: Seq<char>|
            exists|i: int| 0 <= i < p.affected_downstream@.len() && x == (#[trigger] p.affected_downstream@[i])@,
    )
}

/// The compiled Federate `k` carries exactly the lowered records of `part`.
pub open spec fn federate_lowered_from(g: RtiGraph, k: int, part: RtiFederateParts) -> bool {
    &&& g.fed_id(k) == part.id@
    &&& g.transitive_of(k).len() == part.transitive_incoming@.len()
    &&& path_entries(g, k) == part_path_entries(part)
    &&& g.affected_of(k).len() == part.affected_downstream@.len()
    &&& affected_entries(g, k) == part_affected_entries(part)
}

/// The compiled Federate `k` carries the records of some lowered Federate.
pub open spec fn federate_lowered(g: RtiGraph, k: int, feds: Seq<RtiFederateParts>) -> bool {
    exists|p: int| 0 <= p < feds.len() && federate_lowered_from(g, k, feds[p])
}

/// The compiled endpoint `e` carries the route of some lowered endpoint.
pub open spec fn endpoint_lowered(g: RtiGraph, e: int, eps: Seq<RtiEndpointParts>) -> bool {
    exists|q: int| 0 <= q < eps.len() && endpoint_lowered_from(g, e, eps[q])
}

/// The compiled endpoint `e` carries exactly the lowered route `q`.
pub open spec fn endpoint_lowered_from(g: RtiGraph, e: int, q: RtiEndpointParts) -> bool {
    &&& g.ep_id(e) == q.id@
    &&& g.fed_id(g.ep_source(e)) == q.source@
    &&& g.fed_id(g.ep_target(e)) == q.target@
    &&& g.ep_delay(e) == q.delay
}

fn fed_strs(feds: &Vec<RtiFederateParts>) -> (r: Vec<&str>)
    ensures
        r@.len() == feds@.len(),
        forall|k: int| 0 <= k < r@.len() ==> (#[trigger] r@[k])@ == feds@[k].id@,
{
    let mut r: Vec<&str> = Vec::new();
    let mut k: usize = 0;
    while k < feds.len()
        invariant
            k <= feds@.len(),
            r@.len() == k,
            forall|j: int| 0 <= j < k ==> (#[trigger] r@[j])@ == feds@[j].id@,
        decreases feds@.len() - k,
    {
        r.push(feds[k].id.as_str());
        k = k + 1;
    }
    r
}

fn ep_strs(eps: &Vec<RtiEndpointParts>) -> (r: Vec<&str>)
    ensures
        r@.len() == eps@.len(),
        forall|k: int| 0 <= k < r@.len() ==> (#[trigger] r@[k])@ == eps@[k].id@,
{
    let mut r: Vec<&str> = Vec::new();
    let mut k: usize = 0;
    while k < eps.len()
        invariant
            k <= eps@.len(),
            r@.len() == k,
            forall|j: int| 0 <= j < k ==> (#[trigger] r@[j])@ == eps@[j].id@,
        decreases eps@.len() - k,
    {
        r.push(eps[k].id.as_str());
        k = k + 1;
    }
    r
}

fn sorted_fed_ids(feds: &Vec<RtiFederateParts>, order: &Vec<usize>) -> (ids: Vec<FederateId>)
    requires
        forall|k: int| 0 <= k < order@.len() ==> order@[k] < feds@.len(),
    ensures
        ids@.len() == order@.len(),
        forall|k: int| 0 <= k < ids@.len() ==> (#[trigger] ids@[k])@ == feds@[order@[k] as int].id@,
{
    let mut ids: Vec<FederateId> = Vec::new();
    let mut k: usize = 0;
    while k < order.len()
        invariant
            k <= order@.len(),
            forall|j: int| 0 <= j < order@.len() ==> order@[j] < feds@.len(),
            ids@.len() == k,
            forall|j: int| 0 <= j < k ==> (#[trigger] ids@[j])@ == feds@[order@[j] as int].id@,
        decreases order@.len() - k,
    {
        ids.push(feds[order[k]].id.duplicate());
        k = k + 1;
    }
    ids
}

/// Whether some identity in `ids` equals `id`.
pub open spec fn id_listed(ids: Seq<FederateId>, id: Seq<char>) -> bool {
    exists|k: int| 0 <= k < ids.len() && ids[k]@ == id
}

/// A compiled path stands for a lowered `(source, delay)` record under the key table `ids`.
pub open spec fn path_matches(ids: Seq<FederateId>, y: IncomingPath, e: (FederateId, WireDelay)) -> bool {
    y.source < ids.len() && ids[y.source as int]@ == e.0@ && y.delay == e.1
}

/// Some lowered path record of `part` is represented by the compiled path `y`.
pub open spec fn path_from_part(ids: Seq<FederateId>, y: IncomingPath, part: RtiFederateParts) -> bool {
    exists|i: int|
        0 <= i < part.transitive_incoming@.len() && path_matches(ids, y, part.transitive_incoming@[i])
}

/// The lowered path record `e` is represented by some compiled path in `v`.
pub open spec fn path_compiled(ids: Seq<FederateId>, v: Seq<IncomingPath>, e: (FederateId, WireDelay)) -> bool {
    exists|j: int| 0 <= j < v.len() && path_matches(ids, v[j], e)
}

/// Some lowered downstream record of `part` is represented by the compiled key `y`.
pub open spec fn key_from_part(ids: Seq<FederateId>, y: usize, part: RtiFederateParts) -> bool {
    exists|i: int|
        0 <= i < part.affected_downstream@.len() && key_matches(ids, y, part.affected_downstream@[i])
}

/// The lowered downstream record `e` is represented by some compiled key in `v`.
pub open spec fn key_compiled(ids: Seq<FederateId>, v: Seq<usize>, e: FederateId) -> bool {
    exists|j: int| 0 <= j < v.len() && key_matches(ids, v[j], e)
}

/// A compiled key stands for a lowered Federate identity under the key table `ids`.
pub open spec fn key_matches(ids: Seq<FederateId>, y: usize, e: FederateId) -> bool {
    y < ids.len() && ids[y as int]@ == e@
}

fn build_endpoints(eps: &Vec<RtiEndpointParts>, eorder: &Vec<usize>, ids: &Vec<FederateId>) -> (r:
    Vec<RtiEndpoint>)
    requires
        forall|k: int| 0 <= k < eorder@.len() ==> eorder@[k] < eps@.len(),
        forall|e: int| 0 <= e < eps@.len() ==> id_listed(ids@, (#[trigger] eps@[e]).source@),
        forall|e: int| 0 <= e < eps@.len() ==> id_listed(ids@, (#[trigger] eps@[e]).target@),
    ensures
        r@.len() == eorder@.len(),
        forall|e: int|
            0 <= e < r@.len() ==> {
                let q = eps@[eorder@[e] as int];
                &&& (#[trigger] r@[e]).id@ == q.id@
                &&& r@[e].source < ids@.len()
                &&& r@[e].target < ids@.len()
                &&& ids@[r@[e].source as int]@ == q.source@
                &&& ids@[r@[e].target as int]@ == q.target@
                &&& r@[e].delay == q.delay
            },
{
    let mut r: Vec<RtiEndpoint> = Vec::new();
    let mut e: usize = 0;
    while e < eorder.len()
        invariant
            e <= eorder@.len(),
            r@.len() == e,
            forall|k: int| 0 <= k < eorder@.len() ==> eorder@[k] < eps@.len(),
            forall|x: int| 0 <= x < eps@.len() ==> id_listed(ids@, (#[trigger] eps@[x]).source@),
            forall|x: int| 0 <= x < eps@.len() ==> id_listed(ids@, (#[trigger] eps@[x]).target@),
            forall|x: int|
                0 <= x < r@.len() ==> {
                    let q = eps@[eorder@[x] as int];
                    &&& (#[trigger] r@[x]).id@ == q.id@
                    &&& r@[x].source < ids@.len()
                    &&& r@[x].target < ids@.len()
                    &&& ids@[r@[x].source as int]@ == q.source@
                    &&& ids@[r@[x].target as int]@ == q.target@
                    &&& r@[x].delay == q.delay
                },
        decreases eorder@.len() - e,
    {
        let q = &eps[eorder[e]];
        proof {
            let qi = eorder@[e as int] as int;
            assert(eps@[qi] == *q);
            assert(id_listed(ids@, q.source@));
            assert(id_listed(ids@, q.target@));
        }
        let source = match position_of(ids, &q.source) {
            Some(k) => k,
            None => 0,
        };
        let target = match position_of(ids, &q.target) {
            Some(k) => k,
            None => 0,
        };
        r.push(RtiEndpoint { id: q.id.duplicate(), source, target, delay: q.delay });
        e = e + 1;
    }
    r
}

fn incoming_for(endpoints: &Vec<RtiEndpoint>, k: usize) -> (v: Vec<IncomingDependency>)
    ensures
        deps_sorted(v@),
        forall|j: int|
            0 <= j < v@.len() ==> {
                let d = #[trigger] v@[j];
                &&& d.endpoint < endpoints@.len()
                &&& endpoints@[d.endpoint as int].target == k
                &&& endpoints@[d.endpoint as int].source == d.source
                &&& endpoints@[d.endpoint as int].delay == d.delay
            },
        forall|e: int|
            0 <= e < endpoints@.len() && (#[trigger] endpoints@[e]).target == k ==> exists|j: int|
                0 <= j < v@.len() && v@[j].endpoint == e,
{
    let mut v: Vec<IncomingDependency> = Vec::new();
    let mut e: usize = 0;
    while e < endpoints.len()
        invariant
            e <= endpoints@.len(),
            deps_sorted(v@),
            forall|j: int|
                0 <= j < v@.len() ==> {
                    let d = #[trigger] v@[j];
                    &&& d.endpoint < e
                    &&& endpoints@[d.endpoint as int].target == k
                    &&& endpoints@[d.endpoint as int].source == d.source
                    &&& endpoints@[d.endpoint as int].delay == d.delay
                },
            forall|x: int|
                0 <= x < e && (#[trigger] endpoints@[x]).target == k ==> exists|j: int|
                    0 <= j < v@.len() && v@[j].endpoint == x,
        decreases endpoints@.len() - e,
    {
        let ep = &endpoints[e];
        if ep.target == k {
            let d = IncomingDependency { source: ep.source, endpoint: e, delay: ep.delay };
            let ghost old_v = v@;
            insert_dep(&mut v, d);
            proof {
                assert(v@.contains(d));
                assert forall|x: int|
                    0 <= x < e + 1 && (#[trigger] endpoints@[x]).target == k implies exists|j: int|
                    0 <= j < v@.len() && v@[j].endpoint == x by {
                    if x < e {
                        let j0 = choose|j: int| 0 <= j < old_v.len() && old_v[j].endpoint == x;
                        assert(old_v.contains(old_v[j0]));
                        assert(v@.contains(old_v[j0]));
                    }
                }
                assert forall|j: int| 0 <= j < v@.len() implies {
                    let d2 = #[trigger] v@[j];
                    &&& d2.endpoint < e + 1
                    &&& endpoints@[d2.endpoint as int].target == k
                    &&& endpoints@[d2.endpoint as int].source == d2.source
                    &&& endpoints@[d2.endpoint as int].delay == d2.delay
                } by {
                    assert(v@.contains(v@[j]));
                    if v@[j] != d {
                        assert(old_v.contains(v@[j]));
                    }
                }
            }
        }
        e = e + 1;
    }
    v
}

/// Sorts paths with distinct sources by source.
fn sort_paths(u: &Vec<IncomingPath>) -> (v: Vec<IncomingPath>)
    requires
        forall|a: int, b: int| 0 <= a < b < u@.len() ==> u@[a].source != u@[b].source,
    ensures
        paths_sorted(v@),
        v@.len() == u@.len(),
        forall|y: IncomingPath| v@.contains(y) <==> u@.contains(y),
{
    let mut v: Vec<IncomingPath> = Vec::new();
    let mut i: usize = 0;
    while i < u.len()
        invariant
            i <= u@.len(),
            v@.len() == i,
            paths_sorted(v@),
            forall|a: int, b: int| 0 <= a < b < u@.len() ==> u@[a].source != u@[b].source,
            forall|y: IncomingPath| v@.contains(y) <==> u@.subrange(0, i as int).contains(y),
        decreases u@.len() - i,
    {
        proof {
            assert forall|j: int| 0 <= j < v@.len() implies v@[j].source != u@[i as int].source by {
                assert(v@.contains(v@[j]));
                assert(u@.subrange(0, i as int).contains(v@[j]));
                let w = choose|w: int| 0 <= w < i && u@.subrange(0, i as int)[w] == v@[j];
                assert(u@[w] == v@[j]);
            }
        }
        insert_path(&mut v, u[i]);
        proof {
            crate::seqs::lemma_prefix_contains(u@, i as int);
        }
        i = i + 1;
    }
    assert(u@.subrange(0, u@.len() as int) =~= u@);
    v
}

/// Sorts distinct keys.
fn sort_keys(u: &Vec<usize>) -> (v: Vec<usize>)
    requires
        forall|a: int, b: int| 0 <= a < b < u@.len() ==> u@[a] != u@[b],
    ensures
        keys_sorted(v@),
        v@.len() == u@.len(),
        forall|y: usize| v@.contains(y) <==> u@.contains(y),
{
    let mut v: Vec<usize> = Vec::new();
    let mut i: usize = 0;
    while i < u.len()
        invariant
            i <= u@.len(),
            v@.len() == i,
            keys_sorted(v@),
            forall|a: int, b: int| 0 <= a < b < u@.len() ==> u@[a] != u@[b],
            forall|y: usize| v@.contains(y) <==> u@.subrange(0, i as int).contains(y),
        decreases u@.len() - i,
    {
        proof {
            if v@.contains(u@[i as int]) {
                assert(u@.subrange(0, i as int).contains(u@[i as int]));
                let w = choose|w: int| 0 <= w < i && u@.subrange(0, i as int)[w] == u@[i as int];
                assert(u@[w] == u@[i as int]);
            }
        }
        insert_key(&mut v, u[i]);
        proof {
            crate::seqs::lemma_prefix_contains(u@, i as int);
        }
        i = i + 1;
    }
    assert(u@.subrange(0, u@.len() as int) =~= u@);
    v
}

fn transitive_for(part: &RtiFederateParts, ids: &Vec<FederateId>) -> (v: Vec<IncomingPath>)
    requires
        ids_distinct(ids@.map_values(|x: FederateId| x@)),
        ids_distinct(part_transitive_ids(*part)),
        forall|i: int|
            0 <= i < part.transitive_incoming@.len() ==> id_listed(
                ids@,
                (#[trigger] part.transitive_incoming@[i]).0@,
            ),
    ensures
        paths_sorted(v@),
        v@.len() == part.transitive_incoming@.len(),
        forall|j: int| 0 <= j < v@.len() ==> path_from_part(ids@, #[trigger] v@[j], *part),
        forall|i: int|
            0 <= i < part.transitive_incoming@.len() ==> path_compiled(
                ids@,
                v@,
                #[trigger] part.transitive_incoming@[i],
            ),
{
    let t = &part.transitive_incoming;
    let mut u: Vec<IncomingPath> = Vec::new();
    let mut i: usize = 0;
    while i < t.len()
        invariant
            t@ == part.transitive_incoming@,
            i <= t@.len(),
            u@.len() == i,
            forall|x: int| 0 <= x < t@.len() ==> id_listed(ids@, (#[trigger] t@[x]).0@),
            forall|x: int| 0 <= x < i ==> #[trigger] path_matches(ids@, u@[x], t@[x]),
        decreases t@.len() - i,
    {
        proof {
            assert(id_listed(ids@, t@[i as int].0@));
        }
        let key = match position_of(ids, &t[i].0) {
            Some(k) => k,
            None => 0,
        };
        u.push(IncomingPath { source: key, delay: t[i].1 });
        proof {
            assert(path_matches(ids@, u@[i as int], t@[i as int]));
        }
        i = i + 1;
    }
    proof {
        assert forall|a: int, b: int| 0 <= a < b < u@.len() implies u@[a].source != u@[b].source by {
            assert(path_matches(ids@, u@[a], t@[a]));
            assert(path_matches(ids@, u@[b], t@[b]));
            assert(part_transitive_ids(*part)[a] == t@[a].0@);
            assert(part_transitive_ids(*part)[b] == t@[b].0@);
        }
    }
    let v = sort_paths(&u);
    proof {
        assert forall|j: int| 0 <= j < v@.len() implies path_from_part(ids@, #[trigger] v@[j], *part) by {
            assert(v@.contains(v@[j]));
            assert(u@.contains(v@[j]));
            let w = choose|w: int| 0 <= w < u@.len() && u@[w] == v@[j];
            assert(path_matches(ids@, u@[w], t@[w]));
            assert(path_matches(ids@, v@[j], part.transitive_incoming@[w]));
        }
        assert forall|x: int| 0 <= x < part.transitive_incoming@.len() implies path_compiled(
            ids@,
            v@,
            #[trigger] part.transitive_incoming@[x],
        ) by {
            assert(path_matches(ids@, u@[x], t@[x]));
            assert(u@.contains(u@[x]));
            assert(v@.contains(u@[x]));
            let w = choose|w: int| 0 <= w < v@.len() && v@[w] == u@[x];
            assert(path_matches(ids@, v@[w], t@[x]));
            assert(path_matches(ids@, v@[w], part.transitive_incoming@[x]));
        }
    }
    v
}

fn affected_for(part: &RtiFederateParts, ids: &Vec<FederateId>) -> (v: Vec<usize>)
    requires
        ids_distinct(ids@.map_values(|x: FederateId| x@)),
        ids_distinct(part_affected_ids(*part)),
        forall|i: int|
            0 <= i < part.affected_downstream@.len() ==> id_listed(
                ids@,
                (#[trigger] part.affected_downstream@[i])@,
            ),
    ensures
        keys_sorted(v@),
        v@.len() == part.affected_downstream@.len(),
        forall|j: int| 0 <= j < v@.len() ==> key_from_part(ids@, #[trigger] v@[j], *part),
        forall|i: int|
            0 <= i < part.affected_downstream@.len() ==> key_compiled(
                ids@,
                v@,
                #[trigger] part.affected_downstream@[i],
            ),
{
    let t = &part.affected_downstream;
    let mut u: Vec<usize> = Vec::new();
    let mut i: usize = 0;
    while i < t.len()
        invariant
            t@ == part.affected_downstream@,
            i <= t@.len(),
            u@.len() == i,
            forall|x: int| 0 <= x < t@.len() ==> id_listed(ids@, (#[trigger] t@[x])@),
            forall|x: int| 0 <= x < i ==> #[trigger] key_matches(ids@, u@[x], t@[x]),
        decreases t@.len() - i,
    {
        proof {
            assert(id_listed(ids@, t@[i as int]@));
        }
        let key = match position_of(ids, &t[i]) {
            Some(k) => k,
            None => 0,
        };
        u.push(key);
        proof {
            assert(key_matches(ids@, u@[i as int], t@[i as int]));
        }
        i = i + 1;
    }
    proof {
        assert forall|a: int, b: int| 0 <= a < b < u@.len() implies u@[a] != u@[b] by {
            assert(key_matches(ids@, u@[a], t@[a]));
            assert(key_matches(ids@, u@[b], t@[b]));
            assert(part_affected_ids(*part)[a] == t@[a]@);
            assert(part_affected_ids(*part)[b] == t@[b]@);
        }
    }
    let v = sort_keys(&u);
    proof {
        assert forall|j: int| 0 <= j < v@.len() implies key_from_part(ids@, #[trigger] v@[j], *part) by {
            assert(v@.contains(v@[j]));
            assert(u@.contains(v@[j]));
            let w = choose|w: int| 0 <= w < u@.len() && u@[w] == v@[j];
            assert(key_matches(ids@, u@[w], t@[w]));
            assert(key_matches(ids@, v@[j], part.affected_downstream@[w]));
        }
        assert forall|x: int| 0 <= x < part.affected_downstream@.len() implies key_compiled(
            ids@,
            v@,
            #[trigger] part.affected_downstream@[x],
        ) by {
            assert(key_matches(ids@, u@[x], t@[x]));
            assert(u@.contains(u@[x]));
            assert(v@.contains(u@[x]));
            let w = choose|w: int| 0 <= w < v@.len() && v@[w] == u@[x];
            assert(key_matches(ids@, v@[w], t@[x]));
            assert(key_matches(ids@, v@[w], part.affected_downstream@[x]));
        }
    }
    v
}

impl RtiGraph {
    /// Intern final lowered graph records without repeating graph analysis.
    ///
    /// Federates and endpoints receive dense keys in the lexical order of their identities;
    /// each Federate's direct incoming dependencies are derived from the endpoints.
    pub fn from_lowered(parts: RtiGraphParts) -> (g: Self)
        requires
            parts_valid(parts),
        ensures
            g.wf(),
            g.fed_count() == parts.federates@.len(),
            g.ep_count() == parts.endpoints@.len(),
            forall|k: int|
                0 <= k < g.fed_count() ==> #[trigger] federate_lowered(g, k, parts.federates@),
            forall|e: int|
                0 <= e < g.ep_count() ==> #[trigger] endpoint_lowered(g, e, parts.endpoints@),
            g.fed_ids().to_set() == part_fed_ids(parts.federates@).to_set(),
            g.ep_ids().to_set() == part_ep_ids(parts.endpoints@).to_set(),
    {
        let feds = &parts.federates;
        let eps = &parts.endpoints;
        let fstrs = fed_strs(feds);
        proof {
            assert(fstrs@.map_values(|s: &str| s@) =~= part_fed_ids(feds@));
        }
        let order = lexical_order(&fstrs);
        let ids = sorted_fed_ids(feds, &order);
        proof {
            assert forall|a: int, b: int| 0 <= a < b < ids@.len() implies seq_lt(ids@[a]@, ids@[b]@) by {
                assert(fstrs@[order@[a] as int]@ == feds@[order@[a] as int].id@);
                assert(fstrs@[order@[b] as int]@ == feds@[order@[b] as int].id@);
            }
            let idv = ids@.map_values(|x: FederateId| x@);
            assert forall|a: int, b: int| 0 <= a < b < idv.len() implies #[trigger] idv[a] != #[trigger] idv[b] by {
                crate::ids::lemma_seq_lt_order(ids@[a]@, ids@[b]@, ids@[b]@);
            }
            assert forall|p: int| 0 <= p < feds@.len() implies id_listed(ids@, #[trigger] feds@[p].id@) by {
                assert(order@.contains(p as usize));
                let k = choose|k: int| 0 <= k < order@.len() && order@[k] == p as usize;
                assert(ids@[k]@ == feds@[p].id@);
            }
            assert forall|e: int| 0 <= e < eps@.len() implies id_listed(ids@, (#[trigger] eps@[e]).source@) by {
                assert(names_federate(feds@, eps@[e].source@));
                let p = choose|p: int| 0 <= p < feds@.len() && feds@[p].id@ == eps@[e].source@;
                assert(id_listed(ids@, feds@[p].id@));
            }
            assert forall|e: int| 0 <= e < eps@.len() implies id_listed(ids@, (#[trigger] eps@[e]).target@) by {
                assert(names_federate(feds@, eps@[e].target@));
                let p = choose|p: int| 0 <= p < feds@.len() && feds@[p].id@ == eps@[e].target@;
                assert(id_listed(ids@, feds@[p].id@));
            }
        }
        let estrs = ep_strs(eps);
        proof {
            assert(estrs@.map_values(|s: &str| s@) =~= part_ep_ids(eps@));
        }
        let eorder = lexical_order(&estrs);
        let endpoints = build_endpoints(eps, &eorder, &ids);
        let n = ids.len();
        let mut federates: Vec<RtiFederate> = Vec::new();
        let mut k: usize = 0;
        while k < n
            invariant
                n == ids@.len(),
                n == order@.len(),
                k <= n,
                federates@.len() == k,
                order@.len() == feds@.len(),
                forall|j: int| 0 <= j < order@.len() ==> order@[j] < feds@.len(),
                forall|j: int| 0 <= j < n ==> (#[trigger] ids@[j])@ == feds@[order@[j] as int].id@,
                ids_distinct(ids@.map_values(|x: FederateId| x@)),
                parts_valid(parts),
                *feds == parts.federates,
                forall|p: int| 0 <= p < feds@.len() ==> id_listed(ids@, #[trigger] feds@[p].id@),
                forall|j: int|
                    0 <= j < k ==> {
                        let f = #[trigger] federates@[j];
                        let part = feds@[order@[j] as int];
                        &&& f.id@ == ids@[j]@
                        &&& deps_sorted(f.incoming@)
                        &&& (forall|x: int|
                            0 <= x < f.incoming@.len() ==> {
                                let d = #[trigger] f.incoming@[x];
                                &&& d.endpoint < endpoints@.len()
                                &&& endpoints@[d.endpoint as int].target == j
                                &&& endpoints@[d.endpoint as int].source == d.source
                                &&& endpoints@[d.endpoint as int].delay == d.delay
                            })
                        &&& (forall|e: int|
                            0 <= e < endpoints@.len() && (#[trigger] endpoints@[e]).target == j
                                ==> exists|x: int|
                                0 <= x < f.incoming@.len() && f.incoming@[x].endpoint == e)
                        &&& paths_sorted(f.transitive_incoming@)
                        &&& f.transitive_incoming@.len() == part.transitive_incoming@.len()
                        &&& (forall|x: int|
                            0 <= x < f.transitive_incoming@.len() ==> path_from_part(
                                ids@,
                                #[trigger] f.transitive_incoming@[x],
                                part,
                            ))
                        &&& (forall|x: int|
                            0 <= x < part.transitive_incoming@.len() ==> path_compiled(
                                ids@,
                                f.transitive_incoming@,
                                #[trigger] part.transitive_incoming@[x],
                            ))
                        &&& keys_sorted(f.affected_downstream@)
                        &&& f.affected_downstream@.len() == part.affected_downstream@.len()
                        &&& (forall|x: int|
                            0 <= x < f.affected_downstream@.len() ==> key_from_part(
                                ids@,
                                #[trigger] f.affected_downstream@[x],
                                part,
                            ))
                        &&& (forall|x: int|
                            0 <= x < part.affected_downstream@.len() ==> key_compiled(
                                ids@,
                                f.affected_downstream@,
                                #[trigger] part.affected_downstream@[x],
                            ))
                    },
            decreases n - k,
        {
            let part = &feds[order[k]];
            proof {
                let p = order@[k as int] as int;
                assert(part_transitive_ids(feds@[p]) == part_transitive_ids(*part));
                assert forall|i: int| 0 <= i < part.transitive_incoming@.len() implies id_listed(
                    ids@,
                    (#[trigger] part.transitive_incoming@[i]).0@,
                ) by {
                    assert(names_federate(feds@, feds@[p].transitive_incoming@[i].0@));
                    let q = choose|q: int| 0 <= q < feds@.len() && feds@[q].id@ == feds@[p].transitive_incoming@[i].0@;
                    assert(id_listed(ids@, feds@[q].id@));
                }
                assert forall|i: int| 0 <= i < part.affected_downstream@.len() implies id_listed(
                    ids@,
                    (#[trigger] part.affected_downstream@[i])@,
                ) by {
                    assert(names_federate(feds@, feds@[p].affected_downstream@[i]@));
                    let q = choose|q: int| 0 <= q < feds@.len() && feds@[q].id@ == feds@[p].affected_downstream@[i]@;
                    assert(id_listed(ids@, feds@[q].id@));
                }
            }
            let incoming = incoming_for(&endpoints, k);
            let transitive_incoming = transitive_for(part, &ids);
            let affected_downstream = affected_for(part, &ids);
            let ghost gi = incoming@;
            let ghost gt = transitive_incoming@;
            let ghost ga = affected_downstream@;
            let ghost old_feds = federates@;
            federates.push(
                RtiFederate { id: ids[k].duplicate(), incoming, transitive_incoming, affected_downstream },
            );
            proof {
                let f = federates@[k as int];
                assert(f.incoming@ == gi);
                assert(f.transitive_incoming@ == gt);
                assert(f.affected_downstream@ == ga);
                assert(part == feds@[order@[k as int] as int]);
                assert forall|j: int| 0 <= j < k implies federates@[j] == old_feds[j] by {}
                assert forall|x: int| 0 <= x < f.transitive_incoming@.len() implies path_from_part(
                    ids@,
                    #[trigger] f.transitive_incoming@[x],
                    *part,
                ) by {
                    assert(gt[x] == f.transitive_incoming@[x]);
                }
                assert forall|x: int| 0 <= x < f.affected_downstream@.len() implies key_from_part(
                    ids@,
                    #[trigger] f.affected_downstream@[x],
                    *part,
                ) by {
                    assert(ga[x] == f.affected_downstream@[x]);
                }
                assert forall|x: int| 0 <= x < f.incoming@.len() implies {
                    let d = #[trigger] f.incoming@[x];
                    &&& d.endpoint < endpoints@.len()
                    &&& endpoints@[d.endpoint as int].target == k
                    &&& endpoints@[d.endpoint as int].source == d.source
                    &&& endpoints@[d.endpoint as int].delay == d.delay
                } by {
                    assert(gi[x] == f.incoming@[x]);
                }
            }
            k = k + 1;
        }
        let g = RtiGraph { federates, endpoints };
        proof {
            assert forall|j: int| 0 <= j < n implies #[trigger] g.fed_id(j) == ids@[j]@ by {
                assert(g.federates@[j] == federates@[j]);
            }
            assert forall|a: int, b: int| 0 <= a < b < g.fed_ids().len() implies seq_lt(
                g.fed_ids()[a],
                g.fed_ids()[b],
            ) by {
                assert(g.fed_ids()[a] == g.fed_id(a));
                assert(g.fed_ids()[b] == g.fed_id(b));
            }
            assert forall|a: int, b: int| 0 <= a < b < g.ep_ids().len() implies seq_lt(
                g.ep_ids()[a],
                g.ep_ids()[b],
            ) by {
                assert(g.ep_ids()[a] == g.endpoints@[a].id@);
                assert(g.ep_ids()[b] == g.endpoints@[b].id@);
                assert(estrs@[eorder@[a] as int]@ == eps@[eorder@[a] as int].id@);
                assert(estrs@[eorder@[b] as int]@ == eps@[eorder@[b] as int].id@);
            }
            assert forall|kk: int| 0 <= kk < n implies deps_sorted(#[trigger] g.incoming_of(kk)) by {
                assert(g.federates@[kk] == federates@[kk]);
            }
            assert forall|kk: int, j: int|
                0 <= kk < n && 0 <= j < g.incoming_of(kk).len() implies {
                    let d = #[trigger] g.incoming_of(kk)[j];
                    &&& d.endpoint < g.ep_count()
                    &&& g.ep_target(d.endpoint as int) == kk
                    &&& g.ep_source(d.endpoint as int) == d.source
                    &&& g.ep_delay(d.endpoint as int) == d.delay
                } by {
                let f = federates@[kk];
                assert(g.federates@[kk] == f);
                let d = f.incoming@[j];
                assert(d.endpoint < endpoints@.len());
            }
            assert forall|e: int| 0 <= e < g.ep_count() implies g.incoming_of(
                #[trigger] g.ep_target(e),
            ).contains(g.dependency_of(e)) by {
                let t = endpoints@[e].target as int;
                assert(t < n);
                let f = federates@[t];
                assert(g.federates@[t] == f);
                assert(endpoints@[e].target == t);
                let x = choose|x: int| 0 <= x < f.incoming@.len() && f.incoming@[x].endpoint == e;
                let d = f.incoming@[x];
                assert(g.incoming_of(t)[x] == d);
                assert(d == g.dependency_of(e));
            }
            assert forall|kk: int| 0 <= kk < n implies paths_sorted(#[trigger] g.transitive_of(kk))
                && keys_sorted(g.affected_of(kk)) by {
                assert(g.federates@[kk] == federates@[kk]);
            }
            assert forall|kk: int, j: int|
                0 <= kk < n && 0 <= j < g.transitive_of(kk).len() implies (#[trigger] g.transitive_of(
                kk,
            )[j]).source < n by {
                let f = federates@[kk];
                assert(g.federates@[kk] == f);
                assert(path_from_part(ids@, f.transitive_incoming@[j], feds@[order@[kk] as int]));
            }
            assert forall|kk: int, j: int|
                0 <= kk < n && 0 <= j < g.affected_of(kk).len() implies #[trigger] g.affected_of(kk)[j]
                < n by {
                let f = federates@[kk];
                assert(g.federates@[kk] == f);
                assert(key_from_part(ids@, f.affected_downstream@[j], feds@[order@[kk] as int]));
            }
            assert forall|kk: int| 0 <= kk < g.fed_count() implies #[trigger] federate_lowered(
                g,
                kk,
                parts.federates@,
            ) by {
                let p = order@[kk] as int;
                let part = feds@[p];
                let f = federates@[kk];
                assert(g.federates@[kk] == f);
                assert(path_entries(g, kk) =~= part_path_entries(part)) by {
                    assert forall|x: (Seq<char>, WireDelay)| path_entries(g, kk).contains(x) implies part_path_entries(part).contains(x) by {
                        let j = choose|j: int| 0 <= j < g.transitive_of(kk).len() && x == (
                            g.fed_id(#[trigger] g.transitive_of(kk)[j].source as int),
                            g.transitive_of(kk)[j].delay,
                        );
                        assert(path_from_part(ids@, f.transitive_incoming@[j], part));
                        let i = choose|i: int| 0 <= i < part.transitive_incoming@.len() && path_matches(ids@, f.transitive_incoming@[j], part.transitive_incoming@[i]);
                        assert(g.fed_id(f.transitive_incoming@[j].source as int) == ids@[f.transitive_incoming@[j].source as int]@);
                        assert(x == ((part.transitive_incoming@[i]).0@, part.transitive_incoming@[i].1));
                    }
                    assert forall|x: (Seq<char>, WireDelay)| part_path_entries(part).contains(x) implies path_entries(g, kk).contains(x) by {
                        let i = choose|i: int| 0 <= i < part.transitive_incoming@.len() && x == (
                            (#[trigger] part.transitive_incoming@[i]).0@,
                            part.transitive_incoming@[i].1,
                        );
                        assert(path_compiled(ids@, f.transitive_incoming@, part.transitive_incoming@[i]));
                        let j = choose|j: int| 0 <= j < f.transitive_incoming@.len() && path_matches(ids@, f.transitive_incoming@[j], part.transitive_incoming@[i]);
                        assert(g.fed_id(f.transitive_incoming@[j].source as int) == ids@[f.transitive_incoming@[j].source as int]@);
                        assert(g.transitive_of(kk)[j] == f.transitive_incoming@[j]);
                    }
                }
                assert(affected_entries(g, kk) =~= part_affected_entries(part)) by {
                    assert forall|x: Seq<char>| affected_entries(g, kk).contains(x) implies part_affected_entries(part).contains(x) by {
                        let j = choose|j: int| 0 <= j < g.affected_of(kk).len() && x == g.fed_id(#[trigger] g.affected_of(kk)[j] as int);
                        assert(key_from_part(ids@, f.affected_downstream@[j], part));
                        let i = choose|i: int| 0 <= i < part.affected_downstream@.len() && key_matches(ids@, f.affected_downstream@[j], part.affected_downstream@[i]);
                        assert(g.fed_id(f.affected_downstream@[j] as int) == ids@[f.affected_downstream@[j] as int]@);
                        assert(x == (part.affected_downstream@[i])@);
                    }
                    assert forall|x: Seq<char>| part_affected_entries(part).contains(x) implies affected_entries(g, kk).contains(x) by {
                        let i = choose|i: int| 0 <= i < part.affected_downstream@.len() && x == (#[trigger] part.affected_downstream@[i])@;
                        assert(key_compiled(ids@, f.affected_downstream@, part.affected_downstream@[i]));
                        let j = choose|j: int| 0 <= j < f.affected_downstream@.len() && key_matches(ids@, f.affected_downstream@[j], part.affected_downstream@[i]);
                        assert(g.fed_id(f.affected_downstream@[j] as int) == ids@[f.affected_downstream@[j] as int]@);
                        assert(g.affected_of(kk)[j] == f.affected_downstream@[j]);
                    }
                }
                assert(federate_lowered_from(g, kk, parts.federates@[p]));
            }
            assert forall|e: int| 0 <= e < g.ep_count() implies #[trigger] endpoint_lowered(
                g,
                e,
                parts.endpoints@,
            ) by {
                let q = eorder@[e] as int;
                let ep = endpoints@[e];
                assert(g.endpoints@[e] == ep);
                assert(g.fed_id(ep.source as int) == ids@[ep.source as int]@);
                assert(g.fed_id(ep.target as int) == ids@[ep.target as int]@);
                assert(endpoint_lowered_from(g, e, parts.endpoints@[q]));
            }
            let pf = part_fed_ids(parts.federates@);
            assert forall|x: Seq<char>| g.fed_ids().to_set().contains(x) <==> pf.to_set().contains(x) by {
                if g.fed_ids().contains(x) {
                    let k = choose|k: int| 0 <= k < g.fed_ids().len() && g.fed_ids()[k] == x;
                    assert(federate_lowered(g, k, parts.federates@));
                    let p = choose|p: int| 0 <= p < feds@.len() && federate_lowered_from(g, k, feds@[p]);
                    assert(pf[p] == x);
                }
                if pf.contains(x) {
                    let p = choose|p: int| 0 <= p < pf.len() && pf[p] == x;
                    assert(id_listed(ids@, feds@[p].id@));
                    let k = choose|k: int| 0 <= k < ids@.len() && ids@[k]@ == feds@[p].id@;
                    assert(g.fed_id(k) == ids@[k]@);
                    assert(g.fed_ids()[k] == x);
                }
            }
            assert(g.fed_ids().to_set() =~= pf.to_set());
            let pe = part_ep_ids(parts.endpoints@);
            assert forall|x: Seq<char>| g.ep_ids().to_set().contains(x) <==> pe.to_set().contains(x) by {
                if g.ep_ids().contains(x) {
                    let e = choose|e: int| 0 <= e < g.ep_ids().len() && g.ep_ids()[e] == x;
                    assert(endpoint_lowered(g, e, parts.endpoints@));
                    let q = choose|q: int| 0 <= q < eps@.len() && endpoint_lowered_from(g, e, eps@[q]);
                    assert(pe[q] == x);
                }
                if pe.contains(x) {
                    let q = choose|q: int| 0 <= q < pe.len() && pe[q] == x;
                    assert(eorder@.contains(q as usize));
                    let e = choose|e: int| 0 <= e < eorder@.len() && eorder@[e] == q as usize;
                    assert(g.endpoints@[e] == endpoints@[e]);
                    assert(g.ep_id(e) == x);
                    assert(g.ep_ids()[e] == x);
                }
            }
            assert(g.ep_ids().to_set() =~= pe.to_set());
        }
        g
    }

    /// Whether `parts` are records that [`RtiGraph::from_lowered`] accepts (see [`parts_valid`]).
    pub fn check_lowered(parts: &RtiGraphParts) -> (b: bool)
        ensures
            b == parts_valid(*parts),
    {
        let feds = &parts.federates;
        let eps = &parts.endpoints;
        let fstrs = fed_strs(feds);
        let estrs = ep_strs(eps);
        let ghost fv = strs_view(fstrs@);
        proof {
            assert(strs_view(fstrs@) =~= part_fed_ids(feds@));
            assert(strs_view(estrs@) =~= part_ep_ids(eps@));
        }
        if !distinct_strs(&fstrs) || !distinct_strs(&estrs) {
            return false;
        }
        let (sources, targets) = route_strs(eps);
        proof {
            assert forall|e: int| 0 <= e < eps@.len() implies (names_federate(feds@, (#[trigger] eps@[e]).source@)
                <==> fv.contains(strs_view(sources@)[e])) && (names_federate(feds@, eps@[e].target@)
                <==> fv.contains(strs_view(targets@)[e])) by {
                lemma_names_federate(feds@, eps@[e].source@);
                lemma_names_federate(feds@, eps@[e].target@);
            }
        }
        if !all_listed(&sources, &fstrs) {
            proof {
                let e = choose|e: int| 0 <= e < sources@.len() && !fv.contains(#[trigger] strs_view(sources@)[e]);
                assert(!names_federate(feds@, eps@[e].source@));
            }
            return false;
        }
        if !all_listed(&targets, &fstrs) {
            proof {
                let e = choose|e: int| 0 <= e < targets@.len() && !fv.contains(#[trigger] strs_view(targets@)[e]);
                assert(!names_federate(feds@, eps@[e].target@));
            }
            return false;
        }
        let n = feds.len();
        let mut p: usize = 0;
        while p < n
            invariant
                n == feds@.len(),
                *feds == parts.federates,
                p <= n,
                fv == strs_view(fstrs@),
                fv == part_fed_ids(feds@),
                forall|q: int, j: int|
                    0 <= q < p && 0 <= j < feds@[q].transitive_incoming@.len() ==> names_federate(
                        feds@,
                        #[trigger] feds@[q].transitive_incoming@[j].0@,
                    ),
                forall|q: int| 0 <= q < p ==> ids_distinct(#[trigger] part_transitive_ids(feds@[q])),
                forall|q: int, j: int|
                    0 <= q < p && 0 <= j < feds@[q].affected_downstream@.len() ==> names_federate(
                        feds@,
                        #[trigger] feds@[q].affected_downstream@[j]@,
                    ),
                forall|q: int| 0 <= q < p ==> ids_distinct(#[trigger] part_affected_ids(feds@[q])),
            decreases n - p,
        {
            let ts = transitive_strs(&feds[p]);
            let afs = affected_strs(&feds[p]);
            let ghost part = feds@[p as int];
            proof {
                assert(strs_view(ts@).len() == ts@.len());
                assert(part_transitive_ids(part).len() == part.transitive_incoming@.len());
                assert(strs_view(afs@).len() == afs@.len());
                assert(part_affected_ids(part).len() == part.affected_downstream@.len());
                assert forall|j: int| 0 <= j < part.transitive_incoming@.len() implies (names_federate(
                    feds@,
                    (#[trigger] part.transitive_incoming@[j]).0@,
                ) <==> fv.contains(strs_view(ts@)[j])) by {
                    assert(strs_view(ts@)[j] == part_transitive_ids(part)[j]);
                    lemma_names_federate(feds@, part.transitive_incoming@[j].0@);
                }
                assert forall|j: int| 0 <= j < part.affected_downstream@.len() implies (names_federate(
                    feds@,
                    (#[trigger] part.affected_downstream@[j])@,
                ) <==> fv.contains(strs_view(afs@)[j])) by {
                    assert(strs_view(afs@)[j] == part_affected_ids(part)[j]);
                    lemma_names_federate(feds@, part.affected_downstream@[j]@);
                }
            }
            if !all_listed(&ts, &fstrs) {
                proof {
                    let j = choose|j: int| 0 <= j < ts@.len() && !fv.contains(#[trigger] strs_view(ts@)[j]);
                    assert(!names_federate(feds@, part.transitive_incoming@[j].0@));
                    assert(!names_federate(parts.federates@, parts.federates@[p as int].transitive_incoming@[j].0@));
                }
                return false;
            }
            if !distinct_strs(&ts) || !all_listed(&afs, &fstrs) || !distinct_strs(&afs) {
                proof {
                    if !ids_distinct(strs_view(ts@)) {
                        assert(!ids_distinct(part_transitive_ids(parts.federates@[p as int])));
                    } else if ids_distinct(strs_view(afs@)) {
                        let j = choose|j: int| 0 <= j < afs@.len() && !fv.contains(#[trigger] strs_view(afs@)[j]);
                        assert(!names_federate(feds@, part.affected_downstream@[j]@));
                        assert(!names_federate(parts.federates@, parts.federates@[p as int].affected_downstream@[j]@));
                    } else {
                        assert(!ids_distinct(part_affected_ids(parts.federates@[p as int])));
                    }
                }
                return false;
            }
            p = p + 1;
        }
        true
    }

    /// The graph of `parts` when [`RtiGraph::from_lowered`] accepts them; nothing otherwise.
    pub fn try_from_lowered(parts: RtiGraphParts) -> (r: Option<Self>)
        ensures
            r is Some <==> parts_valid(parts),
            r matches Some(g) ==> {
                &&& g.wf()
                &&& g.fed_count() == parts.federates@.len()
                &&& g.ep_count() == parts.endpoints@.len()
                &&& g.fed_ids().to_set() == part_fed_ids(parts.federates@).to_set()
                &&& g.ep_ids().to_set() == part_ep_ids(parts.endpoints@).to_set()
                &&& forall|k: int| 0 <= k < g.fed_count() ==> #[trigger] federate_lowered(g, k, parts.federates@)
                &&& forall|e: int| 0 <= e < g.ep_count() ==> #[trigger] endpoint_lowered(g, e, parts.endpoints@)
            },
    {
        if RtiGraph::check_lowered(&parts) {
            Some(RtiGraph::from_lowered(parts))
        } else {
            None
        }
    }

    /// Number of Federates.
    pub closed spec fn fed_count(self) -> nat {
        self.federates@.len()
    }

    /// Number of endpoints.
    pub closed spec fn ep_count(self) -> nat {
        self.endpoints@.len()
    }

    /// Stable identity of the Federate with dense key `k`.
    pub closed spec fn fed_id(self, k: int) -> Seq<char> {
        self.federates@[k].id@
    }

    /// Stable identity of the endpoint with dense key `e`.
    pub closed spec fn ep_id(self, e: int) -> Seq<char> {
        self.endpoints@[e].id@
    }

    /// Source Federate key of endpoint `e`.
    pub closed spec fn ep_source(self, e: int) -> int {
        self.endpoints@[e].source as int
    }

    /// Target Federate key of endpoint `e`.
    pub closed spec fn ep_target(self, e: int) -> int {
        self.endpoints@[e].target as int
    }

    /// Logical delay of endpoint `e`.
    pub closed spec fn ep_delay(self, e: int) -> WireDelay {
        self.endpoints@[e].delay
    }

    /// Direct incoming dependencies of Federate `k`.
    pub closed spec fn incoming_of(self, k: int) -> Seq<IncomingDependency> {
        self.federates@[k].incoming@
    }

    /// Transitive incoming paths of Federate `k`.
    pub closed spec fn transitive_of(self, k: int) -> Seq<IncomingPath> {
        self.federates@[k].transitive_incoming@
    }

    /// Federates whose grants may change when Federate `k` advances.
    pub closed spec fn affected_of(self, k: int) -> Seq<usize> {
        self.federates@[k].affected_downstream@
    }

    /// The incoming dependency that endpoint `e` contributes to its target.
    pub open spec fn dependency_of(self, e: int) -> IncomingDependency {
        IncomingDependency {
            source: self.ep_source(e) as usize,
            endpoint: e as usize,
            delay: self.ep_delay(e),
        }
    }

    /// The Federate identities in key order.
    pub open spec fn fed_ids(self) -> Seq<Seq<char>> {
        Seq::new(self.fed_count(), |k: int| self.fed_id(k))
    }

    /// The endpoint identities in key order.
    pub open spec fn ep_ids(self) -> Seq<Seq<char>> {
        Seq::new(self.ep_count(), |e: int| self.ep_id(e))
    }

    /// Structural invariant of a compiled graph.
    pub open spec fn wf(self) -> bool {
        let n = self.fed_count();
        let m = self.ep_count();
        &&& ids_sorted(self.fed_ids())
        &&& ids_sorted(self.ep_ids())
        &&& forall|e: int|
            0 <= e < m ==> 0 <= #[trigger] self.ep_source(e) < n && 0 <= self.ep_target(e) < n
        &&& forall|k: int| 0 <= k < n ==> deps_sorted(#[trigger] self.incoming_of(k))
        &&& forall|k: int, j: int|
            0 <= k < n && 0 <= j < self.incoming_of(k).len() ==> {
                let d = #[trigger] self.incoming_of(k)[j];
                &&& d.endpoint < m
                &&& self.ep_target(d.endpoint as int) == k
                &&& self.ep_source(d.endpoint as int) == d.source
                &&& self.ep_delay(d.endpoint as int) == d.delay
            }
        &&& forall|e: int|
            0 <= e < m ==> self.incoming_of(#[trigger] self.ep_target(e)).contains(
                self.dependency_of(e),
            )
        &&& forall|k: int| 0 <= k < n ==> paths_sorted(#[trigger] self.transitive_of(k))
        &&& forall|k: int, j: int|
            0 <= k < n && 0 <= j < self.transitive_of(k).len() ==> (#[trigger] self.transitive_of(
                k,
            )[j]).source < n
        &&& forall|k: int| 0 <= k < n ==> keys_sorted(#[trigger] self.affected_of(k))
        &&& forall|k: int, j: int|
            0 <= k < n && 0 <= j < self.affected_of(k).len() ==> #[trigger] self.affected_of(k)[j]
                < n
    }

    /// Number of Federates.
    pub fn federate_count(&self) -> (n: usize)
        ensures
            n == self.fed_count(),
    {
        self.federates.len()
    }

    /// Number of endpoints.
    pub fn endpoint_count(&self) -> (m: usize)
        ensures
            m == self.ep_count(),
    {
        self.endpoints.len()
    }

    /// Stable identity of a Federate key.
    pub fn federate_id(&self, key: usize) -> (id: &FederateId)
        requires
            key < self.fed_count(),
        ensures
            id@ == self.fed_id(key as int),
    {
        &self.federates[key].id
    }

    /// Stable identity of an endpoint key.
    pub fn endpoint_id(&self, key: usize) -> (id: &EndpointId)
        requires
            key < self.ep_count(),
        ensures
            id@ == self.ep_id(key as int),
    {
        &self.endpoints[key].id
    }

    /// Source, target and delay of an endpoint key.
    pub fn endpoint(&self, key: usize) -> (r: (usize, usize, WireDelay))
        requires
            key < self.ep_count(),
        ensures
            r.0 == self.ep_source(key as int),
            r.1 == self.ep_target(key as int),
            r.2 == self.ep_delay(key as int),
    {
        let e = &self.endpoints[key];
        (e.source, e.target, e.delay)
    }

    /// Direct incoming dependencies of a Federate.
    pub fn incoming(&self, key: usize) -> (r: &Vec<IncomingDependency>)
        requires
            key < self.fed_count(),
        ensures
            r@ == self.incoming_of(key as int),
    {
        &self.federates[key].incoming
    }

    /// Transitive incoming paths of a Federate.
    pub fn transitive_incoming(&self, key: usize) -> (r: &Vec<IncomingPath>)
        requires
            key < self.fed_count(),
        ensures
            r@ == self.transitive_of(key as int),
    {
        &self.federates[key].transitive_incoming
    }

    /// Federates whose grants may change when this Federate advances.
    pub fn affected_downstream(&self, key: usize) -> (r: &Vec<usize>)
        requires
            key < self.fed_count(),
        ensures
            r@ == self.affected_of(key as int),
    {
        &self.federates[key].affected_downstream
    }

    /// Dense key of a stable Federate identity.
    pub fn federate_key(&self, id: &FederateId) -> (r: Option<usize>)
        ensures
            match r {
                Some(k) => k < self.fed_count() && self.fed_id(k as int) == id@,
                None => forall|k: int| 0 <= k < self.fed_count() ==> self.fed_id(k) != id@,
            },
    {
        let mut k: usize = 0;
        while k < self.federates.len()
            invariant
                k <= self.federates@.len(),
                forall|j: int| 0 <= j < k ==> self.federates@[j].id@ != id@,
            decreases self.federates@.len() - k,
        {
            if self.federates[k].id.same(id) {
                return Some(k);
            }
            k = k + 1;
        }
        None
    }

    /// Dense key of a stable endpoint identity.
    pub fn endpoint_key(&self, id: &EndpointId) -> (r: Option<usize>)
        ensures
            match r {
                Some(e) => e < self.ep_count() && self.ep_id(e as int) == id@,
                None => forall|e: int| 0 <= e < self.ep_count() ==> self.ep_id(e) != id@,
            },
    {
        let mut e: usize = 0;
        while e < self.endpoints.len()
            invariant
                e <= self.endpoints@.len(),
                forall|j: int| 0 <= j < e ==> self.endpoints@[j].id@ != id@,
            decreases self.endpoints@.len() - e,
        {
            if self.endpoints[e].id.same(id) {
                return Some(e);
            }
            e = e + 1;
        }
        None
    }

    /// The Federate identities in key order, which is their lexical order.
    pub fn federate_ids(&self) -> (v: Vec<FederateId>)
        ensures
            v@.len() == self.fed_count(),
            forall|k: int| 0 <= k < v@.len() ==> (#[trigger] v@[k])@ == self.fed_id(k),
    {
        let mut v: Vec<FederateId> = Vec::new();
        let mut k: usize = 0;
        while k < self.federates.len()
            invariant
                k <= self.federates@.len(),
                v@.len() == k,
                forall|j: int| 0 <= j < k ==> (#[trigger] v@[j])@ == self.fed_id(j),
            decreases self.federates@.len() - k,
        {
            v.push(self.federates[k].id.duplicate());
            k = k + 1;
        }
        v
    }

    /// The endpoint identities in key order, which is their lexical order.
    pub fn endpoint_ids(&self) -> (v: Vec<EndpointId>)
        ensures
            v@.len() == self.ep_count(),
            forall|e: int| 0 <= e < v@.len() ==> (#[trigger] v@[e])@ == self.ep_id(e),
    {
        let mut v: Vec<EndpointId> = Vec::new();
        let mut e: usize = 0;
        while e < self.endpoints.len()
            invariant
                e <= self.endpoints@.len(),
                v@.len() == e,
                forall|j: int| 0 <= j < e ==> (#[trigger] v@[j])@ == self.ep_id(j),
            decreases self.endpoints@.len() - e,
        {
            v.push(self.endpoints[e].id.duplicate());
            e = e + 1;
        }
        v
    }

    /// Every endpoint with its source Federate, target Federate and delay, in endpoint key order.
    pub fn endpoint_routes(&self) -> (v: Vec<(EndpointId, FederateId, FederateId, WireDelay)>)
        requires
            self.wf(),
        ensures
            v@.len() == self.ep_count(),
            forall|e: int|
                0 <= e < v@.len() ==> {
                    &&& (#[trigger] v@[e]).0@ == self.ep_id(e)
                    &&& v@[e].1@ == self.fed_id(self.ep_source(e))
                    &&& v@[e].2@ == self.fed_id(self.ep_target(e))
                    &&& v@[e].3 == self.ep_delay(e)
                },
    {
        let mut v: Vec<(EndpointId, FederateId, FederateId, WireDelay)> = Vec::new();
        let mut e: usize = 0;
        while e < self.endpoints.len()
            invariant
                self.wf(),
                e <= self.endpoints@.len(),
                v@.len() == e,
                forall|j: int|
                    0 <= j < e ==> {
                        &&& (#[trigger] v@[j]).0@ == self.ep_id(j)
                        &&& v@[j].1@ == self.fed_id(self.ep_source(j))
                        &&& v@[j].2@ == self.fed_id(self.ep_target(j))
                        &&& v@[j].3 == self.ep_delay(j)
                    },
            decreases self.endpoints@.len() - e,
        {
            let ep = &self.endpoints[e];
            assert(0 <= self.ep_source(e as int) < self.fed_count());
            let source = self.federates[ep.source].id.duplicate();
            let target = self.federates[ep.target].id.duplicate();
            v.push((ep.id.duplicate(), source, target, ep.delay));
            e = e + 1;
        }
        v
    }

    /// Whether endpoint `endpoint` routes `source` to `target`.
    pub fn contains_route(&self, source: &FederateId, target: &FederateId, endpoint: &EndpointId) -> (b: bool)
        requires
            self.wf(),
        ensures
            b == exists|e: int|
                0 <= e < self.ep_count() && #[trigger] self.ep_id(e) == endpoint@ && self.fed_id(
                    self.ep_source(e),
                ) == source@ && self.fed_id(self.ep_target(e)) == target@,
    {
        match self.endpoint_key(endpoint) {
            None => false,
            Some(e) => {
                proof {
                    assert forall|x: int| 0 <= x < self.ep_count() && #[trigger] self.ep_id(x) == endpoint@ implies x == e by {
                        if x != e {
                            assert(self.ep_ids()[x] == self.ep_id(x));
                            assert(self.ep_ids()[e as int] == self.ep_id(e as int));
                            crate::ids::lemma_seq_lt_order(self.ep_id(x), self.ep_id(x), self.ep_id(x));
                            if x < e {
                                assert(seq_lt(self.ep_ids()[x], self.ep_ids()[e as int]));
                            } else {
                                assert(seq_lt(self.ep_ids()[e as int], self.ep_ids()[x]));
                            }
                        }
                    }
                }
                let ep = &self.endpoints[e];
                assert(0 <= self.ep_source(e as int) < self.fed_count());
                self.federates[ep.source].id.same(source) && self.federates[ep.target].id.same(target)
            },
        }
    }

    /// Return the logical delay of a stable endpoint identity.
    pub fn endpoint_delay(&self, id: &EndpointId) -> (r: Option<WireDelay>)
        ensures
            match r {
                Some(d) => exists|e: int|
                    0 <= e < self.ep_count() && self.ep_id(e) == id@ && self.ep_delay(e) == d,
                None => forall|e: int| 0 <= e < self.ep_count() ==> self.ep_id(e) != id@,
            },
    {
        match self.endpoint_key(id) {
            Some(e) => Some(self.endpoints[e].delay),
            None => None,
        }
    }
}

} // verus!
