//! Validation of the runtime ownership hierarchy of a lowered Federation: every RTI graph
//! Federate owns a non-empty set of runtime Enclaves and one protocol bridge, and nothing is
//! owned by a Federate outside the graph.
use vstd::prelude::*;
use vstd::string::StringExecFns;

use crate::ids::FederateId;
use crate::rti::graph::RtiGraph;

verus! {

/// Error produced while assembling the final runtime Federation hierarchy.
#[derive(Debug, Clone, PartialEq, Eq)]
pub enum RuntimeFederationError {
    /// A lowered Federate had no runtime Enclave map.
    MissingRuntime(FederateId),
    /// A lowered Federate had an empty runtime Enclave map.
    EmptyRuntime(FederateId),
    /// A lowered Federate had no protocol bridge.
    MissingBridge(FederateId),
    /// Lowered runtime state referenced a Federate absent from the RTI graph.
    UnknownFederate(FederateId),
}

/// Mathematical view of a [`RuntimeFederationError`].
pub enum HierarchyErrorView {
    MissingRuntime(Seq<char>),
    EmptyRuntime(Seq<char>),
    MissingBridge(Seq<char>),
    UnknownFederate(Seq<char>),
}

impl View for RuntimeFederationError {
    type V = HierarchyErrorView;

    open spec fn view(&self) -> HierarchyErrorView {
        match self {
            RuntimeFederationError::MissingRuntime(id) => HierarchyErrorView::MissingRuntime(id@),
            RuntimeFederationError::EmptyRuntime(id) => HierarchyErrorView::EmptyRuntime(id@),
            RuntimeFederationError::MissingBridge(id) => HierarchyErrorView::MissingBridge(id@),
            RuntimeFederationError::UnknownFederate(id) => HierarchyErrorView::UnknownFederate(id@),
        }
    }
}

/// How a hierarchy error reads.
pub open spec fn hierarchy_error_text(e: HierarchyErrorView) -> Seq<char> {
    match e {
        HierarchyErrorView::MissingRuntime(id) => "Federate '"@ + id + "' has no owned runtime Enclaves"@,
        HierarchyErrorView::EmptyRuntime(id) => "Federate '"@ + id + "' has an empty runtime Enclave map"@,
        HierarchyErrorView::MissingBridge(id) => "Federate '"@ + id + "' has no runtime protocol bridge"@,
        HierarchyErrorView::UnknownFederate(id) => "lowered runtime state references unknown Federate '"@
            + id + "'"@,
    }
}

impl RuntimeFederationError {
    /// How this error reads.
    pub fn message(&self) -> (s: String)
        ensures
            s@ == hierarchy_error_text(self@),
    {
        let (prefix, id, suffix) = match self {
            RuntimeFederationError::MissingRuntime(id) => ("Federate '", id, "' has no owned runtime Enclaves"),
            RuntimeFederationError::EmptyRuntime(id) => ("Federate '", id, "' has an empty runtime Enclave map"),
            RuntimeFederationError::MissingBridge(id) => ("Federate '", id, "' has no runtime protocol bridge"),
            RuntimeFederationError::UnknownFederate(id) => ("lowered runtime state references unknown Federate '", id, "'"),
        };
        let mut s = prefix.to_owned();
        s.append(id.as_str());
        s.append(suffix);
        s
    }
}

/// The Enclave count listed first for `id` among the first `n` runtimes.
pub open spec fn enclave_count_upto(runtimes: Seq<(Seq<char>, usize)>, id: Seq<char>, n: int) -> Option<usize>
    decreases n,
{
    if n <= 0 {
        None
    } else {
        match enclave_count_upto(runtimes, id, n - 1) {
            Some(c) => Some(c),
            None => if runtimes[n - 1].0 == id {
                Some(runtimes[n - 1].1)
            } else {
                None
            },
        }
    }
}

/// The Enclave count of `id`'s runtime, if it has one.
pub open spec fn enclave_count(runtimes: Seq<(Seq<char>, usize)>, id: Seq<char>) -> Option<usize> {
    enclave_count_upto(runtimes, id, runtimes.len() as int)
}

/// What is wrong with the graph Federate `id`, if anything: its runtime is checked before its
/// bridge.
pub open spec fn federate_problem(runtimes: Seq<(Seq<char>, usize)>, bridges: Seq<Seq<char>>, id: Seq<
    char,
>) -> Option<HierarchyErrorView> {
    match enclave_count(runtimes, id) {
        None => Some(HierarchyErrorView::MissingRuntime(id)),
        Some(c) => if c == 0 {
            Some(HierarchyErrorView::EmptyRuntime(id))
        } else if !bridges.contains(id) {
            Some(HierarchyErrorView::MissingBridge(id))
        } else {
            None
        },
    }
}

/// The first problem among the first `n` graph Federates.
pub open spec fn graph_problem_upto(
    graph: Seq<Seq<char>>,
    runtimes: Seq<(Seq<char>, usize)>,
    bridges: Seq<Seq<char>>,
    n: int,
) -> Option<HierarchyErrorView>
    decreases n,
{
    if n <= 0 {
        None
    } else {
        match graph_problem_upto(graph, runtimes, bridges, n - 1) {
            Some(e) => Some(e),
            None => federate_problem(runtimes, bridges, graph[n - 1]),
        }
    }
}

/// The first of the first `n` ids that the graph does not list.
pub open spec fn first_unknown_upto(graph: Seq<Seq<char>>, ids: Seq<Seq<char>>, n: int) -> Option<Seq<char>>
    decreases n,
{
    if n <= 0 {
        None
    } else {
        match first_unknown_upto(graph, ids, n - 1) {
            Some(id) => Some(id),
            None => if graph.contains(ids[n - 1]) {
                None
            } else {
                Some(ids[n - 1])
            },
        }
    }
}

/// The outcome of validating runtimes and bridges, listed in map order, against the graph's
/// Federates: first each graph Federate in order, then the first unknown runtime, then the
/// first unknown bridge.
pub open spec fn spec_check_hierarchy(
    graph: Seq<Seq<char>>,
    runtimes: Seq<(Seq<char>, usize)>,
    bridges: Seq<Seq<char>>,
) -> Option<HierarchyErrorView> {
    match graph_problem_upto(graph, runtimes, bridges, graph.len() as int) {
        Some(e) => Some(e),
        None => {
            let runtime_ids = runtimes.map_values(|r: (Seq<char>, usize)| r.0);
            match first_unknown_upto(graph, runtime_ids, runtime_ids.len() as int) {
                Some(id) => Some(HierarchyErrorView::UnknownFederate(id)),
                None => match first_unknown_upto(graph, bridges, bridges.len() as int) {
                    Some(id) => Some(HierarchyErrorView::UnknownFederate(id)),
                    None => None,
                },
            }
        },
    }
}

/// The views of listed runtimes.
pub open spec fn runtimes_view(runtimes: Seq<(FederateId, usize)>) -> Seq<(Seq<char>, usize)> {
    runtimes.map_values(|r: (FederateId, usize)| (r.0@, r.1))
}

/// The views of listed bridges.
pub open spec fn bridges_view(bridges: Seq<FederateId>) -> Seq<Seq<char>> {
    bridges.map_values(|b: FederateId| b@)
}

proof fn lemma_problem_stays(
    graph: Seq<Seq<char>>,
    runtimes: Seq<(Seq<char>, usize)>,
    bridges: Seq<Seq<char>>,
    k: int,
    n: int,
)
    requires
        0 <= k <= n,
        graph_problem_upto(graph, runtimes, bridges, k) is Some,
    ensures
        graph_problem_upto(graph, runtimes, bridges, n) == graph_problem_upto(graph, runtimes, bridges, k),
    decreases n - k,
{
    if n > k {
        lemma_problem_stays(graph, runtimes, bridges, k, n - 1);
    }
}

proof fn lemma_unknown_stays(graph: Seq<Seq<char>>, ids: Seq<Seq<char>>, k: int, n: int)
    requires
        0 <= k <= n,
        first_unknown_upto(graph, ids, k) is Some,
    ensures
        first_unknown_upto(graph, ids, n) == first_unknown_upto(graph, ids, k),
    decreases n - k,
{
    if n > k {
        lemma_unknown_stays(graph, ids, k, n - 1);
    }
}

fn enclave_count_of(runtimes: &Vec<(FederateId, usize)>, id: &FederateId) -> (r: Option<usize>)
    ensures
        r == enclave_count(runtimes_view(runtimes@), id@),
{
    let ghost rs = runtimes_view(runtimes@);
    let mut i: usize = 0;
    while i < runtimes.len()
        invariant
            rs == runtimes_view(runtimes@),
            i <= runtimes@.len(),
            enclave_count_upto(rs, id@, i as int) is None,
        decreases runtimes@.len() - i,
    {
        if runtimes[i].0.same(id) {
            proof {
                lemma_count_found(rs, id@, i as int);
            }
            return Some(runtimes[i].1);
        }
        i = i + 1;
    }
    None
}

proof fn lemma_count_found(runtimes: Seq<(Seq<char>, usize)>, id: Seq<char>, i: int)
    requires
        0 <= i < runtimes.len(),
        enclave_count_upto(runtimes, id, i) is None,
        runtimes[i].0 == id,
    ensures
        enclave_count(runtimes, id) == Some(runtimes[i].1),
    decreases runtimes.len() - i,
{
    lemma_count_found_at(runtimes, id, i, runtimes.len() as int);
}

proof fn lemma_count_found_at(runtimes: Seq<(Seq<char>, usize)>, id: Seq<char>, i: int, n: int)
    requires
        0 <= i < n <= runtimes.len(),
        enclave_count_upto(runtimes, id, i) is None,
        runtimes[i].0 == id,
    ensures
        enclave_count_upto(runtimes, id, n) == Some(runtimes[i].1),
    decreases n,
{
    if n > i + 1 {
        lemma_count_found_at(runtimes, id, i, n - 1);
    }
}

fn bridge_listed(bridges: &Vec<FederateId>, id: &FederateId) -> (b: bool)
    ensures
        b == bridges_view(bridges@).contains(id@),
{
    let ghost bs = bridges_view(bridges@);
    let mut i: usize = 0;
    while i < bridges.len()
        invariant
            bs == bridges_view(bridges@),
            i <= bridges@.len(),
            forall|j: int| 0 <= j < i ==> bs[j] != id@,
        decreases bridges@.len() - i,
    {
        if bridges[i].same(id) {
            assert(bs[i as int] == id@);
            return true;
        }
        i = i + 1;
    }
    false
}

fn graph_lists(graph: &RtiGraph, id: &FederateId) -> (b: bool)
    requires
        graph.wf(),
    ensures
        b == graph.fed_ids().contains(id@),
{
    let n = graph.federate_count();
    let mut k: usize = 0;
    while k < n
        invariant
            graph.wf(),
            n == graph.fed_count(),
            k <= n,
            forall|j: int| 0 <= j < k ==> graph.fed_ids()[j] != id@,
        decreases n - k,
    {
        if graph.federate_id(k).same(id) {
            assert(graph.fed_ids()[k as int] == id@);
            return true;
        }
        k = k + 1;
    }
    false
}

/// Validates the runtimes (Federate and Enclave count, in map order) and bridges (in map
/// order) a lowering produced against the RTI graph (see [`spec_check_hierarchy`]).
pub fn check_lowered_hierarchy(
    graph: &RtiGraph,
    runtimes: &Vec<(FederateId, usize)>,
    bridges: &Vec<FederateId>,
) -> (r: Result<(), RuntimeFederationError>)
    requires
        graph.wf(),
    ensures
        match spec_check_hierarchy(graph.fed_ids(), runtimes_view(runtimes@), bridges_view(bridges@)) {
            Some(e) => r is Err && r->Err_0@ == e,
            None => r is Ok,
        },
{
    let ghost g = graph.fed_ids();
    let ghost rs = runtimes_view(runtimes@);
    let ghost bs = bridges_view(bridges@);
    let n = graph.federate_count();
    let mut k: usize = 0;
    while k < n
        invariant
            graph.wf(),
            g == graph.fed_ids(),
            rs == runtimes_view(runtimes@),
            bs == bridges_view(bridges@),
            n == graph.fed_count(),
            n == g.len(),
            k <= n,
            graph_problem_upto(g, rs, bs, k as int) is None,
        decreases n - k,
    {
        let id = graph.federate_id(k);
        match enclave_count_of(runtimes, id) {
            None => {
                proof {
                    lemma_problem_stays(g, rs, bs, k + 1, n as int);
                }
                return Err(RuntimeFederationError::MissingRuntime(id.duplicate()));
            },
            Some(count) => {
                if count == 0 {
                    proof {
                        lemma_problem_stays(g, rs, bs, k + 1, n as int);
                    }
                    return Err(RuntimeFederationError::EmptyRuntime(id.duplicate()));
                }
            },
        }
        if !bridge_listed(bridges, id) {
            proof {
                lemma_problem_stays(g, rs, bs, k + 1, n as int);
            }
            return Err(RuntimeFederationError::MissingBridge(id.duplicate()));
        }
        k = k + 1;
    }
    let ghost runtime_ids = rs.map_values(|r: (Seq<char>, usize)| r.0);
    let mut i: usize = 0;
    while i < runtimes.len()
        invariant
            graph.wf(),
            g == graph.fed_ids(),
            rs == runtimes_view(runtimes@),
            runtime_ids == rs.map_values(|r: (Seq<char>, usize)| r.0),
            bs == bridges_view(bridges@),
            graph_problem_upto(g, rs, bs, g.len() as int) is None,
            i <= runtimes@.len(),
            first_unknown_upto(g, runtime_ids, i as int) is None,
        decreases runtimes@.len() - i,
    {
        let id = &runtimes[i].0;
        assert(runtime_ids[i as int] == id@);
        if !graph_lists(graph, id) {
            proof {
                lemma_unknown_stays(g, runtime_ids, i + 1, runtime_ids.len() as int);
            }
            return Err(RuntimeFederationError::UnknownFederate(id.duplicate()));
        }
        i = i + 1;
    }
    let mut j: usize = 0;
    while j < bridges.len()
        invariant
            graph.wf(),
            g == graph.fed_ids(),
            bs == bridges_view(bridges@),
            rs == runtimes_view(runtimes@),
            runtime_ids == rs.map_values(|r: (Seq<char>, usize)| r.0),
            graph_problem_upto(g, rs, bs, g.len() as int) is None,
            first_unknown_upto(g, runtime_ids, runtime_ids.len() as int) is None,
            j <= bridges@.len(),
            first_unknown_upto(g, bs, j as int) is None,
        decreases bridges@.len() - j,
    {
        let id = &bridges[j];
        assert(bs[j as int] == id@);
        if !graph_lists(graph, id) {
            proof {
                lemma_unknown_stays(g, bs, j + 1, bs.len() as int);
            }
            return Err(RuntimeFederationError::UnknownFederate(id.duplicate()));
        }
        j = j + 1;
    }
    Ok(())
}

/// Whether graph Federate `id` owns a non-empty runtime and a bridge.
pub open spec fn owns_runtime_and_bridge(
    runtimes: Seq<(Seq<char>, usize)>,
    bridges: Seq<Seq<char>>,
    id: Seq<char>,
) -> bool {
    &&& enclave_count(runtimes, id) is Some
    &&& enclave_count(runtimes, id)->0 > 0
    &&& bridges.contains(id)
}

proof fn lemma_no_problem_upto(
    graph: Seq<Seq<char>>,
    runtimes: Seq<(Seq<char>, usize)>,
    bridges: Seq<Seq<char>>,
    n: int,
)
    requires
        0 <= n <= graph.len(),
    ensures
        graph_problem_upto(graph, runtimes, bridges, n) is None <==> forall|i: int|
            0 <= i < n ==> owns_runtime_and_bridge(runtimes, bridges, #[trigger] graph[i]),
    decreases n,
{
    if n > 0 {
        lemma_no_problem_upto(graph, runtimes, bridges, n - 1);
    }
}

proof fn lemma_no_unknown_upto(graph: Seq<Seq<char>>, ids: Seq<Seq<char>>, n: int)
    requires
        0 <= n <= ids.len(),
    ensures
        first_unknown_upto(graph, ids, n) is None <==> forall|i: int|
            0 <= i < n ==> graph.contains(#[trigger] ids[i]),
    decreases n,
{
    if n > 0 {
        lemma_no_unknown_upto(graph, ids, n - 1);
    }
}

/// A lowered hierarchy is accepted exactly when every graph Federate owns a non-empty runtime
/// and a bridge, and every listed runtime and bridge belongs to a graph Federate.
pub proof fn lemma_hierarchy_accepts_exact_ownership(
    graph: Seq<Seq<char>>,
    runtimes: Seq<(Seq<char>, usize)>,
    bridges: Seq<Seq<char>>,
)
    ensures
        spec_check_hierarchy(graph, runtimes, bridges) is None <==> {
            &&& forall|i: int|
                0 <= i < graph.len() ==> owns_runtime_and_bridge(runtimes, bridges, #[trigger] graph[i])
            &&& forall|i: int| 0 <= i < runtimes.len() ==> graph.contains(#[trigger] runtimes[i].0)
            &&& forall|j: int| 0 <= j < bridges.len() ==> graph.contains(#[trigger] bridges[j])
        },
{
    let runtime_ids = runtimes.map_values(|r: (Seq<char>, usize)| r.0);
    lemma_no_problem_upto(graph, runtimes, bridges, graph.len() as int);
    lemma_no_unknown_upto(graph, runtime_ids, runtime_ids.len() as int);
    lemma_no_unknown_upto(graph, bridges, bridges.len() as int);
    assert forall|i: int| 0 <= i < runtimes.len() implies runtime_ids[i] == #[trigger] runtimes[i].0 by {
    }
}

} // verus!
