//! The per-Federate connection bundles a runtime lowering prebuilds: which Federates have a
//! protocol connection, and the route metadata of every federated endpoint.
use vstd::prelude::*;
use vstd::string::StringExecFns;

use crate::client::{
    endpoints_distinct, find_route, first_repeat_upto, lemma_first_repeat_upto, repeats_earlier, route_index,
    routes_view, ClientErrorView, FederateClientError, FederateClientRoute, RouteView,
};
use crate::ids::{id_views, ids_distinct, ids_sorted, insert_sorted_id, EndpointId, FederateId};

verus! {

/// The first of the first `n` ids that repeats an earlier one.
pub open spec fn first_repeated_id_upto(ids: Seq<Seq<char>>, n: int) -> Option<int>
    decreases n,
{
    if n <= 0 {
        None
    } else {
        match first_repeated_id_upto(ids, n - 1) {
            Some(i) => Some(i),
            None => if ids.subrange(0, n - 1).contains(ids[n - 1]) {
                Some(n - 1)
            } else {
                None
            },
        }
    }
}

/// What is wrong with route `i` among `routes` over the Federates `feds`, if anything: its
/// endpoint is new, and its source and target have connections.
pub open spec fn route_problem(feds: Seq<Seq<char>>, routes: Seq<RouteView>, i: int) -> Option<ClientErrorView> {
    let r = routes[i];
    if repeats_earlier(routes, i) {
        Some(ClientErrorView::DuplicateRoute(r.endpoint))
    } else if !feds.contains(r.source) {
        Some(
            ClientErrorView::Protocol(
                "route for endpoint '"@ + r.endpoint + "' references source federate '"@ + r.source
                    + "' without a prebuilt runtime connection"@,
            ),
        )
    } else if !feds.contains(r.target) {
        Some(
            ClientErrorView::Protocol(
                "route for endpoint '"@ + r.endpoint + "' references target federate '"@ + r.target
                    + "' without a prebuilt runtime connection"@,
            ),
        )
    } else {
        None
    }
}

/// The first problem among the first `n` routes.
pub open spec fn routes_problem_upto(feds: Seq<Seq<char>>, routes: Seq<RouteView>, n: int) -> Option<
    ClientErrorView,
>
    decreases n,
{
    if n <= 0 {
        None
    } else {
        match routes_problem_upto(feds, routes, n - 1) {
            Some(e) => Some(e),
            None => route_problem(feds, routes, n - 1),
        }
    }
}

/// What is wrong with the Federates and routes given to a lowering, if anything: a Federate
/// listed twice, else the first route problem.
pub open spec fn connections_problem(feds: Seq<Seq<char>>, routes: Seq<RouteView>) -> Option<ClientErrorView> {
    match first_repeated_id_upto(feds, feds.len() as int) {
        Some(i) => Some(
            ClientErrorView::Protocol("duplicate prebuilt runtime connection for '"@ + feds[i] + "'"@),
        ),
        None => routes_problem_upto(feds, routes, routes.len() as int),
    }
}

/// The routes among the first `n` that target `id`, in order.
pub open spec fn targeting_upto(routes: Seq<RouteView>, id: Seq<char>, n: int) -> Seq<RouteView>
    decreases n,
{
    if n <= 0 {
        Seq::empty()
    } else if routes[n - 1].target == id {
        targeting_upto(routes, id, n - 1).push(routes[n - 1])
    } else {
        targeting_upto(routes, id, n - 1)
    }
}

proof fn lemma_first_repeated_id_stays(ids: Seq<Seq<char>>, a: int, b: int)
    requires
        a <= b,
        first_repeated_id_upto(ids, a) is Some,
    ensures
        first_repeated_id_upto(ids, b) == first_repeated_id_upto(ids, a),
    decreases b - a,
{
    if a < b {
        lemma_first_repeated_id_stays(ids, a, b - 1);
    }
}

proof fn lemma_routes_problem_stays(feds: Seq<Seq<char>>, routes: Seq<RouteView>, a: int, b: int)
    requires
        a <= b,
        routes_problem_upto(feds, routes, a) is Some,
    ensures
        routes_problem_upto(feds, routes, b) == routes_problem_upto(feds, routes, a),
    decreases b - a,
{
    if a < b {
        lemma_routes_problem_stays(feds, routes, a, b - 1);
    }
}

proof fn lemma_no_routes_problem(feds: Seq<Seq<char>>, routes: Seq<RouteView>, n: int)
    requires
        0 <= n <= routes.len(),
        routes_problem_upto(feds, routes, n) is None,
    ensures
        first_repeat_upto(routes, n) is None,
        forall|i: int| 0 <= i < n ==> feds.contains(#[trigger] routes[i].source) && feds.contains(routes[i].target),
    decreases n,
{
    if n > 0 {
        lemma_no_routes_problem(feds, routes, n - 1);
    }
}

proof fn lemma_targeting_from(routes: Seq<RouteView>, id: Seq<char>, n: int)
    requires
        0 <= n <= routes.len(),
    ensures
        forall|x: int|
            0 <= x < targeting_upto(routes, id, n).len() ==> exists|k: int|
                0 <= k < n && #[trigger] targeting_upto(routes, id, n)[x] == routes[k],
    decreases n,
{
    if n > 0 {
        lemma_targeting_from(routes, id, n - 1);
        let prev = targeting_upto(routes, id, n - 1);
        let cur = targeting_upto(routes, id, n);
        assert forall|x: int| 0 <= x < cur.len() implies exists|k: int| 0 <= k < n && #[trigger] cur[x] == routes[k] by {
            if x < prev.len() {
                assert(cur[x] == prev[x]);
                let k = choose|k: int| 0 <= k < n - 1 && #[trigger] prev[x] == routes[k];
                assert(cur[x] == routes[k]);
            } else {
                assert(cur[x] == routes[n - 1]);
            }
        }
    }
}

proof fn lemma_targeting_distinct(routes: Seq<RouteView>, id: Seq<char>, n: int)
    requires
        0 <= n <= routes.len(),
        endpoints_distinct(routes),
    ensures
        endpoints_distinct(targeting_upto(routes, id, n)),
    decreases n,
{
    if n > 0 {
        lemma_targeting_distinct(routes, id, n - 1);
        lemma_targeting_from(routes, id, n - 1);
        let prev = targeting_upto(routes, id, n - 1);
        let cur = targeting_upto(routes, id, n);
        if routes[n - 1].target == id {
            assert forall|a: int, b: int|
                0 <= a < cur.len() && 0 <= b < cur.len() && a != b implies #[trigger] cur[a].endpoint
                != #[trigger] cur[b].endpoint by {
                if a < prev.len() && b < prev.len() {
                    assert(cur[a] == prev[a] && cur[b] == prev[b]);
                } else if a < prev.len() {
                    assert(cur[a] == prev[a]);
                    let k = choose|k: int| 0 <= k < n - 1 && #[trigger] prev[a] == routes[k];
                    assert(routes[k].endpoint != routes[n - 1].endpoint);
                } else if b < prev.len() {
                    assert(cur[b] == prev[b]);
                    let k = choose|k: int| 0 <= k < n - 1 && #[trigger] prev[b] == routes[k];
                    assert(routes[k].endpoint != routes[n - 1].endpoint);
                }
            }
        }
    }
}

/// The routes a lowering hands to one Federate's protocol client never repeat an endpoint, so
/// the client's own route check accepts them.
pub proof fn lemma_served_routes_are_accepted(c: ConnectionsView, id: Seq<char>)
    requires
        endpoints_distinct(c.routes),
    ensures
        ({
            let served = targeting_upto(c.routes, id, c.routes.len() as int);
            &&& endpoints_distinct(served)
            &&& first_repeat_upto(served, served.len() as int) is None
        }),
{
    let served = targeting_upto(c.routes, id, c.routes.len() as int);
    lemma_targeting_distinct(c.routes, id, c.routes.len() as int);
    lemma_first_repeat_upto(served, served.len() as int);
}

proof fn lemma_find_route_none(routes: Seq<RouteView>, endpoint: Seq<char>)
    requires
        find_route(routes, endpoint) is None,
    ensures
        forall|i: int| 0 <= i < routes.len() ==> #[trigger] routes[i].endpoint != endpoint,
    decreases routes.len(),
{
    if routes.len() > 0 {
        lemma_find_route_none(routes.drop_first(), endpoint);
        assert forall|i: int| 0 <= i < routes.len() implies #[trigger] routes[i].endpoint != endpoint by {
            if i > 0 {
                assert(routes.drop_first()[i - 1] == routes[i]);
            }
        }
    }
}

proof fn lemma_find_route_names(routes: Seq<RouteView>, endpoint: Seq<char>)
    ensures
        find_route(routes, endpoint) matches Some(r) ==> r.endpoint == endpoint,
    decreases routes.len(),
{
    if routes.len() > 0 {
        lemma_find_route_names(routes.drop_first(), endpoint);
    }
}

proof fn lemma_find_route_unique(routes: Seq<RouteView>, endpoint: Seq<char>, k: int)
    requires
        endpoints_distinct(routes),
        0 <= k < routes.len(),
        routes[k].endpoint == endpoint,
    ensures
        forall|i: int| 0 <= i < routes.len() && #[trigger] routes[i].endpoint == endpoint ==> i == k,
{
}

proof fn lemma_repeated_id_upto(ids: Seq<Seq<char>>, n: int)
    requires
        0 <= n <= ids.len(),
    ensures
        first_repeated_id_upto(ids, n) is None <==> forall|i: int, j: int| 0 <= i < j < n ==> ids[i] != ids[j],
    decreases n,
{
    if n > 0 {
        lemma_repeated_id_upto(ids, n - 1);
        if first_repeated_id_upto(ids, n - 1) is None {
            if ids.subrange(0, n - 1).contains(ids[n - 1]) {
                let k = choose|k: int| 0 <= k < n - 1 && #[trigger] ids.subrange(0, n - 1)[k] == ids[n - 1];
                assert(ids[k] == ids[n - 1]);
            } else {
                assert forall|i: int, j: int| 0 <= i < j < n implies ids[i] != ids[j] by {
                    if j == n - 1 && ids[i] == ids[j] {
                        assert(ids.subrange(0, n - 1)[i] == ids[n - 1]);
                    }
                }
            }
        }
    }
}

proof fn lemma_routes_problem_iff(feds: Seq<Seq<char>>, routes: Seq<RouteView>, n: int)
    requires
        0 <= n <= routes.len(),
    ensures
        routes_problem_upto(feds, routes, n) is None <==> {
            &&& first_repeat_upto(routes, n) is None
            &&& forall|i: int| 0 <= i < n ==> feds.contains(#[trigger] routes[i].source) && feds.contains(routes[i].target)
        },
    decreases n,
{
    if n > 0 {
        lemma_routes_problem_iff(feds, routes, n - 1);
        if routes_problem_upto(feds, routes, n) is None {
            lemma_no_routes_problem(feds, routes, n);
        }
    }
}

/// Law of the prebuilt connections: they are refused exactly when a Federate is listed twice,
/// two routes name one endpoint, or a route's source or target has no connection.
pub proof fn lemma_connections_accept_exactly(feds: Seq<Seq<char>>, routes: Seq<RouteView>)
    ensures
        connections_problem(feds, routes) is None <==> {
            &&& ids_distinct(feds)
            &&& endpoints_distinct(routes)
            &&& forall|i: int|
                0 <= i < routes.len() ==> feds.contains(#[trigger] routes[i].source) && feds.contains(
                    routes[i].target,
                )
        },
{
    lemma_repeated_id_upto(feds, feds.len() as int);
    lemma_routes_problem_iff(feds, routes, routes.len() as int);
    lemma_first_repeat_upto(routes, routes.len() as int);
    if endpoints_distinct(routes) {
        assert forall|i: int, j: int| 0 <= j < i < routes.len() implies #[trigger] routes[j].endpoint
            != #[trigger] routes[i].endpoint by {
            assert(routes[i].endpoint != routes[j].endpoint);
        }
    }
    if first_repeat_upto(routes, routes.len() as int) is None {
        assert forall|a: int, b: int|
            0 <= a < routes.len() && 0 <= b < routes.len() && a != b implies #[trigger] routes[a].endpoint
            != #[trigger] routes[b].endpoint by {
            if a < b {
                assert(routes[a].endpoint != routes[b].endpoint);
            } else {
                assert(routes[b].endpoint != routes[a].endpoint);
            }
        }
    }
}

/// Mathematical view of the prebuilt connections.
pub struct ConnectionsView {
    /// The Federates with a connection, in lexical order.
    pub federates: Seq<Seq<char>>,
    /// The routes of every federated endpoint, in the order they were given.
    pub routes: Seq<RouteView>,
    /// Whether each route has its inbound runtime binding.
    pub bound: Seq<bool>,
}

/// Whether route `i` is the inbound route of `federate` named `endpoint`.
pub open spec fn serves(routes: Seq<RouteView>, federate: Seq<char>, endpoint: Seq<char>, i: int) -> bool {
    0 <= i < routes.len() && routes[i].endpoint == endpoint && routes[i].target == federate
}

/// Complete per-Federate connection bundles created during runtime lowering.
#[derive(Debug)]
pub struct FederatedRuntimeConnections {
    federates: Vec<FederateId>,
    routes: Vec<FederateClientRoute>,
    bound: Vec<bool>,
}

impl View for FederatedRuntimeConnections {
    type V = ConnectionsView;

    closed spec fn view(&self) -> ConnectionsView {
        ConnectionsView {
            federates: id_views(self.federates@),
            routes: routes_view(self.routes@),
            bound: self.bound@,
        }
    }
}

/// Whether `id` is one of `ids`.
fn listed(ids: &Vec<FederateId>, id: &FederateId) -> (b: bool)
    ensures
        b == id_views(ids@).contains(id@),
{
    let mut k: usize = 0;
    while k < ids.len()
        invariant
            k <= ids@.len(),
            forall|j: int| 0 <= j < k ==> id_views(ids@)[j] != id@,
        decreases ids@.len() - k,
    {
        if ids[k].same(id) {
            assert(id_views(ids@)[k as int] == id@);
            return true;
        }
        k = k + 1;
    }
    false
}

/// `prefix`, `a`, `middle`, `b` and `suffix` joined.
fn joined(prefix: &str, a: &str, middle: &str, b: &str, suffix: &str) -> (s: String)
    ensures
        s@ == prefix@ + a@ + middle@ + b@ + suffix@,
{
    let mut s = prefix.to_owned();
    s.append(a);
    s.append(middle);
    s.append(b);
    s.append(suffix);
    s
}

impl FederatedRuntimeConnections {
    /// Federates are sorted and distinct; endpoints are distinct; every route's source and target
    /// has a connection.
    pub open spec fn wf(&self) -> bool {
        &&& ids_sorted(self@.federates)
        &&& endpoints_distinct(self@.routes)
        &&& self@.bound.len() == self@.routes.len()
        &&& forall|i: int|
            0 <= i < self@.routes.len() ==> self@.federates.contains(#[trigger] self@.routes[i].source)
                && self@.federates.contains(self@.routes[i].target)
    }

    /// Connections for `federates` and `routes` (see [`connections_problem`] for what is refused).
    pub fn new(federates: Vec<FederateId>, routes: Vec<FederateClientRoute>) -> (r: Result<Self, FederateClientError>)
        ensures
            match connections_problem(id_views(federates@), routes_view(routes@)) {
                Some(e) => r is Err && r->Err_0@ == e,
                None => r matches Ok(c) && c.wf() && c@.federates.to_set() == id_views(federates@).to_set()
                    && c@.routes == routes_view(routes@) && c@.bound == Seq::new(routes@.len(), |i: int| false),
            },
    {
        let ghost fv = id_views(federates@);
        let ghost rv = routes_view(routes@);
        let mut sorted: Vec<FederateId> = Vec::new();
        let nf = federates.len();
        let mut i: usize = 0;
        proof {
            assert(id_views(sorted@).to_set() =~= fv.subrange(0, 0).to_set());
        }
        while i < nf
            invariant
                nf == federates@.len(),
                fv == id_views(federates@),
                i <= nf,
                first_repeated_id_upto(fv, i as int) is None,
                ids_sorted(id_views(sorted@)),
                id_views(sorted@).to_set() == fv.subrange(0, i as int).to_set(),
            decreases nf - i,
        {
            let mut j: usize = 0;
            while j < i
                invariant
                    nf == federates@.len(),
                    fv == id_views(federates@),
                    i < nf,
                    j <= i,
                    first_repeated_id_upto(fv, i as int) is None,
                    forall|k: int| 0 <= k < j ==> fv[k] != fv[i as int],
                decreases i - j,
            {
                if federates[j].same(&federates[i]) {
                    proof {
                        assert(fv.subrange(0, i as int)[j as int] == fv[i as int]);
                        assert(first_repeated_id_upto(fv, i as int + 1) == Some(i as int));
                        lemma_first_repeated_id_stays(fv, i + 1, nf as int);
                        reveal_strlit("duplicate prebuilt runtime connection for '");
                        reveal_strlit("'");
                    }
                    let mut m = "duplicate prebuilt runtime connection for '".to_owned();
                    m.append(federates[i].as_str());
                    m.append("'");
                    return Err(FederateClientError::Protocol(m));
                }
                j = j + 1;
            }
            proof {
                if fv.subrange(0, i as int).contains(fv[i as int]) {
                    let k = choose|k: int| 0 <= k < i && #[trigger] fv.subrange(0, i as int)[k] == fv[i as int];
                    assert(fv[k] == fv[i as int]);
                }
            }
            insert_sorted_id(&mut sorted, &federates[i]);
            proof {
                assert(fv.subrange(0, i + 1) =~= fv.subrange(0, i as int).push(fv[i as int]));
                fv.subrange(0, i as int).lemma_push_to_set_commute(fv[i as int]);
            }
            i = i + 1;
        }
        proof {
            assert(fv.subrange(0, nf as int) =~= fv);
            assert forall|u: Seq<char>| fv.contains(u) <==> id_views(sorted@).contains(u) by {
                assert(fv.to_set().contains(u) == fv.contains(u));
                assert(id_views(sorted@).to_set().contains(u) == id_views(sorted@).contains(u));
            }
        }
        let nr = routes.len();
        let mut i: usize = 0;
        while i < nr
            invariant
                nr == routes@.len(),
                rv == routes_view(routes@),
                fv == id_views(federates@),
                first_repeated_id_upto(fv, fv.len() as int) is None,
                forall|u: Seq<char>| fv.contains(u) <==> id_views(sorted@).contains(u),
                i <= nr,
                routes_problem_upto(fv, rv, i as int) is None,
            decreases nr - i,
        {
            let mut j: usize = 0;
            while j < i
                invariant
                    nr == routes@.len(),
                    rv == routes_view(routes@),
                    fv == id_views(federates@),
                    first_repeated_id_upto(fv, fv.len() as int) is None,
                    i < nr,
                    j <= i,
                    routes_problem_upto(fv, rv, i as int) is None,
                    forall|k: int| 0 <= k < j ==> rv[k].endpoint != rv[i as int].endpoint,
                decreases i - j,
            {
                if routes[j].endpoint.same(&routes[i].endpoint) {
                    proof {
                        assert(rv[j as int].endpoint == rv[i as int].endpoint);
                        assert(repeats_earlier(rv, i as int));
                        assert(routes_problem_upto(fv, rv, i as int + 1) is Some);
                        lemma_routes_problem_stays(fv, rv, i + 1, nr as int);
                    }
                    return Err(FederateClientError::DuplicateRoute(routes[i].endpoint.duplicate()));
                }
                j = j + 1;
            }
            proof {
                if repeats_earlier(rv, i as int) {
                    let k = choose|k: int| 0 <= k < i && #[trigger] rv[k].endpoint == rv[i as int].endpoint;
                    assert(rv[k].endpoint != rv[i as int].endpoint);
                }
            }
            let route = &routes[i];
            if !listed(&sorted, &route.source) {
                proof {
                    assert(routes_problem_upto(fv, rv, i as int + 1) is Some);
                    lemma_routes_problem_stays(fv, rv, i + 1, nr as int);
                    reveal_strlit("route for endpoint '");
                    reveal_strlit("' references source federate '");
                    reveal_strlit("' without a prebuilt runtime connection");
                }
                let m = joined(
                    "route for endpoint '",
                    route.endpoint.as_str(),
                    "' references source federate '",
                    route.source.as_str(),
                    "' without a prebuilt runtime connection",
                );
                return Err(FederateClientError::Protocol(m));
            }
            if !listed(&sorted, &route.target) {
                proof {
                    assert(routes_problem_upto(fv, rv, i as int + 1) is Some);
                    lemma_routes_problem_stays(fv, rv, i + 1, nr as int);
                    reveal_strlit("route for endpoint '");
                    reveal_strlit("' references target federate '");
                    reveal_strlit("' without a prebuilt runtime connection");
                }
                let m = joined(
                    "route for endpoint '",
                    route.endpoint.as_str(),
                    "' references target federate '",
                    route.target.as_str(),
                    "' without a prebuilt runtime connection",
                );
                return Err(FederateClientError::Protocol(m));
            }
            i = i + 1;
        }
        let mut bound: Vec<bool> = Vec::new();
        let mut k: usize = 0;
        while k < nr
            invariant
                k <= nr,
                bound@ == Seq::new(k as nat, |i: int| false),
            decreases nr - k,
        {
            bound.push(false);
            assert(bound@ =~= Seq::new((k + 1) as nat, |i: int| false));
            k = k + 1;
        }
        let c = FederatedRuntimeConnections { federates: sorted, routes, bound };
        proof {
            lemma_no_routes_problem(fv, rv, nr as int);
            lemma_first_repeat_upto(rv, nr as int);
            assert forall|a: int, b: int|
                0 <= a < rv.len() && 0 <= b < rv.len() && a != b implies #[trigger] rv[a].endpoint
                != #[trigger] rv[b].endpoint by {
                if a < b {
                    assert(rv[a].endpoint != rv[b].endpoint);
                } else {
                    assert(rv[b].endpoint != rv[a].endpoint);
                }
            }
            assert(c@.federates.to_set() =~= fv.to_set());
        }
        Ok(c)
    }

    /// Whether `federate` has a connection.
    pub fn contains_federate(&self, federate: &FederateId) -> (b: bool)
        ensures
            b == self@.federates.contains(federate@),
    {
        listed(&self.federates, federate)
    }

    /// The number of connected Federates.
    pub fn len(&self) -> (n: usize)
        ensures
            n == self@.federates.len(),
    {
        self.federates.len()
    }

    /// Whether no Federate is connected.
    pub fn is_empty(&self) -> (b: bool)
        ensures
            b == (self@.federates.len() == 0),
    {
        self.federates.len() == 0
    }

    /// The connected Federates, in lexical order.
    pub fn federate_ids(&self) -> (ids: &Vec<FederateId>)
        ensures
            id_views(ids@) == self@.federates,
    {
        &self.federates
    }

    /// Every route, in the order given.
    pub fn routes(&self) -> (routes: &Vec<FederateClientRoute>)
        ensures
            routes_view(routes@) == self@.routes,
    {
        &self.routes
    }

    /// The route an outbound endpoint sends on; an endpoint without a route is refused.
    pub fn outbound_route(&self, endpoint: &EndpointId) -> (r: Result<&FederateClientRoute, FederateClientError>)
        ensures
            match find_route(self@.routes, endpoint@) {
                Some(route) => r matches Ok(x) && x@ == route,
                None => r is Err && r->Err_0@ == ClientErrorView::UnknownRoute(endpoint@),
            },
    {
        match route_index(&self.routes, endpoint) {
            Some(i) => Ok(&self.routes[i]),
            None => Err(FederateClientError::UnknownRoute(endpoint.duplicate())),
        }
    }

    /// The routes that target `federate`: the inbound routes its protocol client serves.
    pub fn routes_for(&self, federate: &FederateId) -> (routes: Vec<FederateClientRoute>)
        ensures
            routes_view(routes@) == targeting_upto(self@.routes, federate@, self@.routes.len() as int),
    {
        let ghost rv = self@.routes;
        let mut out: Vec<FederateClientRoute> = Vec::new();
        let mut i: usize = 0;
        while i < self.routes.len()
            invariant
                rv == routes_view(self.routes@),
                i <= self.routes@.len(),
                routes_view(out@) == targeting_upto(rv, federate@, i as int),
            decreases self.routes@.len() - i,
        {
            if self.routes[i].target.same(federate) {
                out.push(self.routes[i].duplicate());
                assert(routes_view(out@) =~= targeting_upto(rv, federate@, i as int).push(rv[i as int]));
            }
            i = i + 1;
        }
        out
    }

    /// The route whose inbound runtime binding `federate` attaches for `endpoint`: the Federate
    /// must have a connection, the route must exist and target it, and must not be bound yet.
    pub fn inbound_slot(&self, federate: &FederateId, endpoint: &EndpointId) -> (r: Result<usize, FederateClientError>)
        requires
            self.wf(),
        ensures
            match r {
                Ok(i) => self@.federates.contains(federate@) && serves(self@.routes, federate@, endpoint@, i as int)
                    && !self@.bound[i as int],
                Err(e) => if !self@.federates.contains(federate@) {
                    e@ == ClientErrorView::Protocol(
                        "missing prebuilt runtime connection for federate '"@ + federate@ + "'"@,
                    )
                } else if forall|i: int| !serves(self@.routes, federate@, endpoint@, i) {
                    e@ == ClientErrorView::UnknownRoute(endpoint@)
                } else {
                    e@ == ClientErrorView::DuplicateInboundBinding(endpoint@) && exists|i: int|
                        serves(self@.routes, federate@, endpoint@, i) && #[trigger] self@.bound[i]
                },
            },
    {
        if !listed(&self.federates, federate) {
            proof {
                reveal_strlit("missing prebuilt runtime connection for federate '");
                reveal_strlit("'");
            }
            let mut m = "missing prebuilt runtime connection for federate '".to_owned();
            m.append(federate.as_str());
            m.append("'");
            return Err(FederateClientError::Protocol(m));
        }
        let ghost rv = self@.routes;
        match route_index(&self.routes, endpoint) {
            None => {
                proof {
                    lemma_find_route_none(rv, endpoint@);
                }
                Err(FederateClientError::UnknownRoute(endpoint.duplicate()))
            },
            Some(i) => {
                proof {
                    lemma_find_route_names(rv, endpoint@);
                    lemma_find_route_unique(rv, endpoint@, i as int);
                }
                if !self.routes[i].target.same(federate) {
                    Err(FederateClientError::UnknownRoute(endpoint.duplicate()))
                } else if self.bound[i] {
                    assert(serves(rv, federate@, endpoint@, i as int));
                    Err(FederateClientError::DuplicateInboundBinding(endpoint.duplicate()))
                } else {
                    Ok(i)
                }
            },
        }
    }

    /// Records that route `slot` now has its inbound runtime binding.
    pub fn bind_inbound(&mut self, slot: usize)
        requires
            old(self).wf(),
            slot < old(self)@.bound.len(),
        ensures
            final(self).wf(),
            final(self)@ == (ConnectionsView { bound: old(self)@.bound.update(slot as int, true), ..old(self)@ }),
    {
        self.bound.set(slot, true);
    }
}

} // verus!
