//! Stable textual identities of Federates and endpoints, and their lexical order.
use vstd::prelude::*;

verus! {

/// Lexical order on character sequences, comparing characters by code point.
///
/// For UTF-8 text this is the same order as comparing the encoded bytes.
pub open spec fn seq_lt(a: Seq<char>, b: Seq<char>) -> bool
    decreases a.len(),
{
    if a.len() == 0 {
        b.len() > 0
    } else if b.len() == 0 {
        false
    } else if a[0] != b[0] {
        (a[0] as int) < (b[0] as int)
    } else {
        seq_lt(a.drop_first(), b.drop_first())
    }
}

/// The lexical order is a strict total order.
pub proof fn lemma_seq_lt_order(a: Seq<char>, b: Seq<char>, c: Seq<char>)
    ensures
        !seq_lt(a, a),
        seq_lt(a, b) ==> !seq_lt(b, a),
        seq_lt(a, b) && seq_lt(b, c) ==> seq_lt(a, c),
        a != b ==> seq_lt(a, b) || seq_lt(b, a),
    decreases a.len(),
{
    if a.len() > 0 && b.len() > 0 && c.len() > 0 {
        lemma_seq_lt_order(a.drop_first(), b.drop_first(), c.drop_first());
        if a[0] == b[0] && a != b {
            assert(a =~= seq![a[0]] + a.drop_first());
            assert(b =~= seq![b[0]] + b.drop_first());
        }
        if a[0] != b[0] {
            // chars with equal code points are equal
            assert((a[0] as int) != (b[0] as int));
        }
    } else if a.len() > 0 && b.len() > 0 {
        lemma_seq_lt_order(a.drop_first(), b.drop_first(), c);
        if a[0] == b[0] && a != b {
            assert(a =~= seq![a[0]] + a.drop_first());
            assert(b =~= seq![b[0]] + b.drop_first());
        }
        if a[0] != b[0] {
            assert((a[0] as int) != (b[0] as int));
        }
    } else if a.len() == 0 && b.len() == 0 {
        assert(a =~= b);
    } else if a.len() > 0 {
        lemma_seq_lt_order(a.drop_first(), a.drop_first(), a.drop_first());
    }
}

/// Compares two strings in lexical order: `Some(true)` when `a < b`, `Some(false)` when
/// `b < a`, `None` when they are equal.
pub fn str_compare(a: &str, b: &str) -> (r: Option<bool>)
    ensures
        r == (if a@ == b@ { None } else { Some(seq_lt(a@, b@)) }),
{
    let la = a.unicode_len();
    let lb = b.unicode_len();
    let mut i: usize = 0;
    assert(a@.skip(0) =~= a@);
    assert(b@.skip(0) =~= b@);
    while i < la && i < lb
        invariant
            la == a@.len(),
            lb == b@.len(),
            i <= la,
            i <= lb,
            a@.subrange(0, i as int) == b@.subrange(0, i as int),
            seq_lt(a@, b@) == seq_lt(a@.skip(i as int), b@.skip(i as int)),
        decreases la - i,
    {
        let ca = a.get_char(i);
        let cb = b.get_char(i);
        let ua = ca as u32;
        let ub = cb as u32;
        assert(a@.skip(i as int)[0] == ca);
        assert(b@.skip(i as int)[0] == cb);
        if ua != ub {
            proof {
                if a@ == b@ {
                    assert(ca == cb);
                }
            }
            return Some(ua < ub);
        }
        proof {
            assert(ca == cb) by {
                assert(ca as int == cb as int);
            }
            assert(a@.skip(i as int).drop_first() =~= a@.skip(i + 1));
            assert(b@.skip(i as int).drop_first() =~= b@.skip(i + 1));
            assert(a@.subrange(0, i + 1) =~= a@.subrange(0, i as int).push(ca));
            assert(b@.subrange(0, i + 1) =~= b@.subrange(0, i as int).push(cb));
        }
        i = i + 1;
    }
    if la == lb {
        assert(a@ =~= a@.subrange(0, i as int));
        assert(b@ =~= b@.subrange(0, i as int));
        None
    } else {
        proof {
            if a@ == b@ {
                assert(false);
            }
        }
        Some(la < lb)
    }
}

/// Whether a sequence of identities is strictly increasing in lexical order.
pub open spec fn ids_sorted(s: Seq<Seq<char>>) -> bool {
    forall|i: int, j: int| 0 <= i < j < s.len() ==> seq_lt(s[i], s[j])
}

/// Whether the identities in a sequence are pairwise distinct.
pub open spec fn ids_distinct(s: Seq<Seq<char>>) -> bool {
    forall|i: int, j: int| 0 <= i < j < s.len() ==> s[i] != s[j]
}

/// Sorts positions by the lexical order of the identities at those positions.
///
/// The result lists every position once, in strictly increasing order of identity.
pub fn lexical_order(ids: &Vec<&str>) -> (order: Vec<usize>)
    requires
        ids_distinct(ids@.map_values(|s: &str| s@)),
    ensures
        order@.len() == ids@.len(),
        forall|k: int| 0 <= k < order@.len() ==> order@[k] < ids@.len(),
        forall|x: usize| x < ids@.len() ==> order@.contains(x),
        forall|a: int, b: int|
            0 <= a < b < order@.len() ==> seq_lt(ids@[order@[a] as int]@, ids@[order@[b] as int]@),
{
    let n = ids.len();
    let mut order: Vec<usize> = Vec::new();
    let mut i: usize = 0;
    while i < n
        invariant
            n == ids@.len(),
            i <= n,
            ids_distinct(ids@.map_values(|s: &str| s@)),
            order@.len() == i,
            forall|k: int| 0 <= k < order@.len() ==> order@[k] < i,
            forall|x: usize| x < i ==> order@.contains(x),
            forall|a: int, b: int|
                0 <= a < b < order@.len() ==> seq_lt(ids@[order@[a] as int]@, ids@[order@[b] as int]@),
        decreases n - i,
    {
        let mut pos: usize = 0;
        let mut found = false;
        while !found && pos < order.len()
            invariant
                found ==> pos < order@.len() && seq_lt(ids@[i as int]@, ids@[order@[pos as int] as int]@),
                n == ids@.len(),
                i < n,
                order@.len() == i,
                pos <= order@.len(),
                forall|k: int| 0 <= k < order@.len() ==> order@[k] < i,
                forall|k: int| 0 <= k < pos ==> seq_lt(ids@[order@[k] as int]@, ids@[i as int]@),
                ids_distinct(ids@.map_values(|s: &str| s@)),
            decreases order@.len() - pos + (if found { 0int } else { 1int }),
        {
            let c = str_compare(ids[i], ids[order[pos]]);
            proof {
                let x = order@[pos as int];
                assert(ids@.map_values(|s: &str| s@)[x as int] == ids@[x as int]@);
                assert(ids@.map_values(|s: &str| s@)[i as int] == ids@[i as int]@);
                lemma_seq_lt_order(ids@[i as int]@, ids@[x as int]@, ids@[x as int]@);
            }
            if c == Some(true) {
                found = true;
            } else {
                pos = pos + 1;
            }
        }
        let ghost old_order = order@;
        order.insert(pos, i);
        proof {
            assert(order@ == old_order.insert(pos as int, i));
            assert forall|a: int, b: int| 0 <= a < b < order@.len() implies seq_lt(
                ids@[order@[a] as int]@,
                ids@[order@[b] as int]@,
            ) by {
                let ia = ids@[order@[a] as int]@;
                let ib = ids@[order@[b] as int]@;
                let me = ids@[i as int]@;
                if b == pos {
                    assert(order@[a] == old_order[a]);
                } else if a == pos {
                    // me < old_order[pos] <= old_order[b - 1]
                    let first = ids@[old_order[pos as int] as int]@;
                    assert(seq_lt(me, first));
                    if b - 1 > pos {
                        assert(seq_lt(first, ib));
                        lemma_seq_lt_order(me, first, ib);
                    }
                } else if a < pos && b > pos {
                    assert(order@[a] == old_order[a]);
                    assert(order@[b] == old_order[b - 1]);
                    assert(seq_lt(ia, me));
                    let first = ids@[old_order[pos as int] as int]@;
                    assert(seq_lt(me, first));
                    if b - 1 > pos {
                        lemma_seq_lt_order(me, first, ib);
                    }
                    lemma_seq_lt_order(ia, me, ib);
                } else if b < pos {
                    assert(order@[a] == old_order[a]);
                    assert(order@[b] == old_order[b]);
                } else {
                    assert(order@[a] == old_order[a - 1]);
                    assert(order@[b] == old_order[b - 1]);
                }
            }
            assert forall|x: usize| x < i + 1 implies order@.contains(x) by {
                if x == i {
                    assert(order@[pos as int] == i);
                } else {
                    assert(old_order.contains(x));
                    let w = choose|w: int| 0 <= w < old_order.len() && old_order[w] == x;
                    if w < pos {
                        assert(order@[w] == x);
                    } else {
                        assert(order@[w + 1] == x);
                    }
                }
            }
        }
        i = i + 1;
    }
    order
}

/// Stable textual identity of one Federate.
#[derive(Debug, Clone, PartialEq, Eq, PartialOrd, Ord, Hash)]
pub struct FederateId {
    id: String,
}

/// Stable textual identity of one federated endpoint.
#[derive(Debug, Clone, PartialEq, Eq, PartialOrd, Ord, Hash)]
pub struct EndpointId {
    id: String,
}

impl View for FederateId {
    type V = Seq<char>;

    closed spec fn view(&self) -> Seq<char> {
        self.id@
    }
}

impl View for EndpointId {
    type V = Seq<char>;

    closed spec fn view(&self) -> Seq<char> {
        self.id@
    }
}

impl FederateId {
    /// The Federate identity `id`.
    pub fn new(id: &str) -> (r: Self)
        ensures
            r@ == id@,
    {
        FederateId { id: id.to_owned() }
    }

    /// The identity as text.
    pub fn as_str(&self) -> (s: &str)
        ensures
            s@ == self@,
    {
        self.id.as_str()
    }

    /// An identical copy of this identity.
    pub fn duplicate(&self) -> (r: Self)
        ensures
            r@ == self@,
    {
        FederateId { id: self.id.clone() }
    }

    /// Identity equality.
    pub fn same(&self, other: &FederateId) -> (b: bool)
        ensures
            b == (self@ == other@),
    {
        self.id == other.id
    }

    /// Lexical comparison: `Some(true)` when `self < other`, `Some(false)` when `other < self`,
    /// `None` when equal.
    pub fn compare(&self, other: &FederateId) -> (r: Option<bool>)
        ensures
            r == (if self@ == other@ { None } else { Some(seq_lt(self@, other@)) }),
    {
        str_compare(self.id.as_str(), other.id.as_str())
    }
}

impl EndpointId {
    /// The endpoint identity `id`.
    pub fn new(id: &str) -> (r: Self)
        ensures
            r@ == id@,
    {
        EndpointId { id: id.to_owned() }
    }

    /// The identity as text.
    pub fn as_str(&self) -> (s: &str)
        ensures
            s@ == self@,
    {
        self.id.as_str()
    }

    /// An identical copy of this identity.
    pub fn duplicate(&self) -> (r: Self)
        ensures
            r@ == self@,
    {
        EndpointId { id: self.id.clone() }
    }

    /// Identity equality.
    pub fn same(&self, other: &EndpointId) -> (b: bool)
        ensures
            b == (self@ == other@),
    {
        self.id == other.id
    }

    /// Lexical comparison: `Some(true)` when `self < other`, `Some(false)` when `other < self`,
    /// `None` when equal.
    pub fn compare(&self, other: &EndpointId) -> (r: Option<bool>)
        ensures
            r == (if self@ == other@ { None } else { Some(seq_lt(self@, other@)) }),
    {
        str_compare(self.id.as_str(), other.id.as_str())
    }
}

/// The identities of a sequence of Federate ids.
pub open spec fn id_views(v: Seq<FederateId>) -> Seq<Seq<char>> {
    v.map_values(|f: FederateId| f@)
}

/// Adds `id` to a lexically sorted set of Federate ids, keeping it sorted.
pub fn insert_sorted_id(v: &mut Vec<FederateId>, id: &FederateId)
    requires
        ids_sorted(id_views(old(v)@)),
    ensures
        ids_sorted(id_views(final(v)@)),
        id_views(final(v)@).to_set() == id_views(old(v)@).to_set().insert(id@),
{
    let ghost old_v = id_views(v@);
    let mut pos: usize = 0;
    while pos < v.len() && v[pos].compare(id) == Some(true)
        invariant
            id_views(v@) == old_v,
            pos <= old_v.len(),
            forall|j: int| 0 <= j < pos ==> seq_lt(old_v[j], id@),
        decreases old_v.len() - pos,
    {
        assert(old_v[pos as int] == v@[pos as int]@);
        pos = pos + 1;
    }
    if pos < v.len() && v[pos].same(id) {
        assert(old_v[pos as int] == id@);
        assert(old_v.to_set().insert(id@) =~= old_v.to_set());
        return;
    }
    proof {
        if pos < old_v.len() {
            assert(old_v[pos as int] == v@[pos as int]@);
            lemma_seq_lt_order(old_v[pos as int], id@, id@);
            assert(seq_lt(id@, old_v[pos as int]));
        }
    }
    v.insert(pos, id.duplicate());
    proof {
        let nv = id_views(v@);
        assert(nv =~= old_v.insert(pos as int, id@));
        assert forall|a: int, b: int| 0 <= a < b < nv.len() implies seq_lt(nv[a], nv[b]) by {
            if a < pos && b == pos {
            } else if a < pos && b > pos {
                lemma_seq_lt_order(old_v[a], id@, old_v[b - 1]);
                if b - 1 > pos {
                    assert(seq_lt(old_v[pos as int], old_v[b - 1]));
                    lemma_seq_lt_order(id@, old_v[pos as int], old_v[b - 1]);
                }
            } else if a == pos {
                if b - 1 > pos {
                    assert(seq_lt(old_v[pos as int], old_v[b - 1]));
                    lemma_seq_lt_order(id@, old_v[pos as int], old_v[b - 1]);
                }
            } else if b < pos {
            } else {
                assert(seq_lt(old_v[a - 1], old_v[b - 1]));
            }
        }
        assert(nv.to_set() =~= old_v.to_set().insert(id@)) by {
            assert forall|u: Seq<char>| nv.to_set().contains(u) == old_v.to_set().insert(id@).contains(u) by {
                if nv.to_set().contains(u) {
                    let w = choose|w: int| 0 <= w < nv.len() && nv[w] == u;
                    if w < pos {
                        assert(old_v[w] == u);
                    } else if w > pos {
                        assert(old_v[w - 1] == u);
                    }
                }
                if old_v.to_set().contains(u) {
                    let w = choose|w: int| 0 <= w < old_v.len() && old_v[w] == u;
                    if w < pos {
                        assert(nv[w] == u);
                    } else {
                        assert(nv[w + 1] == u);
                    }
                }
                if u == id@ {
                    assert(nv[pos as int] == u);
                }
            }
        }
    }
}

} // verus!
