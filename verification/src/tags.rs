//! A finite set of protocol tags kept as a strictly increasing vector.
use vstd::prelude::*;

use crate::protocol::{lemma_tag_order_total, tag_le, tag_lt, WireTag};

verus! {

broadcast use vstd::seq_lib::seq_to_set_is_finite;

/// Strictly increasing tags.
pub open spec fn tags_sorted(s: Seq<WireTag>) -> bool {
    forall|i: int, j: int| 0 <= i < j < s.len() ==> tag_lt(s[i], s[j])
}

/// Whether `t` is the least element of `s`.
pub open spec fn is_least(s: Set<WireTag>, t: WireTag) -> bool {
    s.contains(t) && forall|u: WireTag| s.contains(u) ==> tag_le(t, u)
}

/// The least tag of a nonempty set of tags.
pub open spec fn least(s: Set<WireTag>) -> WireTag {
    choose|t: WireTag| is_least(s, t)
}

/// The first element of a strictly increasing nonempty sequence is the least of its elements.
pub proof fn lemma_sorted_first_least(s: Seq<WireTag>)
    requires
        tags_sorted(s),
        s.len() > 0,
    ensures
        is_least(s.to_set(), s[0]),
        least(s.to_set()) == s[0],
{
    assert(s.to_set().contains(s[0]));
    assert forall|u: WireTag| s.to_set().contains(u) implies tag_le(s[0], u) by {
        let i = choose|i: int| 0 <= i < s.len() && s[i] == u;
        if i > 0 {
            assert(tag_lt(s[0], s[i]));
        } else {
            lemma_tag_order_total(u, u, u);
        }
    }
    assert(is_least(s.to_set(), s[0]));
    let m = least(s.to_set());
    assert(is_least(s.to_set(), m));
    lemma_tag_order_total(m, s[0], s[0]);
}

/// A finite set of tags, iterated in increasing order.
#[derive(Debug, Clone, PartialEq, Eq)]
pub struct SortedTags {
    tags: Vec<WireTag>,
}

impl View for SortedTags {
    type V = Set<WireTag>;

    closed spec fn view(&self) -> Set<WireTag> {
        self.tags@.to_set()
    }
}

impl SortedTags {
    /// The tags are strictly increasing.
    pub closed spec fn wf(&self) -> bool {
        tags_sorted(self.tags@)
    }

    /// No tag.
    pub fn new() -> (s: Self)
        ensures
            s.wf(),
            s@ == Set::<WireTag>::empty(),
    {
        let s = SortedTags { tags: Vec::new() };
        assert(s.tags@.to_set() =~= Set::empty());
        s
    }

    /// An identical copy.
    pub fn duplicate(&self) -> (c: Self)
        requires
            self.wf(),
        ensures
            c.wf(),
            c@ == self@,
    {
        let mut tags: Vec<WireTag> = Vec::new();
        let mut i: usize = 0;
        while i < self.tags.len()
            invariant
                i <= self.tags@.len(),
                tags@ == self.tags@.subrange(0, i as int),
            decreases self.tags@.len() - i,
        {
            tags.push(self.tags[i]);
            assert(tags@ =~= self.tags@.subrange(0, i + 1));
            i = i + 1;
        }
        assert(tags@ =~= self.tags@);
        SortedTags { tags }
    }

    /// The number of tags.
    pub fn len(&self) -> (n: usize)
        requires
            self.wf(),
        ensures
            n == self@.len(),
            self@.finite(),
    {
        proof {
            assert(self.tags@.no_duplicates()) by {
                assert forall|i: int, j: int| 0 <= i < self.tags@.len() && 0 <= j < self.tags@.len() && i != j
                    implies self.tags@[i] != self.tags@[j] by {
                    if i < j {
                        assert(tag_lt(self.tags@[i], self.tags@[j]));
                    } else {
                        assert(tag_lt(self.tags@[j], self.tags@[i]));
                    }
                }
            }
            self.tags@.unique_seq_to_set();
        }
        self.tags.len()
    }

    /// The least tag, if any.
    pub fn first(&self) -> (t: Option<WireTag>)
        requires
            self.wf(),
        ensures
            t is None <==> self@ =~= Set::<WireTag>::empty(),
            t is Some ==> is_least(self@, t->0) && t->0 == least(self@),
    {
        if self.tags.len() == 0 {
            assert(self.tags@.to_set() =~= Set::empty());
            None
        } else {
            proof {
                lemma_sorted_first_least(self.tags@);
                assert(self@.contains(self.tags@[0]));
            }
            Some(self.tags[0])
        }
    }

    /// The tags in increasing order.
    pub fn to_vec(&self) -> (v: Vec<WireTag>)
        requires
            self.wf(),
        ensures
            tags_sorted(v@),
            v@.to_set() == self@,
    {
        self.duplicate().tags
    }

    /// Whether `tag` is present.
    pub fn contains(&self, tag: WireTag) -> (b: bool)
        ensures
            b == self@.contains(tag),
    {
        let mut i: usize = 0;
        while i < self.tags.len()
            invariant
                i <= self.tags@.len(),
                forall|j: int| 0 <= j < i ==> self.tags@[j] != tag,
            decreases self.tags@.len() - i,
        {
            if self.tags[i].same(&tag) {
                assert(self.tags@.contains(tag));
                return true;
            }
            i = i + 1;
        }
        false
    }

    /// Keeps only the tags strictly after `tag`.
    pub fn retain_after(&mut self, tag: WireTag)
        requires
            old(self).wf(),
        ensures
            final(self).wf(),
            final(self)@ == old(self)@.filter(|t: WireTag| tag_lt(tag, t)),
    {
        let ghost old_v = self.tags@;
        let mut kept: Vec<WireTag> = Vec::new();
        let mut i: usize = 0;
        while i < self.tags.len()
            invariant
                self.tags@ == old_v,
                tags_sorted(old_v),
                i <= old_v.len(),
                tags_sorted(kept@),
                forall|j: int| 0 <= j < kept@.len() ==> tag_lt(tag, #[trigger] kept@[j]),
                forall|j: int, x: int|
                    0 <= j < kept@.len() && i <= x < old_v.len() ==> tag_lt(kept@[j], old_v[x]),
                forall|t: WireTag|
                    kept@.contains(t) <==> (exists|j: int| 0 <= j < i && old_v[j] == t && tag_lt(tag, t)),
            decreases old_v.len() - i,
        {
            let t = self.tags[i];
            if tag.lt(&t) {
                let ghost before = kept@;
                kept.push(t);
                proof {
                    assert forall|u: WireTag|
                        kept@.contains(u) <==> (exists|j: int| 0 <= j < i + 1 && old_v[j] == u && tag_lt(tag, u)) by {
                        if kept@.contains(u) {
                            let w = choose|w: int| 0 <= w < kept@.len() && kept@[w] == u;
                            if w < before.len() {
                                assert(before.contains(u));
                            } else {
                                assert(old_v[i as int] == u);
                            }
                        }
                        if exists|j: int| 0 <= j < i + 1 && old_v[j] == u && tag_lt(tag, u) {
                            let j = choose|j: int| 0 <= j < i + 1 && old_v[j] == u && tag_lt(tag, u);
                            if j < i {
                                assert(before.contains(u));
                                let w = choose|w: int| 0 <= w < before.len() && before[w] == u;
                                assert(kept@[w] == u);
                            } else {
                                assert(kept@[before.len() as int] == u);
                            }
                        }
                    }
                }
            } else {
                proof {
                    assert forall|u: WireTag|
                        kept@.contains(u) <==> (exists|j: int| 0 <= j < i + 1 && old_v[j] == u && tag_lt(tag, u)) by {
                        if exists|j: int| 0 <= j < i + 1 && old_v[j] == u && tag_lt(tag, u) {
                            let j = choose|j: int| 0 <= j < i + 1 && old_v[j] == u && tag_lt(tag, u);
                            if j == i {
                                assert(false);
                            }
                        }
                    }
                }
            }
            i = i + 1;
        }
        self.tags = kept;
        proof {
            assert(self.tags@.to_set() =~= old_v.to_set().filter(|t: WireTag| tag_lt(tag, t))) by {
                assert forall|u: WireTag|
                    self.tags@.to_set().contains(u) == old_v.to_set().filter(|t: WireTag| tag_lt(tag, t)).contains(u) by {
                    if old_v.to_set().contains(u) && tag_lt(tag, u) {
                        let j = choose|j: int| 0 <= j < old_v.len() && old_v[j] == u;
                        assert(exists|j: int| 0 <= j < old_v.len() && old_v[j] == u && tag_lt(tag, u));
                    }
                }
            }
        }
    }

    /// Adds `tag`.
    pub fn insert(&mut self, tag: WireTag)
        requires
            old(self).wf(),
        ensures
            final(self).wf(),
            final(self)@ == old(self)@.insert(tag),
    {
        let ghost old_v = self.tags@;
        let mut pos: usize = 0;
        while pos < self.tags.len() && self.tags[pos].lt(&tag)
            invariant
                self.tags@ == old_v,
                pos <= old_v.len(),
                forall|j: int| 0 <= j < pos ==> tag_lt(old_v[j], tag),
            decreases old_v.len() - pos,
        {
            pos = pos + 1;
        }
        if pos < self.tags.len() && self.tags[pos].same(&tag) {
            assert(old_v.to_set().insert(tag) =~= old_v.to_set());
        } else {
            proof {
                if pos < old_v.len() {
                    lemma_tag_order_total(old_v[pos as int], tag, tag);
                    assert(tag_lt(tag, old_v[pos as int]));
                }
            }
            self.tags.insert(pos, tag);
            proof {
                let nv = self.tags@;
                assert(nv == old_v.insert(pos as int, tag));
                assert forall|a: int, b: int| 0 <= a < b < nv.len() implies tag_lt(nv[a], nv[b]) by {
                    if a < pos && b == pos {
                    } else if a < pos && b > pos {
                        assert(nv[a] == old_v[a]);
                        assert(nv[b] == old_v[b - 1]);
                        lemma_tag_order_total(old_v[a], tag, old_v[b - 1]);
                        if b - 1 > pos {
                            assert(tag_lt(old_v[pos as int], old_v[b - 1]));
                            lemma_tag_order_total(tag, old_v[pos as int], old_v[b - 1]);
                        }
                    } else if a == pos {
                        assert(nv[b] == old_v[b - 1]);
                        if b - 1 > pos {
                            assert(tag_lt(old_v[pos as int], old_v[b - 1]));
                            lemma_tag_order_total(tag, old_v[pos as int], old_v[b - 1]);
                        }
                    } else if b < pos {
                        assert(nv[a] == old_v[a]);
                        assert(nv[b] == old_v[b]);
                    } else {
                        assert(nv[a] == old_v[a - 1]);
                        assert(nv[b] == old_v[b - 1]);
                    }
                }
                assert(nv.to_set() =~= old_v.to_set().insert(tag)) by {
                    assert forall|u: WireTag| nv.to_set().contains(u) == old_v.to_set().insert(tag).contains(u) by {
                        if nv.to_set().contains(u) {
                            let w = choose|w: int| 0 <= w < nv.len() && nv[w] == u;
                            if w < pos {
                                assert(old_v[w] == u);
                            } else if w > pos {
                                assert(old_v[w - 1] == u);
                            }
                        }
                        if old_v.to_set().contains(u) {
                            let w = choose|w: int| 0 <= w < old_v.len() && old_v[w] == u;
                            if w < pos {
                                assert(nv[w] == u);
                            } else {
                                assert(nv[w + 1] == u);
                            }
                        }
                        if u == tag {
                            assert(nv[pos as int] == u);
                        }
                    }
                }
            }
        }
    }
}

} // verus!
