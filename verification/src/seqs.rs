//! General facts about sequences used across the crate.
use vstd::prelude::*;

verus! {

/// Extending a prefix by one element adds exactly that element.
pub proof fn lemma_prefix_contains<T>(u: Seq<T>, i: int)
    requires
        0 <= i < u.len(),
    ensures
        forall|y: T|
            u.subrange(0, i + 1).contains(y) <==> (u.subrange(0, i).contains(y) || y == u[i]),
{
    assert forall|y: T|
        u.subrange(0, i + 1).contains(y) <==> (u.subrange(0, i).contains(y) || y == u[i]) by {
        if u.subrange(0, i + 1).contains(y) {
            let w = choose|w: int| 0 <= w < i + 1 && #[trigger] u.subrange(0, i + 1)[w] == y;
            if w < i {
                assert(u.subrange(0, i)[w] == y);
            }
        }
        if u.subrange(0, i).contains(y) {
            let w = choose|w: int| 0 <= w < i && #[trigger] u.subrange(0, i)[w] == y;
            assert(u.subrange(0, i + 1)[w] == y);
        }
        if y == u[i] {
            assert(u.subrange(0, i + 1)[i] == y);
        }
    }
}

/// Inserting `x` at position `i` adds exactly `x` to what a sequence contains.
pub proof fn lemma_insert_contains<A>(s: Seq<A>, i: int, x: A)
    requires
        0 <= i <= s.len(),
    ensures
        forall|y: A| #[trigger] s.insert(i, x).contains(y) <==> (s.contains(y) || y == x),
{
    let t = s.insert(i, x);
    assert forall|y: A| #[trigger] t.contains(y) <==> (s.contains(y) || y == x) by {
        if t.contains(y) {
            let w = choose|w: int| 0 <= w < t.len() && t[w] == y;
            if w < i {
                assert(s[w] == y);
            } else if w > i {
                assert(s[w - 1] == y);
            }
        }
        if s.contains(y) {
            let w = choose|w: int| 0 <= w < s.len() && s[w] == y;
            if w < i {
                assert(t[w] == y);
            } else {
                assert(t[w + 1] == y);
            }
        }
        if y == x {
            assert(t[i] == y);
        }
    }
}

} // verus!
