//! Small facts about sequence membership that the reconciler's loops lean
//! on: how `contains` moves across removing the head and inserting at a
//! position.

use vstd::prelude::*;

verus! {

/// Membership in a non-empty sequence is membership in its head or its tail.
pub proof fn lemma_remove_first_contains<A>(s: Seq<A>)
    requires
        s.len() > 0,
    ensures
        forall|x: A| #[trigger] s.contains(x) <==> (x == s[0] || s.remove(0).contains(x)),
{
    assert forall|x: A| #[trigger] s.contains(x) implies (x == s[0] || s.remove(0).contains(x)) by {
        let i = choose|i: int| 0 <= i < s.len() && s[i] == x;
        if i > 0 {
            assert(s.remove(0)[i - 1] == x);
            assert(s.remove(0).contains(x));
        }
    }
    assert forall|x: A| (x == s[0] || s.remove(0).contains(x)) implies #[trigger] s.contains(
        x,
    ) by {
        if s.remove(0).contains(x) {
            let i = choose|i: int| 0 <= i < s.remove(0).len() && s.remove(0)[i] == x;
            assert(s[i + 1] == x);
        }
    }
}

/// Membership after inserting `a` at `pos` is membership before, or being
/// `a` itself.
pub proof fn lemma_insert_contains<A>(s: Seq<A>, pos: int, a: A)
    requires
        0 <= pos <= s.len(),
    ensures
        forall|x: A| #[trigger] s.insert(pos, a).contains(x) <==> (x == a || s.contains(x)),
{
    s.insert_ensures(pos, a);
    assert forall|x: A| #[trigger] s.insert(pos, a).contains(x) implies (x == a || s.contains(
        x,
    )) by {
        let i = choose|i: int| 0 <= i < s.insert(pos, a).len() && s.insert(pos, a)[i] == x;
        if i < pos {
            assert(s[i] == x);
        } else if i > pos {
            assert(s[i - 1] == x);
        }
    }
    assert forall|x: A| (x == a || s.contains(x)) implies #[trigger] s.insert(pos, a).contains(
        x,
    ) by {
        if x == a {
            assert(s.insert(pos, a)[pos] == x);
        } else {
            let i = choose|i: int| 0 <= i < s.len() && s[i] == x;
            if i < pos {
                assert(s.insert(pos, a)[i] == x);
            } else {
                assert(s.insert(pos, a)[i + 1] == x);
            }
        }
    }
}

/// An element of a prefix is an element of the whole sequence.
pub proof fn lemma_take_contains<A>(s: Seq<A>, n: int)
    requires
        0 <= n <= s.len(),
    ensures
        forall|x: A| #[trigger] s.take(n).contains(x) ==> s.contains(x),
{
    assert forall|x: A| #[trigger] s.take(n).contains(x) implies s.contains(x) by {
        let i = choose|i: int| 0 <= i < s.take(n).len() && s.take(n)[i] == x;
        assert(s[i] == x);
    }
}

/// Membership after pushing `a` is membership before, or being `a` itself.
pub proof fn lemma_push_contains<A>(s: Seq<A>, a: A)
    ensures
        forall|x: A| #[trigger] s.push(a).contains(x) <==> (x == a || s.contains(x)),
{
    assert forall|x: A| #[trigger] s.push(a).contains(x) implies (x == a || s.contains(x)) by {
        let i = choose|i: int| 0 <= i < s.push(a).len() && s.push(a)[i] == x;
        if i < s.len() {
            assert(s[i] == x);
        }
    }
    assert forall|x: A| (x == a || s.contains(x)) implies #[trigger] s.push(a).contains(x) by {
        if x == a {
            assert(s.push(a)[s.len() as int] == x);
        } else {
            let i = choose|i: int| 0 <= i < s.len() && s[i] == x;
            assert(s.push(a)[i] == x);
        }
    }
}

/// Membership in a one-longer prefix is membership in the shorter prefix or
/// being the element at the boundary.
pub proof fn lemma_take_succ_contains<A>(s: Seq<A>, n: int)
    requires
        0 <= n < s.len(),
    ensures
        forall|x: A| #[trigger] s.take(n + 1).contains(x) <==> (x == s[n] || s.take(n).contains(
            x,
        )),
{
    assert(s.take(n + 1) =~= s.take(n).push(s[n]));
    lemma_push_contains(s.take(n), s[n]);
}

} // verus!
