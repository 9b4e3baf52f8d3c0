//! Small arithmetic and sequence lemmas shared across the crate.

use vstd::multiset::Multiset;
use vstd::prelude::*;

verus! {

broadcast use vstd::seq_lib::group_to_multiset_ensures;

/// A product is bounded by the product of the factors' bounds.
pub proof fn lemma_mul_bound(a: int, b: int, ba: int, bb: int)
    requires
        -ba <= a <= ba,
        -bb <= b <= bb,
    ensures
        -(ba * bb) <= a * b <= ba * bb,
{
    assert(-(ba * bb) <= a * b <= ba * bb) by (nonlinear_arith)
        requires
            -ba <= a <= ba,
            -bb <= b <= bb,
    ;
}

/// Inserting into a sequence at any position inserts into its multiset.
pub proof fn lemma_insert_to_multiset<A>(s: Seq<A>, i: int, x: A)
    requires
        0 <= i <= s.len(),
    ensures
        s.insert(i, x).to_multiset() == s.to_multiset().insert(x),
{
    let s2 = s.insert(i, x);
    s.insert_ensures(i, x);
    s2.remove_ensures(i);
    assert(s2.remove(i) =~= s);
    assert(s2[i] == x);
    assert(s2.contains(x));
    assert(s2.to_multiset().count(x) > 0);
    assert(s.to_multiset() == s2.to_multiset().remove(x));
    assert(s2.to_multiset() =~= s.to_multiset().insert(x)) by {
        broadcast use vstd::multiset::group_multiset_axioms;

        assert forall|y: A| s2.to_multiset().count(y) == s.to_multiset().insert(x).count(
            y,
        ) by {
            if y == x {
                assert(s.to_multiset().count(x) == s2.to_multiset().count(x) - 1);
            } else {
                assert(s.to_multiset().count(y) == s2.to_multiset().count(y));
            }
        }
    }
}

/// Removing one occurrence and putting it back restores a multiset.
pub proof fn lemma_remove_insert_to_multiset<A>(m: Multiset<A>, x: A)
    requires
        m.count(x) > 0,
    ensures
        m.remove(x).insert(x) == m,
{
    broadcast use vstd::multiset::group_multiset_axioms;

    assert(m.remove(x).insert(x) =~= m) by {
        assert forall|y: A| m.remove(x).insert(x).count(y) == m.count(y) by {
            if y == x {
            } else {
            }
        }
    }
}

/// Sequences with equal multisets contain the same values.
pub proof fn lemma_multiset_contains_seq<A>(s1: Seq<A>, s2: Seq<A>, x: A)
    requires
        s1.to_multiset() == s2.to_multiset(),
        s1.contains(x),
    ensures
        s2.contains(x),
{
    assert(s1.to_multiset().count(x) > 0);
}

} // verus!
