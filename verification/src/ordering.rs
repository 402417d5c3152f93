//! Orderings of the candidate list.  Each selector sorts the candidate
//! indices by an integer key of its own (value, age, or effective value, with
//! the original index as the tie-break), so one verified sort serves them
//! all, and a sorted candidate order is unique.

use vstd::prelude::*;
use vstd::multiset::group_multiset_axioms;
use vstd::multiset::Multiset;
use vstd::relations::antisymmetric;
use vstd::relations::reflexive;
use vstd::relations::sorted_by;
use vstd::relations::strongly_connected;
use vstd::relations::total_ordering;
use vstd::relations::transitive;
use vstd::seq_lib::group_to_multiset_ensures;
use vstd::seq_lib::lemma_sorted_unique;
use crate::model::identity_order;
use crate::model::is_candidate_order;

verus! {

/// The order lists its indices with never-decreasing keys.
pub open spec fn key_sorted(ord: Seq<usize>, key: spec_fn(usize) -> int) -> bool {
    forall|i: int, j: int| 0 <= i < j < ord.len() ==> key(ord[i]) <= key(ord[j])
}

/// Builds the identity order `0, 1, ..., n - 1` as a vector.
pub(crate) fn make_identity_order(n: usize) -> (r: Vec<usize>)
    ensures
        r@ == identity_order(n as int),
{
    let mut v: Vec<usize> = Vec::new();
    let mut i: usize = 0;
    while i < n
        invariant
            i <= n,
            v@.len() == i,
            forall|j: int| 0 <= j < i ==> (#[trigger] v@[j]) as int == j,
        decreases n - i,
    {
        v.push(i);
        i += 1;
    }
    proof {
        assert(v@ =~= identity_order(n as int));
    }
    v
}

/// Comparing two keys made of a high part scaled by a radix plus a low part
/// below the radix is exactly the lexicographic comparison of the parts.
pub proof fn lemma_key_parts(hi1: int, lo1: int, hi2: int, lo2: int, radix: int)
    requires
        0 <= lo1 < radix,
        0 <= lo2 < radix,
        0 <= hi1,
        0 <= hi2,
    ensures
        (hi1 * radix + lo1 <= hi2 * radix + lo2) <==> (hi1 < hi2 || (hi1 == hi2 && lo1 <= lo2)),
        (hi1 * radix + lo1 == hi2 * radix + lo2) <==> (hi1 == hi2 && lo1 == lo2),
{
    assert((hi1 * radix + lo1 <= hi2 * radix + lo2) <==> (hi1 < hi2 || (hi1 == hi2 && lo1
        <= lo2))) by (nonlinear_arith)
        requires
            0 <= lo1 < radix,
            0 <= lo2 < radix,
            0 <= hi1,
            0 <= hi2,
    ;
    assert((hi1 * radix + lo1 == hi2 * radix + lo2) <==> (hi1 == hi2 && lo1 == lo2))
        by (nonlinear_arith)
        requires
            0 <= lo1 < radix,
            0 <= lo2 < radix,
            0 <= hi1,
            0 <= hi2,
    ;
}

/// Sorts `order` in place so that the keys of its entries never decrease.
/// The entries themselves are only rearranged: the multiset of indices is
/// unchanged.
pub(crate) fn sort_by_key(keys: &Vec<u128>, order: &mut Vec<usize>)
    requires
        forall|i: int| 0 <= i < old(order)@.len() ==> (#[trigger] old(order)@[i]) < keys@.len(),
    ensures
        final(order)@.to_multiset() == old(order)@.to_multiset(),
        final(order)@.len() == old(order)@.len(),
        forall|i: int| 0 <= i < final(order)@.len() ==> (#[trigger] final(order)@[i]) < keys@.len(),
        forall|i: int, j: int|
            0 <= i < j < final(order)@.len() ==> keys@[final(order)@[i] as int]
                <= keys@[final(order)@[j] as int],
{
    broadcast use group_to_multiset_ensures;
    broadcast use group_multiset_axioms;

    let ghost orig: Seq<usize> = order@;
    let mut result: Vec<usize> = Vec::new();
    while order.len() > 0
        invariant
            forall|i: int| 0 <= i < order@.len() ==> (#[trigger] order@[i]) < keys@.len(),
            forall|i: int| 0 <= i < result@.len() ==> (#[trigger] result@[i]) < keys@.len(),
            result@.to_multiset().add(order@.to_multiset()) == orig.to_multiset(),
            result@.len() + order@.len() == orig.len(),
            forall|i: int, j: int|
                0 <= i < j < result@.len() ==> keys@[result@[i] as int] <= keys@[result@[j] as int],
            forall|i: int, j: int|
                0 <= i < result@.len() && 0 <= j < order@.len() ==> keys@[result@[i] as int]
                    <= keys@[order@[j] as int],
        decreases order@.len(),
    {
        let mut m: usize = 0;
        let mut t: usize = 1;
        while t < order.len()
            invariant
                0 < order@.len(),
                m < t,
                1 <= t <= order@.len(),
                forall|i: int| 0 <= i < order@.len() ==> (#[trigger] order@[i]) < keys@.len(),
                forall|q: int| 0 <= q < t ==> keys@[order@[m as int] as int] <= keys@[order@[q] as int],
            decreases order@.len() - t,
        {
            if keys[order[t]] < keys[order[m]] {
                m = t;
            }
            t += 1;
        }
        let ghost prev: Seq<usize> = order@;
        let ghost prev_result: Seq<usize> = result@;
        let x = order.remove(m);
        result.push(x);
        proof {
            broadcast use group_multiset_axioms;

            assert forall|j: int| 0 <= j < order@.len() implies (#[trigger] order@[j])
                == prev[if j < m { j } else { j + 1 }] by {
                assert(order@ == prev.subrange(0, m as int) + prev.subrange(
                    m as int + 1,
                    prev.len() as int,
                ));
            }
            assert(prev[m as int] == x);
            assert(prev.contains(x));
            prev.to_multiset_ensures();
            assert(prev.to_multiset().count(x) > 0);
            assert(order@ == prev.remove(m as int));
            vstd::seq_lib::to_multiset_remove(prev, m as int);
            assert(order@.to_multiset() == prev.to_multiset().remove(x));
            vstd::seq_lib::to_multiset_build(prev_result, x);
            assert(result@ == prev_result.push(x));
            assert(result@.to_multiset() == prev_result.to_multiset().insert(x));
            assert(prev_result.to_multiset().insert(x).add(prev.to_multiset().remove(x))
                =~= prev_result.to_multiset().add(prev.to_multiset()));
        }
    }
    proof {
        broadcast use group_multiset_axioms;

        order@.to_multiset_ensures();
        assert(order@.to_multiset() =~= Multiset::<usize>::empty());
        assert(result@.to_multiset().add(Multiset::<usize>::empty()) =~= result@.to_multiset());
    }
    *order = result;
}

/// Two candidate orders sorted by the same injective key are the same order.
pub proof fn lemma_key_sorted_orders_equal(
    n: int,
    key: spec_fn(usize) -> int,
    ord1: Seq<usize>,
    ord2: Seq<usize>,
)
    requires
        0 <= n <= usize::MAX,
        is_candidate_order(ord1, n),
        is_candidate_order(ord2, n),
        key_sorted(ord1, key),
        key_sorted(ord2, key),
        forall|a: usize, b: usize| #[trigger] key(a) == #[trigger] key(b) ==> a == b,
    ensures
        ord1 == ord2,
{
    let leq = |a: usize, b: usize| key(a) <= key(b);
    assert(reflexive(leq)) by {
        assert(forall|x: usize| #[trigger] leq(x, x));
    }
    assert(antisymmetric(leq)) by {
        assert forall|x: usize, y: usize| #[trigger] leq(x, y) && #[trigger] leq(y, x) implies x
            == y by {
            assert(key(x) == key(y));
        }
    }
    assert(transitive(leq)) by {
        assert(forall|x: usize, y: usize, z: usize|
            #[trigger] leq(x, y) && #[trigger] leq(y, z) ==> leq(x, z));
    }
    assert(strongly_connected(leq)) by {
        assert(forall|x: usize, y: usize| #[trigger] leq(x, y) || #[trigger] leq(y, x));
    }
    assert(total_ordering(leq));
    assert(sorted_by(ord1, leq)) by {
        assert(forall|i: int, j: int| 0 <= i < j < ord1.len() ==> #[trigger] leq(ord1[i], ord1[j]));
    }
    assert(sorted_by(ord2, leq)) by {
        assert(forall|i: int, j: int| 0 <= i < j < ord2.len() ==> #[trigger] leq(ord2[i], ord2[j]));
    }
    lemma_sorted_unique(ord1, ord2, leq);
    assert(ord1 =~= ord2);
}

} // verus!
