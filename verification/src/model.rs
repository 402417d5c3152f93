//! The mathematical model that the contracts speak of: sums of value, weight
//! and effective value over a sequence of selected indices, and what it means
//! for a sequence to be an ordering of the whole candidate list.

use vstd::prelude::*;
use vstd::seq_lib::group_to_multiset_ensures;
use crate::cost::effective_value_of;
use crate::types::OutputGroup;

verus! {

/// Sum of `value` over the candidates picked by `sel`, read against `inputs`.
pub open spec fn sum_value(inputs: Seq<OutputGroup>, sel: Seq<usize>) -> int
    decreases sel.len(),
{
    if sel.len() == 0 {
        0
    } else {
        sum_value(inputs, sel.drop_last()) + inputs[sel.last() as int].value
    }
}

/// Sum of `weight` over the candidates picked by `sel`.
pub open spec fn sum_weight(inputs: Seq<OutputGroup>, sel: Seq<usize>) -> int
    decreases sel.len(),
{
    if sel.len() == 0 {
        0
    } else {
        sum_weight(inputs, sel.drop_last()) + inputs[sel.last() as int].weight
    }
}

/// Sum of effective value at `rate` over the candidates picked by `sel`.
pub open spec fn sum_effective(inputs: Seq<OutputGroup>, sel: Seq<usize>, rate: int) -> int
    decreases sel.len(),
{
    if sel.len() == 0 {
        0
    } else {
        sum_effective(inputs, sel.drop_last(), rate) + effective_value_of(
            inputs[sel.last() as int],
            rate,
        )
    }
}

/// Every summand is a `u64` (or `u32`) value, so each sum is non-negative and
/// at most the length of the selection times the largest summand.
pub proof fn lemma_sum_bounds(inputs: Seq<OutputGroup>, sel: Seq<usize>, rate: int)
    requires
        0 <= rate,
    ensures
        0 <= sum_value(inputs, sel) <= sel.len() * (u64::MAX as int),
        0 <= sum_weight(inputs, sel) <= sel.len() * (u32::MAX as int),
        0 <= sum_effective(inputs, sel, rate) <= sel.len() * (u64::MAX as int),
        sum_effective(inputs, sel, rate) <= sum_value(inputs, sel),
    decreases sel.len(),
{
    if sel.len() == 0 {
    } else {
        lemma_sum_bounds(inputs, sel.drop_last(), rate);
        let g = inputs[sel.last() as int];
        assert(g.weight as int * rate >= 0) by (nonlinear_arith)
            requires
                0 <= rate,
        ;
        vstd::arithmetic::div_mod::lemma_div_pos_is_pos(g.weight as int * rate + 999, 1000);
        assert(effective_value_of(g, rate) <= g.value);
        assert((sel.len() - 1) * (u64::MAX as int) + u64::MAX as int == sel.len() * (
        u64::MAX as int)) by (nonlinear_arith);
        assert((sel.len() - 1) * (u32::MAX as int) + u32::MAX as int == sel.len() * (
        u32::MAX as int)) by (nonlinear_arith);
    }
}

/// Extending a selection by one index extends each sum by that candidate's
/// contribution.
pub proof fn lemma_sum_take_step(inputs: Seq<OutputGroup>, sel: Seq<usize>, p: int, rate: int)
    requires
        0 <= p < sel.len(),
    ensures
        sum_value(inputs, sel.take(p + 1)) == sum_value(inputs, sel.take(p)) + inputs[sel[p] as int].value,
        sum_weight(inputs, sel.take(p + 1)) == sum_weight(inputs, sel.take(p)) + inputs[sel[p] as int].weight,
        sum_effective(inputs, sel.take(p + 1), rate) == sum_effective(inputs, sel.take(p), rate)
            + effective_value_of(inputs[sel[p] as int], rate),
{
    assert(sel.take(p + 1).drop_last() =~= sel.take(p));
    assert(sel.take(p + 1).last() == sel[p]);
}

/// Pushing one index onto a selection extends each sum by that candidate's
/// contribution.
pub proof fn lemma_sum_push(inputs: Seq<OutputGroup>, sel: Seq<usize>, x: usize, rate: int)
    ensures
        sum_value(inputs, sel.push(x)) == sum_value(inputs, sel) + inputs[x as int].value,
        sum_weight(inputs, sel.push(x)) == sum_weight(inputs, sel) + inputs[x as int].weight,
        sum_effective(inputs, sel.push(x), rate) == sum_effective(inputs, sel, rate)
            + effective_value_of(inputs[x as int], rate),
{
    assert(sel.push(x).drop_last() =~= sel);
    assert(sel.push(x).last() == x);
}

/// Sum of `value` over the whole candidate list.
pub open spec fn total_value(inputs: Seq<OutputGroup>) -> int
    decreases inputs.len(),
{
    if inputs.len() == 0 {
        0
    } else {
        total_value(inputs.drop_last()) + inputs.last().value
    }
}

/// Sum of `weight` over the whole candidate list.
pub open spec fn total_weight(inputs: Seq<OutputGroup>) -> int
    decreases inputs.len(),
{
    if inputs.len() == 0 {
        0
    } else {
        total_weight(inputs.drop_last()) + inputs.last().weight
    }
}

/// Removing one index from a selection removes exactly its candidate's
/// contribution from each sum.
pub proof fn lemma_sum_remove(inputs: Seq<OutputGroup>, sel: Seq<usize>, i: int)
    requires
        0 <= i < sel.len(),
    ensures
        sum_value(inputs, sel) == sum_value(inputs, sel.remove(i)) + inputs[sel[i] as int].value,
        sum_weight(inputs, sel) == sum_weight(inputs, sel.remove(i)) + inputs[sel[i] as int].weight,
    decreases sel.len(),
{
    if i == sel.len() - 1 {
        assert(sel.remove(i) =~= sel.drop_last());
    } else {
        assert(sel.remove(i).drop_last() =~= sel.drop_last().remove(i));
        assert(sel.remove(i).last() == sel.last());
        lemma_sum_remove(inputs, sel.drop_last(), i);
    }
}

/// A well-formed selection result: the indices are unique and each one is a
/// valid position in the candidate list.
pub open spec fn valid_indices(inputs: Seq<OutputGroup>, sel: Seq<usize>) -> bool {
    &&& sel.no_duplicates()
    &&& forall|i: int| 0 <= i < sel.len() ==> (#[trigger] sel[i]) < inputs.len()
}

/// A prefix of a well-formed selection is well-formed.
pub proof fn lemma_valid_indices_take(inputs: Seq<OutputGroup>, sel: Seq<usize>, k: int)
    requires
        valid_indices(inputs, sel),
        0 <= k <= sel.len(),
    ensures
        valid_indices(inputs, sel.take(k)),
{
    assert forall|i: int, j: int|
        0 <= i < sel.take(k).len() && 0 <= j < sel.take(k).len() && i != j implies sel.take(k)[i]
        != sel.take(k)[j] by {
        assert(sel.take(k)[i] == sel[i]);
        assert(sel.take(k)[j] == sel[j]);
    }
}

/// The sequence `0, 1, ..., n - 1` of candidate indices.
pub open spec fn identity_order(n: int) -> Seq<usize> {
    Seq::new(n as nat, |i: int| i as usize)
}

/// `ord` lists every index of an `n`-candidate list exactly once, in some
/// order: it is a permutation of `0, 1, ..., n - 1`.
pub open spec fn is_candidate_order(ord: Seq<usize>, n: int) -> bool {
    ord.to_multiset() == identity_order(n).to_multiset()
}

/// What being a candidate order gives: the right length, no duplicates, every
/// entry in range, and every index present.
pub proof fn lemma_candidate_order_props(ord: Seq<usize>, n: int)
    requires
        0 <= n <= usize::MAX,
        is_candidate_order(ord, n),
    ensures
        ord.len() == n,
        ord.no_duplicates(),
        forall|i: int| 0 <= i < ord.len() ==> #[trigger] ord[i] < n,
        forall|v: usize| v < n <==> ord.contains(v),
{
    broadcast use group_to_multiset_ensures;

    let idseq = identity_order(n);
    assert(idseq.len() == n);
    assert(idseq.no_duplicates());
    assert(ord.len() == ord.to_multiset().len());
    assert(idseq.len() == idseq.to_multiset().len());
    idseq.lemma_multiset_has_no_duplicates();
    assert(forall|x: usize| ord.to_multiset().contains(x) ==> ord.to_multiset().count(x) == 1);
    ord.lemma_multiset_has_no_duplicates_conv();
    assert forall|v: usize| v < n implies ord.contains(v) by {
        assert(idseq[v as int] == v);
        assert(idseq.contains(v));
        assert(idseq.to_multiset().count(v) > 0);
        assert(ord.to_multiset().count(v) > 0);
    }
    assert forall|v: usize| ord.contains(v) implies v < n by {
        assert(ord.to_multiset().count(v) > 0);
        assert(idseq.to_multiset().count(v) > 0);
        assert(idseq.contains(v));
        let i = choose|i: int| 0 <= i < idseq.len() && idseq[i] == v;
        assert(idseq[i] == i as usize);
    }
    assert forall|i: int| 0 <= i < ord.len() implies #[trigger] ord[i] < n by {
        assert(ord.contains(ord[i]));
    }
}

/// Summing over the whole candidate list in any order gives the same totals:
/// a candidate order's value and weight sums are the list's own.
pub proof fn lemma_sum_over_candidate_order(inputs: Seq<OutputGroup>, ord: Seq<usize>, n: int)
    requires
        0 <= n <= usize::MAX,
        n <= inputs.len(),
        is_candidate_order(ord, n),
    ensures
        sum_value(inputs, ord) == total_value(inputs.take(n)),
        sum_weight(inputs, ord) == total_weight(inputs.take(n)),
    decreases n,
{
    broadcast use group_to_multiset_ensures;
    broadcast use vstd::multiset::group_multiset_axioms;

    lemma_candidate_order_props(ord, n);
    if n == 0 {
        assert(ord.len() == 0);
        assert(inputs.take(0) =~= Seq::<OutputGroup>::empty());
    } else {
        let last_idx: usize = (n - 1) as usize;
        assert(ord.contains(last_idx));
        let pos = choose|p: int| 0 <= p < ord.len() && ord[p] == last_idx;
        lemma_sum_remove(inputs, ord, pos);
        let ord2 = ord.remove(pos);
        vstd::seq_lib::to_multiset_remove(ord, pos);
        assert(identity_order(n - 1).push(last_idx) =~= identity_order(n));
        vstd::seq_lib::to_multiset_build(identity_order(n - 1), last_idx);
        assert(ord2.to_multiset() =~= identity_order(n - 1).to_multiset());
        assert(is_candidate_order(ord2, n - 1));
        lemma_sum_over_candidate_order(inputs, ord2, n - 1);
        assert(inputs.take(n).drop_last() =~= inputs.take(n - 1));
        assert(inputs.take(n).last() == inputs[n - 1]);
    }
}

} // verus!
