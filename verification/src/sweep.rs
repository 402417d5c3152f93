//! The accumulation sweep shared by the heuristic selectors: walk the
//! candidates in a given order, keep a running value and weight, and stop at
//! the first prefix whose value clears the threshold of target, minimum drain
//! value and fee floor.

use vstd::prelude::*;
use crate::cost::fee_of;
use crate::cost::fee_wide;
use crate::model::is_candidate_order;
use crate::model::lemma_candidate_order_props;
use crate::model::lemma_sum_bounds;
use crate::model::lemma_sum_over_candidate_order;
use crate::model::lemma_sum_take_step;
use crate::model::sum_value;
use crate::model::sum_weight;
use crate::model::total_value;
use crate::model::total_weight;
use crate::types::CoinSelectionOpt;
use crate::types::OutputGroup;
use crate::types::SelectionOutput;
use crate::types::WasteMetric;
use crate::waste::calculate_waste;
use crate::waste::waste_of;

verus! {

/// The larger of two mathematical integers.
pub open spec fn max_int(a: int, b: int) -> int {
    if a >= b {
        a
    } else {
        b
    }
}

/// The value a sweep must accumulate, given the weight accumulated so far:
/// the target, plus the smallest worthwhile drain output, plus the fee on the
/// accumulated weight (and any fixed extra weight), floored by the minimum
/// absolute fee.
pub open spec fn sweep_threshold(opt: CoinSelectionOpt, extra_weight: int, acc_weight: int) -> int {
    opt.target_value + opt.min_drain_value + max_int(
        fee_of(extra_weight + acc_weight, opt.target_feerate.per_kwu as int),
        opt.min_absolute_fee as int,
    )
}

/// The prefix `ord[0..=p]` accumulates enough value to clear the threshold
/// recomputed from that prefix's own weight.
pub open spec fn prefix_satisfies(
    inputs: Seq<OutputGroup>,
    ord: Seq<usize>,
    opt: CoinSelectionOpt,
    extra_weight: int,
    p: int,
) -> bool {
    sum_value(inputs, ord.take(p + 1)) >= sweep_threshold(
        opt,
        extra_weight,
        sum_weight(inputs, ord.take(p + 1)),
    )
}

/// Even the whole candidate list, with its whole weight charged, cannot
/// reach the sweep threshold (vacuous for an empty list, which trivially
/// cannot cover anything).
pub open spec fn candidates_cannot_cover(
    inputs: Seq<OutputGroup>,
    opt: CoinSelectionOpt,
    extra_weight: int,
) -> bool {
    inputs.len() == 0 || total_value(inputs) < sweep_threshold(
        opt,
        extra_weight,
        total_weight(inputs),
    )
}

/// A failed sweep over a full candidate order says something about the
/// candidate list itself, whatever the order was: even the whole list's
/// value stays below the threshold its whole weight incurs.
pub proof fn lemma_exhausted_order_bounds_total(
    inputs: Seq<OutputGroup>,
    ord: Seq<usize>,
    opt: CoinSelectionOpt,
    extra_weight: int,
)
    requires
        0 < inputs.len() <= usize::MAX,
        is_candidate_order(ord, inputs.len() as int),
        forall|p: int|
            0 <= p < ord.len() ==> !(#[trigger] prefix_satisfies(inputs, ord, opt, extra_weight, p)),
    ensures
        total_value(inputs) < sweep_threshold(opt, extra_weight, total_weight(inputs)),
{
    let n = inputs.len() as int;
    lemma_candidate_order_props(ord, n);
    assert(!prefix_satisfies(inputs, ord, opt, extra_weight, n - 1));
    assert(ord.take(n) =~= ord);
    lemma_sum_over_candidate_order(inputs, ord, n);
    assert(inputs.take(n) =~= inputs);
}

/// What a successful heuristic selection promises, relative to the candidate
/// order its sweep walked: the selected indices are the shortest satisfying
/// prefix of that order, and the reported waste is computed from the sums of
/// the selected candidates' values and weights and the fee those weights
/// incur.
pub open spec fn sweep_selection_ok(
    inputs: Seq<OutputGroup>,
    opt: CoinSelectionOpt,
    extra_weight: int,
    ord: Seq<usize>,
    out: SelectionOutput,
) -> bool {
    let p = out.selected_inputs@.len() - 1;
    &&& 0 <= p < ord.len()
    &&& out.selected_inputs@ == ord.take(p + 1)
    &&& prefix_satisfies(inputs, ord, opt, extra_weight, p)
    &&& (forall|q: int| 0 <= q < p ==> !prefix_satisfies(inputs, ord, opt, extra_weight, q))
    &&& out.waste.0 as int == waste_of(
        opt,
        sum_value(inputs, out.selected_inputs@),
        sum_weight(inputs, out.selected_inputs@),
        fee_of(sum_weight(inputs, out.selected_inputs@), opt.target_feerate.per_kwu as int),
    )
}

/// Wraps a satisfying sweep prefix into a selection output, scoring it with
/// the waste of the accumulated value and weight at the fee they incur.
pub(crate) fn finish_selection(
    inputs: &Vec<OutputGroup>,
    opt: &CoinSelectionOpt,
    selected: Vec<usize>,
    acc_v: u128,
    acc_w: u128,
) -> (out: SelectionOutput)
    ensures
        out.selected_inputs@ == selected@,
        out.waste.0 as int == waste_of(
            *opt,
            acc_v as int,
            acc_w as int,
            fee_of(acc_w as int, opt.target_feerate.per_kwu as int),
        ),
{
    let estimated_fee = fee_wide(acc_w, opt.target_feerate);
    let waste = calculate_waste(inputs, &selected, opt, acc_v, acc_w, estimated_fee);
    SelectionOutput { selected_inputs: selected, waste: WasteMetric(waste) }
}

/// Walks `order` accumulating value and weight, recomputing the fee from the
/// running weight at each step, and returns the first satisfying prefix (with
/// its accumulated value and weight), or `None` when no prefix of the whole
/// order satisfies.
pub(crate) fn run_sweep(
    inputs: &Vec<OutputGroup>,
    order: &Vec<usize>,
    opt: &CoinSelectionOpt,
    extra_weight: u32,
) -> (r: Option<(Vec<usize>, u128, u128)>)
    requires
        forall|i: int| 0 <= i < order@.len() ==> (#[trigger] order@[i]) < inputs@.len(),
    ensures
        match r {
            Option::Some(t) => {
                let p = t.0@.len() - 1;
                &&& 0 <= p < order@.len()
                &&& t.0@ == order@.take(p + 1)
                &&& t.1 as int == sum_value(inputs@, t.0@)
                &&& t.2 as int == sum_weight(inputs@, t.0@)
                &&& prefix_satisfies(inputs@, order@, *opt, extra_weight as int, p)
                &&& forall|q: int|
                    0 <= q < p ==> !prefix_satisfies(inputs@, order@, *opt, extra_weight as int, q)
            },
            Option::None => forall|q: int|
                0 <= q < order@.len() ==> !prefix_satisfies(
                    inputs@,
                    order@,
                    *opt,
                    extra_weight as int,
                    q,
                ),
        },
{
    let mut selected: Vec<usize> = Vec::new();
    let mut acc_v: u128 = 0;
    let mut acc_w: u128 = 0;
    let n = order.len();
    let mut i: usize = 0;
    while i < n
        invariant
            i <= n,
            n == order@.len(),
            forall|k: int| 0 <= k < order@.len() ==> (#[trigger] order@[k]) < inputs@.len(),
            selected@ == order@.take(i as int),
            acc_v as int == sum_value(inputs@, selected@),
            acc_w as int == sum_weight(inputs@, selected@),
            forall|q: int|
                0 <= q < i ==> !prefix_satisfies(inputs@, order@, *opt, extra_weight as int, q),
        decreases n - i,
    {
        let idx = order[i];
        let g = inputs[idx];
        proof {
            lemma_sum_bounds(inputs@, selected@, 0);
            lemma_sum_take_step(inputs@, order@, i as int, 0);
            assert(order@.take(i as int).push(idx) =~= order@.take(i as int + 1));
            assert(acc_v as int <= i as int * (u64::MAX as int));
            assert(i as int * (u64::MAX as int) + (u64::MAX as int) == (i as int + 1) * (
            u64::MAX as int)) by (nonlinear_arith);
            assert((i as int + 1) * (u64::MAX as int) <= (u64::MAX as int) * (u64::MAX as int))
                by (nonlinear_arith)
                requires
                    0 <= i,
                    i as int + 1 <= u64::MAX as int,
            ;
            assert((u64::MAX as int) * (u64::MAX as int) < u128::MAX as int) by (nonlinear_arith);
            assert(acc_w as int <= i as int * (u32::MAX as int));
            assert(i as int * (u32::MAX as int) + (u32::MAX as int) == (i as int + 1) * (
            u32::MAX as int)) by (nonlinear_arith);
            assert((i as int + 1) * (u32::MAX as int) <= (u64::MAX as int) * (u32::MAX as int))
                by (nonlinear_arith)
                requires
                    0 <= i,
                    i as int + 1 <= u64::MAX as int,
            ;
            assert((u64::MAX as int) * (u32::MAX as int) < u128::MAX as int) by (nonlinear_arith);
        }
        selected.push(idx);
        acc_v = acc_v + g.value as u128;
        acc_w = acc_w + g.weight as u128;
        let fee = fee_wide(extra_weight as u128 + acc_w, opt.target_feerate);
        let floor = if fee >= opt.min_absolute_fee {
            fee
        } else {
            opt.min_absolute_fee
        };
        let threshold: u128 = opt.target_value as u128 + opt.min_drain_value as u128
            + floor as u128;
        if acc_v >= threshold {
            return Some((selected, acc_v, acc_w));
        }
        i += 1;
    }
    None
}

} // verus!
