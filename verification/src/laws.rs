//! General properties of the engine, stated and proved once, over the same
//! spec functions the selectors' contracts use.

use vstd::prelude::*;
use crate::cost::effective_value_of;
use crate::fifo::fifo_insufficient;
use crate::fifo::is_fifo_order;
use crate::lowest_larger::is_ll_order;
use crate::lowest_larger::is_partition_point;
use crate::lowest_larger::ll_insufficient;
use crate::lowest_larger::ll_target;
use crate::lowest_larger::ll_walk;
use crate::model::sum_value;
use crate::model::sum_weight;
use crate::srd::srd_order_exhausted;
use crate::sweep::prefix_satisfies;
use crate::sweep::sweep_selection_ok;
use crate::sweep::sweep_threshold;
use crate::types::CoinSelectionOpt;
use crate::types::OutputGroup;
use crate::types::SelectionOutput;
use crate::waste::excess_cost;
use crate::waste::longterm_cost;
use crate::waste::waste_of;

verus! {

/// The two option sets agree on everything but the target value.
pub open spec fn same_but_target(opt1: CoinSelectionOpt, opt2: CoinSelectionOpt) -> bool {
    opt2 == (CoinSelectionOpt { target_value: opt2.target_value, ..opt1 })
}

/// Raising the target never helps a sweep: a prefix of a given candidate
/// order that fails to clear the threshold for a target keeps failing for
/// every larger target, all other options unchanged.
pub proof fn lemma_sweep_insufficiency_monotonic(
    inputs: Seq<OutputGroup>,
    ord: Seq<usize>,
    opt1: CoinSelectionOpt,
    opt2: CoinSelectionOpt,
    extra_weight: int,
)
    requires
        same_but_target(opt1, opt2),
        opt1.target_value <= opt2.target_value,
        forall|p: int|
            0 <= p < ord.len() ==> !(#[trigger] prefix_satisfies(inputs, ord, opt1, extra_weight, p)),
    ensures
        forall|p: int|
            0 <= p < ord.len() ==> !(#[trigger] prefix_satisfies(inputs, ord, opt2, extra_weight, p)),
{
    assert forall|p: int| 0 <= p < ord.len() implies !(#[trigger] prefix_satisfies(
        inputs,
        ord,
        opt2,
        extra_weight,
        p,
    )) by {
        assert(!prefix_satisfies(inputs, ord, opt1, extra_weight, p));
        let w = sum_weight(inputs, ord.take(p + 1));
        assert(sweep_threshold(opt2, extra_weight, w) - sweep_threshold(opt1, extra_weight, w)
            == opt2.target_value - opt1.target_value);
    }
}

/// Monotonic insufficiency of FIFO selection: if the age-ordered sweep
/// cannot reach its threshold for a target, it cannot for any larger target
/// either, all other options unchanged.
pub proof fn lemma_fifo_insufficiency_monotonic(
    inputs: Seq<OutputGroup>,
    opt1: CoinSelectionOpt,
    opt2: CoinSelectionOpt,
)
    requires
        same_but_target(opt1, opt2),
        opt1.target_value <= opt2.target_value,
        fifo_insufficient(inputs, opt1),
    ensures
        fifo_insufficient(inputs, opt2),
{
    assert forall|ord: Seq<usize>, p: int|
        is_fifo_order(inputs, ord) && 0 <= p < ord.len() implies !(#[trigger] prefix_satisfies(
        inputs,
        ord,
        opt2,
        0,
        p,
    )) by {
        assert forall|q: int| 0 <= q < ord.len() implies !(#[trigger] prefix_satisfies(
            inputs,
            ord,
            opt1,
            0,
            q,
        )) by {
            assert(is_fifo_order(inputs, ord) && 0 <= q < ord.len());
        }
        lemma_sweep_insufficiency_monotonic(inputs, ord, opt1, opt2, 0);
    }
}

/// Monotonic insufficiency of single random draw, for a fixed drawn order:
/// if no prefix of that order clears the threshold for a target, none does
/// for any larger target, all other options unchanged.  (A fresh call draws
/// a fresh order; the property is about the sweep itself.)
pub proof fn lemma_srd_insufficiency_monotonic(
    inputs: Seq<OutputGroup>,
    ord: Seq<usize>,
    opt1: CoinSelectionOpt,
    opt2: CoinSelectionOpt,
)
    requires
        same_but_target(opt1, opt2),
        opt1.target_value <= opt2.target_value,
        srd_order_exhausted(inputs, opt1, ord),
    ensures
        srd_order_exhausted(inputs, opt2, ord),
{
    lemma_sweep_insufficiency_monotonic(inputs, ord, opt1, opt2, opt1.base_weight as int);
}

/// Monotonic insufficiency of lowest-larger selection, provided no
/// candidate's effective value lies strictly between the two targets (so
/// the two-phase split of the sorted order is the same for both).  Without
/// that proviso the property does not hold: raising the target can move a
/// large candidate from the strictly-larger group into the at-or-below
/// group, where phase one visits it first.
pub proof fn lemma_ll_insufficiency_monotonic(
    inputs: Seq<OutputGroup>,
    opt1: CoinSelectionOpt,
    opt2: CoinSelectionOpt,
)
    requires
        inputs.len() <= usize::MAX,
        same_but_target(opt1, opt2),
        opt1.target_value <= opt2.target_value,
        forall|i: int|
            0 <= i < inputs.len() ==> ((#[trigger] effective_value_of(
                inputs[i],
                opt1.target_feerate.per_kwu as int,
            )) <= ll_target(opt1) <==> effective_value_of(
                inputs[i],
                opt1.target_feerate.per_kwu as int,
            ) <= ll_target(opt2)),
        ll_insufficient(inputs, opt1),
    ensures
        ll_insufficient(inputs, opt2),
{
    let rate = opt1.target_feerate.per_kwu as int;
    assert forall|ord: Seq<usize>, k: int, p: int|
        is_ll_order(inputs, opt2.target_feerate.per_kwu as int, ord) && is_partition_point(
            inputs,
            opt2.target_feerate.per_kwu as int,
            ll_target(opt2),
            ord,
            k,
        ) && 0 <= p < ll_walk(ord, k).len() implies !(#[trigger] prefix_satisfies(
        inputs,
        ll_walk(ord, k),
        opt2,
        0,
        p,
    )) by {
        crate::model::lemma_candidate_order_props(ord, inputs.len() as int);
        assert(is_partition_point(inputs, rate, ll_target(opt1), ord, k));
        assert forall|q: int| 0 <= q < ll_walk(ord, k).len() implies !(
        #[trigger] prefix_satisfies(inputs, ll_walk(ord, k), opt1, 0, q)) by {
            assert(is_ll_order(inputs, rate, ord) && is_partition_point(
                inputs,
                rate,
                ll_target(opt1),
                ord,
                k,
            ) && 0 <= q < ll_walk(ord, k).len());
        }
        lemma_sweep_insufficiency_monotonic(inputs, ll_walk(ord, k), opt1, opt2, 0);
    }
}

/// The waste metric is non-negative and representable: for any selection
/// with a non-negative accumulated weight it lies in `[0, u64::MAX]`.
pub proof fn lemma_waste_nonnegative(
    opt: CoinSelectionOpt,
    acc_value: int,
    acc_weight: int,
    est_fee: int,
)
    requires
        0 <= acc_weight,
    ensures
        0 <= waste_of(opt, acc_value, acc_weight, est_fee) <= u64::MAX as int,
{
    assert(0 <= longterm_cost(opt, acc_weight)) by {
        match opt.long_term_feerate {
            Option::Some(lt) => {
                if opt.target_feerate.per_kwu > lt.per_kwu {
                    let d = opt.target_feerate.per_kwu - lt.per_kwu;
                    assert(acc_weight * d >= 0) by (nonlinear_arith)
                        requires
                            0 <= acc_weight,
                            0 <= d,
                    ;
                    vstd::arithmetic::div_mod::lemma_div_pos_is_pos(acc_weight * d + 999, 1000);
                }
            },
            Option::None => {},
        }
    }
    assert(0 <= excess_cost(opt, acc_value, est_fee));
}

/// A successful heuristic selection really clears its threshold: the sum of
/// the selected candidates' values, read against the original candidate
/// list, is at least the target plus the minimum drain value plus the fee
/// floor recomputed from the selected candidates' summed weight.
pub proof fn lemma_selection_meets_threshold(
    inputs: Seq<OutputGroup>,
    opt: CoinSelectionOpt,
    extra_weight: int,
    ord: Seq<usize>,
    out: SelectionOutput,
)
    requires
        sweep_selection_ok(inputs, opt, extra_weight, ord, out),
    ensures
        sum_value(inputs, out.selected_inputs@) >= sweep_threshold(
            opt,
            extra_weight,
            sum_weight(inputs, out.selected_inputs@),
        ),
{
    let p = out.selected_inputs@.len() - 1;
    assert(prefix_satisfies(inputs, ord, opt, extra_weight, p));
    assert(out.selected_inputs@ == ord.take(p + 1));
}

} // verus!
