//! Branch-and-bound selection: a randomized depth-first search over the
//! candidates sorted by descending value, looking for a subset whose
//! accumulated effective value lands inside a narrow acceptance window above
//! the target, so that no change output is needed at all.

use vstd::prelude::*;
use vstd::arithmetic::mul::lemma_mul_inequality;
use vstd::arithmetic::power2::lemma2_to64;
use vstd::arithmetic::power2::lemma_pow2_pos;
use vstd::arithmetic::power2::lemma_pow2_strictly_increases;
use vstd::arithmetic::power2::lemma_pow2_unfold;
use vstd::arithmetic::power2::pow2;
use crate::cost::calculate_fee;
use crate::cost::effective_value;
use crate::cost::effective_value_of;
use crate::cost::fee_of;
use crate::model::is_candidate_order;
use crate::model::lemma_candidate_order_props;
use crate::model::lemma_sum_bounds;
use crate::model::lemma_sum_push;
use crate::model::lemma_sum_take_step;
use crate::model::sum_effective;
use crate::model::sum_value;
use crate::model::sum_weight;
use crate::model::valid_indices;
use crate::ordering::key_sorted;
use crate::ordering::lemma_key_parts;
use crate::ordering::lemma_key_sorted_orders_equal;
use crate::ordering::make_identity_order;
use crate::ordering::sort_by_key;
use crate::random_source::coin_flip;
use crate::sweep::finish_selection;
use crate::types::CoinSelectionOpt;
use crate::types::FeeRate;
use crate::types::OutputGroup;
use crate::types::SelectionError;
use crate::types::SelectionOutput;
use crate::waste::waste_of;

verus! {

/// The centre of the acceptance window: the target, plus the fee of the
/// transaction skeleton, plus the cost of one output.
pub open spec fn bnb_target_for_match(opt: CoinSelectionOpt) -> int {
    opt.target_value + fee_of(opt.base_weight as int, opt.target_feerate.per_kwu as int)
        + opt.cost_per_output
}

/// The width of the acceptance window above its centre: the tolerated
/// overshoot of one input's and one output's marginal cost.
pub open spec fn bnb_match_range(opt: CoinSelectionOpt) -> int {
    opt.cost_per_input + opt.cost_per_output
}

/// The branch-and-bound sort key of candidate `i`: descending by value, the
/// original index as the tie-break.
pub open spec fn bnb_key(inputs: Seq<OutputGroup>, i: usize) -> int {
    (u64::MAX - inputs[i as int].value) * 0x1_0000_0000_0000_0000 + i
}

/// The value-sorted candidate order that the search explores: descending by
/// value, the original index as the tie-break.
pub open spec fn is_bnb_order(inputs: Seq<OutputGroup>, ord: Seq<usize>) -> bool {
    &&& is_candidate_order(ord, inputs.len() as int)
    &&& key_sorted(ord, |x: usize| bnb_key(inputs, x))
}

/// Whether some subset of the candidates at positions `depth` onwards of
/// `order` can extend an accumulated effective value `acc` into the window
/// `[lo, hi]`: the existence of a solution below one node of the search
/// tree.
pub open spec fn has_window_match(
    inputs: Seq<OutputGroup>,
    order: Seq<usize>,
    rate: int,
    depth: int,
    acc: int,
    lo: int,
    hi: int,
) -> bool
    decreases order.len() - depth,
{
    if depth < 0 || depth >= order.len() {
        lo <= acc <= hi
    } else {
        has_window_match(inputs, order, rate, depth + 1, acc, lo, hi) || has_window_match(
            inputs,
            order,
            rate,
            depth + 1,
            acc + effective_value_of(inputs[order[depth] as int], rate),
            lo,
            hi,
        )
    }
}

/// Some subset of the whole candidate list has an effective-value sum inside
/// the branch-and-bound acceptance window.
pub open spec fn bnb_match_exists(inputs: Seq<OutputGroup>, opt: CoinSelectionOpt) -> bool {
    exists|ord: Seq<usize>|
        #[trigger] is_bnb_order(inputs, ord) && has_window_match(
            inputs,
            ord,
            opt.target_feerate.per_kwu as int,
            0,
            0,
            bnb_target_for_match(opt),
            bnb_target_for_match(opt) + bnb_match_range(opt),
        )
}

/// Distinct candidates have distinct branch-and-bound keys.
pub proof fn lemma_bnb_key_injective(inputs: Seq<OutputGroup>)
    ensures
        forall|a: usize, b: usize|
            #[trigger] bnb_key(inputs, a) == #[trigger] bnb_key(inputs, b) ==> a == b,
{
    assert forall|a: usize, b: usize|
        #[trigger] bnb_key(inputs, a) == #[trigger] bnb_key(inputs, b) implies a == b by {
        lemma_key_parts(
            u64::MAX - inputs[a as int].value,
            a as int,
            u64::MAX - inputs[b as int].value,
            b as int,
            0x1_0000_0000_0000_0000,
        );
    }
}

/// Effective values are non-negative, so once the accumulated value
/// overshoots the window no extension can come back down into it.
proof fn lemma_overshoot_no_match(
    inputs: Seq<OutputGroup>,
    order: Seq<usize>,
    rate: int,
    depth: int,
    acc: int,
    lo: int,
    hi: int,
)
    requires
        acc > hi,
    ensures
        !has_window_match(inputs, order, rate, depth, acc, lo, hi),
    decreases order.len() - depth,
{
    if depth < 0 || depth >= order.len() {
    } else {
        lemma_overshoot_no_match(inputs, order, rate, depth + 1, acc, lo, hi);
        lemma_overshoot_no_match(
            inputs,
            order,
            rate,
            depth + 1,
            acc + effective_value_of(inputs[order[depth] as int], rate),
            lo,
            hi,
        );
    }
}

/// What a successful branch-and-bound selection promises: the selected
/// candidates' effective values sum into the acceptance window, and the
/// waste is computed from their value and weight sums.
pub open spec fn bnb_selection_ok(
    inputs: Seq<OutputGroup>,
    opt: CoinSelectionOpt,
    out: SelectionOutput,
) -> bool {
    &&& bnb_target_for_match(opt) <= sum_effective(
        inputs,
        out.selected_inputs@,
        opt.target_feerate.per_kwu as int,
    ) <= bnb_target_for_match(opt) + bnb_match_range(opt)
    &&& out.waste.0 as int == waste_of(
        opt,
        sum_value(inputs, out.selected_inputs@),
        sum_weight(inputs, out.selected_inputs@),
        fee_of(sum_weight(inputs, out.selected_inputs@), opt.target_feerate.per_kwu as int),
    )
}

/// The precomputed numbers the search needs at every node: the acceptance
/// window and the fee rate for effective values.
#[derive(Debug)]
pub struct MatchParameters {
    target_for_match: u128,
    match_range: u128,
    target_feerate: FeeRate,
}

/// One sequence extends another.
proof fn lemma_prefix_trans(a: Seq<usize>, b: Seq<usize>, c: Seq<usize>)
    requires
        a.is_prefix_of(b),
        b.is_prefix_of(c),
    ensures
        a.is_prefix_of(c),
{
    assert(a =~= c.subrange(0, a.len() as int));
}

/// The depth-first search.  At each node it prunes when the accumulated
/// effective value overshoots the window, accepts when it is inside, and
/// otherwise explores including and excluding the candidate at the current
/// depth, in an order decided by a coin flip, sharing one try budget across
/// the whole search.  On a match, `selected` extends its incoming prefix
/// with a set of further candidates whose joint effective value lies in the
/// window; on failure `selected` is exactly as it was.
fn bnb(
    inputs: &Vec<OutputGroup>,
    order: &Vec<usize>,
    selected: &mut Vec<usize>,
    acc_eff: u128,
    depth: usize,
    tries: u32,
    params: &MatchParameters,
    rng: &mut rand::rngs::ThreadRng,
) -> (res: (bool, u32))
    requires
        valid_indices(inputs@, order@),
        depth <= order@.len(),
        valid_indices(inputs@, old(selected)@),
        forall|j: int| depth <= j < order@.len() ==> !old(selected)@.contains(#[trigger] order@[j]),
        acc_eff as int == sum_effective(
            inputs@,
            old(selected)@,
            params.target_feerate.per_kwu as int,
        ),
        params.target_for_match as int + params.match_range as int <= 5 * (u64::MAX as int),
    ensures
        res.1 <= tries,
        valid_indices(inputs@, final(selected)@),
        !res.0 ==> final(selected)@ == old(selected)@,
        res.0 ==> old(selected)@.is_prefix_of(final(selected)@),
        res.0 ==> params.target_for_match as int <= sum_effective(
            inputs@,
            final(selected)@,
            params.target_feerate.per_kwu as int,
        ) <= params.target_for_match as int + params.match_range as int,
        !res.0 && res.1 >= 1 ==> !has_window_match(
            inputs@,
            order@,
            params.target_feerate.per_kwu as int,
            depth as int,
            acc_eff as int,
            params.target_for_match as int,
            params.target_for_match as int + params.match_range as int,
        ),
        tries - res.1 <= pow2((order@.len() - depth + 1) as nat) - 1,
    decreases tries,
{
    let ghost rt: int = params.target_feerate.per_kwu as int;
    let ghost lo: int = params.target_for_match as int;
    let ghost hi: int = params.target_for_match as int + params.match_range as int;
    proof {
        lemma_pow2_pos((order@.len() - depth + 1) as nat);
    }
    let rate = params.target_feerate;
    if acc_eff > params.target_for_match + params.match_range {
        proof {
            lemma_overshoot_no_match(inputs@, order@, rt, depth as int, acc_eff as int, lo, hi);
        }
        return (false, tries);
    }
    if acc_eff >= params.target_for_match {
        proof {
            assert(old(selected)@.is_prefix_of(old(selected)@)) by {
                assert(old(selected)@ =~= old(selected)@.subrange(
                    0,
                    old(selected)@.len() as int,
                ));
            }
        }
        return (true, tries);
    }
    if tries == 0 {
        return (false, 0);
    }
    let tries1 = tries - 1;
    if tries1 == 0 || depth >= order.len() {
        proof {
            lemma2_to64();
            lemma_pow2_strictly_increases(0, (order@.len() - depth + 1) as nat);
        }
        return (false, tries1);
    }
    proof {
        lemma_pow2_unfold((order@.len() - depth + 1) as nat);
    }
    let idx = order[depth];
    let g = inputs[idx];
    if coin_flip(rng) {
        // Explore inclusion first, then exclusion.
        let e = effective_value(&g, rate);
        let ghost before: Seq<usize> = selected@;
        selected.push(idx);
        proof {
            lemma_sum_push(inputs@, before, idx, rate.per_kwu as int);
        }
        let with_this = bnb(
            inputs,
            order,
            selected,
            acc_eff + e as u128,
            depth + 1,
            tries1,
            params,
            rng,
        );
        if with_this.0 {
            proof {
                assert(before.is_prefix_of(before.push(idx))) by {
                    assert(before =~= before.push(idx).subrange(0, before.len() as int));
                }
                lemma_prefix_trans(before, before.push(idx), selected@);
            }
            return (true, with_this.1);
        }
        selected.pop();
        proof {
            assert(before.push(idx).drop_last() =~= before);
        }
        bnb(inputs, order, selected, acc_eff, depth + 1, with_this.1, params, rng)
    } else {
        // Explore exclusion first, then inclusion.
        let without_this = bnb(inputs, order, selected, acc_eff, depth + 1, tries1, params, rng);
        if without_this.0 {
            return without_this;
        }
        let e = effective_value(&g, rate);
        let ghost before: Seq<usize> = selected@;
        selected.push(idx);
        proof {
            lemma_sum_push(inputs@, before, idx, rate.per_kwu as int);
        }
        let with_this = bnb(
            inputs,
            order,
            selected,
            acc_eff + e as u128,
            depth + 1,
            without_this.1,
            params,
            rng,
        );
        if with_this.0 {
            proof {
                assert(before.is_prefix_of(before.push(idx))) by {
                    assert(before =~= before.push(idx).subrange(0, before.len() as int));
                }
                lemma_prefix_trans(before, before.push(idx), selected@);
            }
            return (true, with_this.1);
        }
        selected.pop();
        proof {
            assert(before.push(idx).drop_last() =~= before);
        }
        (false, with_this.1)
    }
}

/// Searches for a subset of candidates whose accumulated effective value
/// lies inside the acceptance window `[target_for_match, target_for_match +
/// match_range]`.  On success the returned indices are unique, valid, and
/// their effective values sum into the window, with the waste computed from
/// their value and weight sums.  On exhaustion it reports `NoSolutionFound`;
/// the try budget of a million covers the whole search tree of up to 18
/// candidates, so for such candidate sets failure means no matching subset
/// exists at all — equivalently, whenever a match exists it is found.  For
/// larger sets a failure may also mean the randomized, budgeted search gave
/// up, an accepted trade-off of the strategy.
pub fn select_coin_bnb(
    inputs: &Vec<OutputGroup>,
    options: CoinSelectionOpt,
    rng: &mut rand::rngs::ThreadRng,
) -> (r: Result<SelectionOutput, SelectionError>)
    ensures
        match r {
            Ok(out) => {
                &&& valid_indices(inputs@, out.selected_inputs@)
                &&& bnb_selection_ok(inputs@, options, out)
            },
            Err(e) => e == SelectionError::NoSolutionFound && (inputs@.len() <= 18
                ==> !bnb_match_exists(inputs@, options)),
        },
{
    let n = inputs.len();
    let mut keys: Vec<u128> = Vec::new();
    let mut i: usize = 0;
    while i < n
        invariant
            i <= n,
            n == inputs@.len(),
            keys@.len() == i,
            forall|j: int| 0 <= j < i ==> (#[trigger] keys@[j]) as int == bnb_key(inputs@, j as usize),
        decreases n - i,
    {
        let g = inputs[i];
        proof {
            lemma_mul_inequality(
                u64::MAX as int - g.value,
                u64::MAX as int,
                0x1_0000_0000_0000_0000,
            );
        }
        let k: u128 = ((u64::MAX - g.value) as u128) * 0x1_0000_0000_0000_0000u128 + i as u128;
        keys.push(k);
        i += 1;
    }
    let mut order = make_identity_order(n);
    sort_by_key(&keys, &mut order);
    proof {
        assert(is_candidate_order(order@, n as int));
        lemma_candidate_order_props(order@, n as int);
        assert forall|a: int, b: int| 0 <= a < b < order@.len() implies bnb_key(
            inputs@,
            order@[a],
        ) <= bnb_key(inputs@, order@[b]) by {
            assert(keys@[order@[a] as int] <= keys@[order@[b] as int]);
        }
        assert(is_bnb_order(inputs@, order@));
    }
    let base_fee = calculate_fee(options.base_weight as u64, options.target_feerate);
    let params = MatchParameters {
        target_for_match: options.target_value as u128 + base_fee as u128
            + options.cost_per_output as u128,
        match_range: options.cost_per_input as u128 + options.cost_per_output as u128,
        target_feerate: options.target_feerate,
    };
    let mut selected: Vec<usize> = Vec::new();
    let found = bnb(inputs, &order, &mut selected, 0, 0, 1_000_000, &params, rng);
    if found.0 {
        let mut acc_v: u128 = 0;
        let mut acc_w: u128 = 0;
        let mut s: usize = 0;
        let len = selected.len();
        while s < len
            invariant
                s <= len,
                len == selected@.len(),
                valid_indices(inputs@, selected@),
                n == inputs@.len(),
                acc_v as int == sum_value(inputs@, selected@.take(s as int)),
                acc_w as int == sum_weight(inputs@, selected@.take(s as int)),
            decreases len - s,
        {
            let idx = selected[s];
            let g = inputs[idx];
            proof {
                lemma_sum_bounds(inputs@, selected@.take(s as int), 0);
                lemma_sum_take_step(inputs@, selected@, s as int, 0);
                assert(acc_v as int <= s as int * (u64::MAX as int));
                assert(s as int * (u64::MAX as int) + (u64::MAX as int) == (s as int + 1) * (
                u64::MAX as int)) by (nonlinear_arith);
                assert((s as int + 1) * (u64::MAX as int) <= (u64::MAX as int) * (u64::MAX as int))
                    by (nonlinear_arith)
                    requires
                        0 <= s,
                        s as int + 1 <= u64::MAX as int,
                ;
                assert((u64::MAX as int) * (u64::MAX as int) < u128::MAX as int)
                    by (nonlinear_arith);
                assert(acc_w as int <= s as int * (u32::MAX as int));
                assert(s as int * (u32::MAX as int) + (u32::MAX as int) == (s as int + 1) * (
                u32::MAX as int)) by (nonlinear_arith);
                assert((s as int + 1) * (u32::MAX as int) <= (u64::MAX as int) * (u32::MAX as int))
                    by (nonlinear_arith)
                    requires
                        0 <= s,
                        s as int + 1 <= u64::MAX as int,
                ;
                assert((u64::MAX as int) * (u32::MAX as int) < u128::MAX as int)
                    by (nonlinear_arith);
            }
            acc_v = acc_v + g.value as u128;
            acc_w = acc_w + g.weight as u128;
            s += 1;
        }
        proof {
            assert(selected@.take(len as int) =~= selected@);
        }
        let out = finish_selection(inputs, &options, selected, acc_v, acc_w);
        Ok(out)
    } else {
        proof {
            if n <= 18 {
                lemma2_to64();
                if n as int + 1 < 19 {
                    lemma_pow2_strictly_increases((n + 1) as nat, 19nat);
                }
                assert(found.1 >= 1);
                let ghost lo = bnb_target_for_match(options);
                let ghost hi = bnb_target_for_match(options) + bnb_match_range(options);
                let ghost rt = options.target_feerate.per_kwu as int;
                assert(!has_window_match(inputs@, order@, rt, 0, 0, lo, hi));
                assert forall|ord2: Seq<usize>| #[trigger] is_bnb_order(inputs@, ord2) implies
                    !has_window_match(inputs@, ord2, rt, 0, 0, lo, hi) by {
                    lemma_bnb_key_injective(inputs@);
                    lemma_key_sorted_orders_equal(
                        n as int,
                        |x: usize| bnb_key(inputs@, x),
                        ord2,
                        order@,
                    );
                }
                assert(!bnb_match_exists(inputs@, options));
            }
        }
        Err(SelectionError::NoSolutionFound)
    }
}

} // verus!
