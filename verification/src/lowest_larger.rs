//! Lowest-larger selection: sort candidates by ascending effective value,
//! split them by binary search into those at or below the target (plus the
//! minimum drain value) and those strictly above, then accumulate first over
//! the at-or-below group from its largest member downwards, and only if that
//! does not reach the threshold continue upwards through the larger group.

use vstd::prelude::*;
use vstd::arithmetic::mul::lemma_mul_inequality;
use crate::cost::effective_value;
use crate::cost::effective_value_of;
use crate::model::is_candidate_order;
use crate::model::lemma_candidate_order_props;
use crate::model::lemma_valid_indices_take;
use crate::model::valid_indices;
use crate::ordering::key_sorted;
use crate::ordering::lemma_key_parts;
use crate::ordering::lemma_key_sorted_orders_equal;
use crate::ordering::make_identity_order;
use crate::ordering::sort_by_key;
use crate::sweep::candidates_cannot_cover;
use crate::sweep::finish_selection;
use crate::sweep::lemma_exhausted_order_bounds_total;
use crate::sweep::prefix_satisfies;
use crate::sweep::run_sweep;
use crate::sweep::sweep_selection_ok;
use crate::types::CoinSelectionOpt;
use crate::types::OutputGroup;
use crate::types::SelectionError;
use crate::types::SelectionOutput;

verus! {

/// The lowest-larger sort key of candidate `i`: its effective value at the
/// target rate, with the original index as the tie-break.
pub open spec fn ll_key(inputs: Seq<OutputGroup>, rate: int, i: usize) -> int {
    effective_value_of(inputs[i as int], rate) * 0x1_0000_0000_0000_0000 + i
}

/// The candidate order sorted by ascending effective value.
pub open spec fn is_ll_order(inputs: Seq<OutputGroup>, rate: int, ord: Seq<usize>) -> bool {
    &&& is_candidate_order(ord, inputs.len() as int)
    &&& key_sorted(ord, |x: usize| ll_key(inputs, rate, x))
}

/// The amount a lowest-larger candidate is measured against: the target plus
/// the smallest worthwhile drain output.
pub open spec fn ll_target(opt: CoinSelectionOpt) -> int {
    opt.target_value + opt.min_drain_value
}

/// `k` splits the sorted order: every candidate before `k` has effective
/// value at most `t`, every candidate from `k` on is strictly larger.
pub open spec fn is_partition_point(
    inputs: Seq<OutputGroup>,
    rate: int,
    t: int,
    ord: Seq<usize>,
    k: int,
) -> bool {
    &&& 0 <= k <= ord.len()
    &&& forall|i: int|
        0 <= i < k ==> effective_value_of(inputs[#[trigger] ord[i] as int], rate) <= t
    &&& forall|i: int|
        k <= i < ord.len() ==> effective_value_of(inputs[#[trigger] ord[i] as int], rate) > t
}

/// The order the two-phase walk visits: the at-or-below group in reverse
/// (largest of the small first), then the larger group in ascending order.
pub open spec fn ll_walk(ord: Seq<usize>, k: int) -> Seq<usize> {
    ord.take(k).reverse() + ord.skip(k)
}

/// No prefix of the two-phase walk clears the threshold: lowest-larger is
/// bound to fail with `InsufficientFunds`.
pub open spec fn ll_insufficient(inputs: Seq<OutputGroup>, opt: CoinSelectionOpt) -> bool {
    forall|ord: Seq<usize>, k: int, p: int|
        is_ll_order(inputs, opt.target_feerate.per_kwu as int, ord) && is_partition_point(
            inputs,
            opt.target_feerate.per_kwu as int,
            ll_target(opt),
            ord,
            k,
        ) && 0 <= p < ll_walk(ord, k).len() ==> !(#[trigger] prefix_satisfies(
            inputs,
            ll_walk(ord, k),
            opt,
            0,
            p,
        ))
}

/// What a successful lowest-larger selection promises: the result is the
/// shortest satisfying prefix of the two-phase walk over the (unique)
/// effective-value-sorted order.
pub open spec fn ll_selection_ok(
    inputs: Seq<OutputGroup>,
    opt: CoinSelectionOpt,
    out: SelectionOutput,
) -> bool {
    exists|ord: Seq<usize>, k: int|
        #![trigger is_partition_point(inputs, opt.target_feerate.per_kwu as int, ll_target(opt), ord, k)]
        is_ll_order(inputs, opt.target_feerate.per_kwu as int, ord) && is_partition_point(
            inputs,
            opt.target_feerate.per_kwu as int,
            ll_target(opt),
            ord,
            k,
        ) && sweep_selection_ok(inputs, opt, 0, ll_walk(ord, k), out)
}

/// Distinct candidates have distinct lowest-larger keys.
pub proof fn lemma_ll_key_injective(inputs: Seq<OutputGroup>, rate: int)
    requires
        0 <= rate,
    ensures
        forall|a: usize, b: usize|
            #[trigger] ll_key(inputs, rate, a) == #[trigger] ll_key(inputs, rate, b) ==> a == b,
{
    assert forall|a: usize, b: usize|
        #[trigger] ll_key(inputs, rate, a) == #[trigger] ll_key(inputs, rate, b) implies a
        == b by {
        lemma_key_parts(
            effective_value_of(inputs[a as int], rate),
            a as int,
            effective_value_of(inputs[b as int], rate),
            b as int,
            0x1_0000_0000_0000_0000,
        );
    }
}

/// Along a key-sorted order, effective values never decrease.
proof fn lemma_ll_sorted_effective(inputs: Seq<OutputGroup>, rate: int, ord: Seq<usize>)
    requires
        0 <= rate,
        key_sorted(ord, |x: usize| ll_key(inputs, rate, x)),
    ensures
        forall|i: int, j: int|
            0 <= i <= j < ord.len() ==> effective_value_of(inputs[#[trigger] ord[i] as int], rate)
                <= effective_value_of(inputs[#[trigger] ord[j] as int], rate),
{
    assert forall|i: int, j: int|
        0 <= i <= j < ord.len() implies effective_value_of(inputs[#[trigger] ord[i] as int], rate)
        <= effective_value_of(inputs[#[trigger] ord[j] as int], rate) by {
        if i < j {
            let keyfn = |x: usize| ll_key(inputs, rate, x);
            assert(keyfn(ord[i]) <= keyfn(ord[j]));
            lemma_key_parts(
                effective_value_of(inputs[ord[i] as int], rate),
                ord[i] as int,
                effective_value_of(inputs[ord[j] as int], rate),
                ord[j] as int,
                0x1_0000_0000_0000_0000,
            );
        }
    }
}

/// Only one index can split a sorted order around `t`.
proof fn lemma_partition_point_unique(
    inputs: Seq<OutputGroup>,
    rate: int,
    t: int,
    ord: Seq<usize>,
    k1: int,
    k2: int,
)
    requires
        is_partition_point(inputs, rate, t, ord, k1),
        is_partition_point(inputs, rate, t, ord, k2),
    ensures
        k1 == k2,
{
    if k1 < k2 {
        assert(effective_value_of(inputs[ord[k1] as int], rate) <= t);
        assert(effective_value_of(inputs[ord[k1] as int], rate) > t);
    }
    if k2 < k1 {
        assert(effective_value_of(inputs[ord[k2] as int], rate) <= t);
        assert(effective_value_of(inputs[ord[k2] as int], rate) > t);
    }
}

/// Selects deterministically in two phases over the effective-value-sorted
/// order: largest-of-the-small first, then smallest-of-the-large.  On
/// success the result is the shortest satisfying prefix of that walk; if
/// even the whole candidate set cannot clear the threshold, the attempt
/// fails with `InsufficientFunds`.
pub fn select_coin_lowestlarger(inputs: &Vec<OutputGroup>, options: CoinSelectionOpt) -> (r:
    Result<SelectionOutput, SelectionError>)
    ensures
        match r {
            Ok(out) => {
                &&& valid_indices(inputs@, out.selected_inputs@)
                &&& ll_selection_ok(inputs@, options, out)
            },
            Err(e) => {
                &&& e == SelectionError::InsufficientFunds
                &&& ll_insufficient(inputs@, options)
                &&& candidates_cannot_cover(inputs@, options, 0)
            },
        },
{
    let n = inputs.len();
    let rate = options.target_feerate;
    let mut keys: Vec<u128> = Vec::new();
    let mut i: usize = 0;
    while i < n
        invariant
            i <= n,
            n == inputs@.len(),
            keys@.len() == i,
            forall|j: int|
                0 <= j < i ==> (#[trigger] keys@[j]) as int == ll_key(
                    inputs@,
                    rate.per_kwu as int,
                    j as usize,
                ),
            rate == options.target_feerate,
        decreases n - i,
    {
        let e = effective_value(&inputs[i], rate);
        proof {
            lemma_mul_inequality(e as int, u64::MAX as int, 0x1_0000_0000_0000_0000);
        }
        let k: u128 = (e as u128) * 0x1_0000_0000_0000_0000u128 + i as u128;
        keys.push(k);
        i += 1;
    }
    let mut order = make_identity_order(n);
    sort_by_key(&keys, &mut order);
    proof {
        assert(is_candidate_order(order@, n as int));
        lemma_candidate_order_props(order@, n as int);
        assert forall|a: int, b: int| 0 <= a < b < order@.len() implies ll_key(
            inputs@,
            rate.per_kwu as int,
            order@[a],
        ) <= ll_key(inputs@, rate.per_kwu as int, order@[b]) by {
            assert(keys@[order@[a] as int] <= keys@[order@[b] as int]);
        }
        assert(is_ll_order(inputs@, rate.per_kwu as int, order@));
        lemma_ll_sorted_effective(inputs@, rate.per_kwu as int, order@);
    }
    // Binary search for the first candidate whose effective value exceeds
    // the target plus the minimum drain value.
    let target128: u128 = options.target_value as u128 + options.min_drain_value as u128;
    let mut lo: usize = 0;
    let mut hi: usize = n;
    while lo < hi
        invariant
            lo <= hi <= n,
            n == inputs@.len(),
            n == order@.len(),
            target128 as int == ll_target(options),
            rate == options.target_feerate,
            forall|j: int| 0 <= j < order@.len() ==> (#[trigger] order@[j]) < n,
            forall|a: int, b: int|
                0 <= a <= b < order@.len() ==> effective_value_of(
                    inputs@[#[trigger] order@[a] as int],
                    rate.per_kwu as int,
                ) <= effective_value_of(inputs@[#[trigger] order@[b] as int], rate.per_kwu as int),
            forall|j: int|
                0 <= j < lo ==> effective_value_of(
                    inputs@[#[trigger] order@[j] as int],
                    rate.per_kwu as int,
                ) <= ll_target(options),
            forall|j: int|
                hi <= j < order@.len() ==> effective_value_of(
                    inputs@[#[trigger] order@[j] as int],
                    rate.per_kwu as int,
                ) > ll_target(options),
        decreases hi - lo,
    {
        let mid = lo + (hi - lo) / 2;
        let e = effective_value(&inputs[order[mid]], rate);
        if e as u128 <= target128 {
            lo = mid + 1;
        } else {
            hi = mid;
        }
    }
    let k = lo;
    proof {
        assert(is_partition_point(
            inputs@,
            rate.per_kwu as int,
            ll_target(options),
            order@,
            k as int,
        ));
    }
    // Phase one walks the at-or-below group in reverse; phase two continues
    // through the larger group in ascending order.
    let mut walk: Vec<usize> = Vec::new();
    let mut j: usize = k;
    while j > 0
        invariant
            j <= k <= n,
            n == order@.len(),
            walk@.len() == k - j,
            forall|t: int| 0 <= t < walk@.len() ==> (#[trigger] walk@[t]) == order@[k - 1 - t],
        decreases j,
    {
        j -= 1;
        walk.push(order[j]);
    }
    let mut m: usize = k;
    while m < n
        invariant
            k <= m <= n,
            n == order@.len(),
            walk@.len() == k + (m - k),
            forall|t: int| 0 <= t < k ==> (#[trigger] walk@[t]) == order@[k - 1 - t],
            forall|t: int| k <= t < walk@.len() ==> (#[trigger] walk@[t]) == order@[t],
        decreases n - m,
    {
        walk.push(order[m]);
        m += 1;
    }
    proof {
        assert(walk@ =~= ll_walk(order@, k as int));
        assert forall|a: int| 0 <= a < walk@.len() implies (#[trigger] walk@[a]) < inputs@.len() by {
            if a < k {
                assert(walk@[a] == order@[k - 1 - a]);
            }
        }
        assert forall|a: int, b: int|
            0 <= a < walk@.len() && 0 <= b < walk@.len() && a != b implies walk@[a] != walk@[b] by {
            let a2: int = if a < k {
                k - 1 - a
            } else {
                a
            };
            let b2: int = if b < k {
                k - 1 - b
            } else {
                b
            };
            assert(walk@[a] == order@[a2]);
            assert(walk@[b] == order@[b2]);
            assert(a2 != b2);
        }
        assert(valid_indices(inputs@, walk@));
    }
    match run_sweep(inputs, &walk, &options, 0) {
        Some(t) => {
            let (selected, acc_v, acc_w) = t;
            proof {
                lemma_valid_indices_take(inputs@, walk@, selected@.len() as int);
            }
            let out = finish_selection(inputs, &options, selected, acc_v, acc_w);
            proof {
                assert(sweep_selection_ok(inputs@, options, 0, ll_walk(order@, k as int), out));
            }
            Ok(out)
        },
        None => {
            proof {
                if inputs@.len() > 0 {
                    assert(order@.take(k as int) + order@.skip(k as int) =~= order@);
                    vstd::seq_lib::lemma_multiset_commutative(
                        order@.take(k as int),
                        order@.skip(k as int),
                    );
                    order@.take(k as int).lemma_reverse_to_multiset();
                    vstd::seq_lib::lemma_multiset_commutative(
                        order@.take(k as int).reverse(),
                        order@.skip(k as int),
                    );
                    assert(walk@.to_multiset() =~= order@.to_multiset());
                    assert(is_candidate_order(walk@, inputs@.len() as int));
                    lemma_exhausted_order_bounds_total(inputs@, walk@, options, 0);
                }
                assert forall|ord2: Seq<usize>, k2: int, p: int|
                    is_ll_order(inputs@, options.target_feerate.per_kwu as int, ord2)
                        && is_partition_point(
                        inputs@,
                        options.target_feerate.per_kwu as int,
                        ll_target(options),
                        ord2,
                        k2,
                    ) && 0 <= p < ll_walk(ord2, k2).len() implies !(#[trigger] prefix_satisfies(
                    inputs@,
                    ll_walk(ord2, k2),
                    options,
                    0,
                    p,
                )) by {
                    lemma_ll_key_injective(inputs@, options.target_feerate.per_kwu as int);
                    lemma_key_sorted_orders_equal(
                        n as int,
                        |x: usize| ll_key(inputs@, options.target_feerate.per_kwu as int, x),
                        ord2,
                        order@,
                    );
                    lemma_partition_point_unique(
                        inputs@,
                        options.target_feerate.per_kwu as int,
                        ll_target(options),
                        order@,
                        k2,
                        k as int,
                    );
                    assert(ll_walk(ord2, k2) == walk@);
                }
            }
            Err(SelectionError::InsufficientFunds)
        },
    }
}

} // verus!
