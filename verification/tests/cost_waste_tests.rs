use coinselect::calculate_fee;
use coinselect::calculate_waste;
use coinselect::create_output_group;
use coinselect::effective_value;
use coinselect::CoinSelectionOpt;
use coinselect::ExcessStrategy;
use coinselect::FeeRate;

fn options(excess_strategy: ExcessStrategy, long_term_feerate: Option<FeeRate>) -> CoinSelectionOpt {
    CoinSelectionOpt {
        target_value: 5730,
        target_feerate: FeeRate { per_kwu: 500 },
        long_term_feerate,
        min_absolute_fee: 0,
        base_weight: 10,
        drain_weight: 50,
        drain_cost: 10,
        cost_per_input: 20,
        cost_per_output: 10,
        min_drain_value: 500,
        excess_strategy,
    }
}

#[test]
fn fee_rounds_up_to_whole_units() {
    // Half a unit per weight unit: 10 weight costs exactly 5.
    assert_eq!(calculate_fee(10, FeeRate { per_kwu: 500 }), 5);
    // 0.33 per weight unit: 100 weight costs 33, 10 weight rounds 3.3 up to 4.
    assert_eq!(calculate_fee(100, FeeRate { per_kwu: 330 }), 33);
    assert_eq!(calculate_fee(10, FeeRate { per_kwu: 330 }), 4);
    // 0.01 per weight unit: 250 weight rounds 2.5 up to 3.
    assert_eq!(calculate_fee(250, FeeRate { per_kwu: 10 }), 3);
    assert_eq!(calculate_fee(0, FeeRate { per_kwu: 500 }), 0);
    assert_eq!(calculate_fee(1000, FeeRate { per_kwu: 0 }), 0);
}

#[test]
fn fee_saturates_on_pathological_products() {
    assert_eq!(calculate_fee(u64::MAX, FeeRate { per_kwu: u64::MAX }), u64::MAX);
}

#[test]
fn effective_value_subtracts_fee_and_floors_at_zero() {
    let g = create_output_group(5000, 50, 1, false, None);
    assert_eq!(effective_value(&g, FeeRate { per_kwu: 500 }), 4975);
    let heavy = create_output_group(10, 1000, 1, false, None);
    assert_eq!(effective_value(&heavy, FeeRate { per_kwu: 2000 }), 0);
}

#[test]
fn waste_charges_drain_cost_under_to_drain() {
    let inputs = vec![create_output_group(6000, 500, 1, false, None)];
    let selected = vec![0];
    let opt = options(ExcessStrategy::ToDrain, None);
    assert_eq!(calculate_waste(&inputs, &selected, &opt, 6000, 500, 250), 10);
}

#[test]
fn waste_charges_full_surplus_otherwise() {
    let inputs = vec![create_output_group(6000, 500, 1, false, None)];
    let selected = vec![0];
    let opt = options(ExcessStrategy::ToFee, None);
    // Surplus 6000 - 5730 - 250 = 20 is charged in full.
    assert_eq!(calculate_waste(&inputs, &selected, &opt, 6000, 500, 250), 20);
    let opt = options(ExcessStrategy::ToRecipient, None);
    assert_eq!(calculate_waste(&inputs, &selected, &opt, 6000, 500, 250), 20);
}

#[test]
fn waste_adds_longterm_feerate_spread() {
    let inputs = vec![create_output_group(6000, 500, 1, false, None)];
    let selected = vec![0];
    // Spread of 0.4 per weight unit over 500 weight: 200, plus drain cost 10.
    let opt = options(ExcessStrategy::ToDrain, Some(FeeRate { per_kwu: 100 }));
    assert_eq!(calculate_waste(&inputs, &selected, &opt, 6000, 500, 250), 210);
    // A long-term rate above the target rate contributes nothing.
    let opt = options(ExcessStrategy::ToDrain, Some(FeeRate { per_kwu: 900 }));
    assert_eq!(calculate_waste(&inputs, &selected, &opt, 6000, 500, 250), 10);
}
