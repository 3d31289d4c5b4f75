use rusty_fy::fixed_income::option_embedded_bond::{
    BondOption, OptionEmbeddedBond, PricingError, TriggerMode,
};
use rusty_fy::exponential::exp_fp;
use rusty_fy::fixed_point::{fp_mul, SCALE};

fn pct(x: f64) -> i64 {
    (x * SCALE as f64).round() as i64
}

#[test]
fn mismatched_coupons_fail() {
    let curve = vec![pct(0.03), pct(0.03), pct(0.03), pct(0.03), pct(0.03)];
    let coupons = vec![pct(1.0), pct(1.0), pct(1.0)];
    let r = OptionEmbeddedBond::new(
        100 * SCALE,
        BondOption::Call,
        pct(0.05),
        curve,
        0,
        Some(coupons),
        TriggerMode::RateTriggered,
    );
    assert_eq!(r.err(), Some(PricingError::InvalidInput));
}

#[test]
fn empty_curve_fails() {
    let r = OptionEmbeddedBond::new(
        100 * SCALE,
        BondOption::Call,
        pct(0.05),
        Vec::new(),
        0,
        None,
        TriggerMode::RateTriggered,
    );
    assert_eq!(r.err(), Some(PricingError::InvalidInput));
}

#[test]
fn one_step_rate_call_triggered() {
    // rate 0.03 <= threshold 0.05: redemption at par, undiscounted.
    let bond = OptionEmbeddedBond::new(
        100 * SCALE,
        BondOption::Call,
        pct(0.05),
        vec![pct(0.03)],
        0,
        None,
        TriggerMode::RateTriggered,
    )
    .unwrap();
    assert_eq!(bond.binomial_tree.len(), 1);
    assert_eq!(bond.binomial_tree[0].prices.len(), 1);
    assert_eq!(bond.root_price(), 100 * SCALE);
}

#[test]
fn one_step_rate_call_untriggered() {
    // rate 0.03 > threshold 0.01: plain discounted notional, 100 * e^-0.03.
    let bond = OptionEmbeddedBond::new(
        100 * SCALE,
        BondOption::Call,
        pct(0.01),
        vec![pct(0.03)],
        0,
        None,
        TriggerMode::RateTriggered,
    )
    .unwrap();
    let price = bond.root_price();
    assert_eq!(price, fp_mul(100 * SCALE, exp_fp(-pct(0.03))));
    assert_eq!(price, 97_044_553_411_000);
    let exact = 100.0 * (-0.03f64).exp();
    assert!((price as f64 / SCALE as f64 - exact).abs() < 1e-5);
}

#[test]
fn one_step_price_call_caps_at_threshold() {
    // With a price trigger the maturity value 100 * e^-0.03 ~ 97.04 is
    // capped at the threshold 95 even on a one-step lattice: the root and
    // maturity levels coincide and the maturity rule is the one applied.
    let bond = OptionEmbeddedBond::new(
        100 * SCALE,
        BondOption::Call,
        95 * SCALE,
        vec![pct(0.03)],
        0,
        None,
        TriggerMode::PriceTriggered,
    )
    .unwrap();
    assert_eq!(bond.root_price(), 95 * SCALE);
}

#[test]
fn zero_vol_collapses_every_level() {
    let curve = vec![pct(0.03), pct(0.04), pct(0.05)];
    let bond = OptionEmbeddedBond::new(
        100 * SCALE,
        BondOption::Call,
        pct(0.05),
        curve.clone(),
        0,
        None,
        TriggerMode::RateTriggered,
    )
    .unwrap();
    for (i, level) in bond.binomial_tree.iter().enumerate() {
        assert_eq!(level.rates.len(), i + 1);
        assert_eq!(level.prices.len(), i + 1);
        for &r in level.rates.iter() {
            assert_eq!(r, curve[i]);
        }
    }
}

#[test]
fn zero_vol_matches_flat_coupon_bond() {
    // Zero volatility, option never fires (a put with a threshold below any
    // possible value): the valuation is the single-path discounted coupon
    // bond, ((100 + 5) * e^-0.04 + 5) * e^-0.03.
    let curve = vec![pct(0.03), pct(0.04)];
    let coupons = vec![5 * SCALE, 5 * SCALE];
    let bond = OptionEmbeddedBond::new(
        100 * SCALE,
        BondOption::Put,
        -10 * SCALE,
        curve,
        0,
        Some(coupons),
        TriggerMode::PriceTriggered,
    )
    .unwrap();
    let price = bond.root_price();
    assert_eq!(price, 102_753_579_002_127);
    let exact = ((100.0 + 5.0) * (-0.04f64).exp() + 5.0) * (-0.03f64).exp();
    assert!((price as f64 / SCALE as f64 - exact).abs() < 1e-5);
}

#[test]
fn root_never_applies_trigger() {
    // Two-step putable bond: the maturity value 100 * e^-0.03 ~ 97.04 is
    // above both thresholds, so the maturity level is not floored; the root
    // value ~ 94.18 is below the 96 threshold, yet the root is never
    // floored, so both instruments price identically, below the threshold.
    let mk = |threshold: i64| {
        OptionEmbeddedBond::new(
            100 * SCALE,
            BondOption::Put,
            threshold,
            vec![pct(0.03), pct(0.03)],
            0,
            None,
            TriggerMode::PriceTriggered,
        )
        .unwrap()
    };
    let a = mk(96 * SCALE);
    let b = mk(95 * SCALE);
    let pa = a.root_price();
    let pb = b.root_price();
    assert_eq!(pa, pb);
    assert_eq!(pa, 94_176_453_467_404);
    assert!(pa < 96 * SCALE);
}

#[test]
fn level_rates_are_symmetric() {
    // Three-node level: the middle node keeps the base rate exactly, the
    // outer nodes are the base times e^(±2 * vol).
    let vol = pct(0.1);
    let base = pct(0.03);
    let bond = OptionEmbeddedBond::new(
        100 * SCALE,
        BondOption::Call,
        i64::MAX,
        vec![pct(0.02), pct(0.025), base],
        vol,
        None,
        TriggerMode::PriceTriggered,
    )
    .unwrap();
    let rates = &bond.binomial_tree[2].rates;
    assert_eq!(rates.len(), 3);
    assert_eq!(rates[1], base);
    assert_eq!(rates[0], fp_mul(base, exp_fp(2 * vol)));
    assert_eq!(rates[2], fp_mul(base, exp_fp(-2 * vol)));
    assert!(rates[0] > rates[1] && rates[1] > rates[2]);
}

#[test]
fn higher_vol_strictly_widens_terminal_spread() {
    // A call threshold of i64::MAX never caps, so the terminal prices are
    // the raw discounted values; higher volatility must strictly widen
    // their spread.
    let mk = |vol: i64| {
        OptionEmbeddedBond::new(
            100 * SCALE,
            BondOption::Call,
            i64::MAX,
            vec![pct(0.03), pct(0.03), pct(0.03)],
            vol,
            None,
            TriggerMode::PriceTriggered,
        )
        .unwrap()
    };
    let spread = |bond: &OptionEmbeddedBond| {
        let p = &bond.binomial_tree[2].prices;
        assert!(p[0] <= p[1] && p[1] <= p[2]);
        p[2] - p[0]
    };
    let s0 = spread(&mk(0));
    let s1 = spread(&mk(pct(0.05)));
    let s2 = spread(&mk(pct(0.1)));
    assert_eq!(s0, 0);
    assert!(s0 < s1);
    assert!(s1 < s2);
}

#[test]
fn rate_triggered_put_redeems_at_par() {
    // Put trigger: rate 0.06 >= threshold 0.05 forces redemption at par.
    let bond = OptionEmbeddedBond::new(
        100 * SCALE,
        BondOption::Put,
        pct(0.05),
        vec![pct(0.06)],
        0,
        None,
        TriggerMode::RateTriggered,
    )
    .unwrap();
    assert_eq!(bond.root_price(), 100 * SCALE);
}

#[test]
fn rate_trigger_redeems_interior_nodes_but_not_root() {
    // Three steps, zero volatility, every rate 0.03 <= threshold 0.05: the
    // call fires at the maturity level and at the interior level, setting
    // every one of their nodes to par, while the root still discounts its
    // children: 100 * e^-0.03.
    let bond = OptionEmbeddedBond::new(
        100 * SCALE,
        BondOption::Call,
        pct(0.05),
        vec![pct(0.03), pct(0.03), pct(0.03)],
        0,
        None,
        TriggerMode::RateTriggered,
    )
    .unwrap();
    assert_eq!(bond.binomial_tree[2].prices, vec![100 * SCALE; 3]);
    assert_eq!(bond.binomial_tree[1].prices, vec![100 * SCALE; 2]);
    assert_eq!(bond.root_price(), 97_044_553_411_000);
}

#[test]
fn one_step_price_put_floors_at_threshold() {
    // Maturity value 100 * e^-0.03 ~ 97.04 is below the 98 threshold, so
    // the put floors it.
    let bond = OptionEmbeddedBond::new(
        100 * SCALE,
        BondOption::Put,
        98 * SCALE,
        vec![pct(0.03)],
        0,
        None,
        TriggerMode::PriceTriggered,
    )
    .unwrap();
    assert_eq!(bond.root_price(), 98 * SCALE);
}

#[test]
fn coupons_default_to_zero() {
    let with_zeros = OptionEmbeddedBond::new(
        100 * SCALE,
        BondOption::Call,
        pct(0.01),
        vec![pct(0.03), pct(0.04)],
        0,
        Some(vec![0, 0]),
        TriggerMode::RateTriggered,
    )
    .unwrap();
    let defaulted = OptionEmbeddedBond::new(
        100 * SCALE,
        BondOption::Call,
        pct(0.01),
        vec![pct(0.03), pct(0.04)],
        0,
        None,
        TriggerMode::RateTriggered,
    )
    .unwrap();
    assert_eq!(with_zeros.root_price(), defaulted.root_price());
    assert_eq!(with_zeros.coupons, defaulted.coupons);
}
