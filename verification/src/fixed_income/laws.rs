//! Laws of the lattice model: shape and symmetry of the calibrated fan, the
//! zero-volatility collapse and its coupon-bond cross-check, the root's
//! exemption from the option trigger, the closed form of a one-step
//! rate-triggered call, and the widening of the terminal fan under higher
//! volatility.

use vstd::arithmetic::mul::lemma_mul_inequality;
use vstd::prelude::*;

use crate::exponential::{lemma_exp_ordered, lemma_exp_zero, spec_exp};
use crate::fixed_income::option_embedded_bond::{
    calibrated_rate, continuation_value, exp_arg, expected_child_value, spec_discount,
    BondOption, OptionEmbeddedBond, TriggerMode,
};
use crate::fixed_point::{
    clamp, lemma_clamp_neg, lemma_clamp_ordered, lemma_fp_mul_ordered_right, lemma_fp_mul_scale,
    spec_fp_mul, spec_sat_add,
};

verus! {

/// Level `i` of a calibrated tree has exactly `i + 1` rate entries, and the
/// fan is symmetric about the level's midpoint: node `i - j` is calibrated
/// with exactly the negated exponent of node `j`, so reversing the node
/// order within a level negates every offset exponent and reproduces the
/// same collection of rates.
pub proof fn lemma_level_shape_and_symmetry(bond: OptionEmbeddedBond, i: int, j: int)
    requires
        bond.valid_config(),
        bond.tree_calibrated(),
        0 <= i < bond.curve_len(),
        0 <= j <= i,
    ensures
        bond.binomial_tree@[i].rates@.len() == i + 1,
        exp_arg(bond.interest_vol as int, i + 1, i - j) == -exp_arg(
            bond.interest_vol as int,
            i + 1,
            j,
        ),
        bond.binomial_tree@[i].rates@[i - j] as int == spec_fp_mul(
            bond.forward_curve@[i] as int,
            spec_exp(-exp_arg(bond.interest_vol as int, i + 1, j)),
        ),
{
    let v = bond.interest_vol as int;
    assert(v * ((i + 1) - 1 - 2 * (i - j)) == -(v * ((i + 1) - 1 - 2 * j))) by (nonlinear_arith);
    lemma_clamp_neg(v * ((i + 1) - 1 - 2 * j));
}

/// Zero volatility collapses every node of a level to the level's base
/// forward rate (saturated into the representable range, which leaves every
/// rate but `i64::MIN` untouched): there is no branching effect.
pub proof fn lemma_zero_vol_collapses_levels(bond: OptionEmbeddedBond, i: int, j: int)
    requires
        bond.valid_config(),
        bond.tree_calibrated(),
        bond.interest_vol == 0,
        0 <= i < bond.curve_len(),
        0 <= j <= i,
    ensures
        bond.binomial_tree@[i].rates@[j] as int == clamp(bond.forward_curve@[i] as int),
        bond.forward_curve@[i] != i64::MIN ==> bond.binomial_tree@[i].rates@[j]
            == bond.forward_curve@[i],
{
    lemma_zero_vol_rate(bond.forward_curve@[i] as int, i + 1, j);
}

/// With zero volatility the calibrated rate of every node is the saturated
/// base rate.
proof fn lemma_zero_vol_rate(base: int, n_nodes: int, j: int)
    ensures
        calibrated_rate(base, 0, n_nodes, j) == clamp(base),
{
    assert(0 * (n_nodes - 1 - 2 * j) == 0) by (nonlinear_arith);
    lemma_exp_zero();
    lemma_fp_mul_scale(base);
}

/// Value at `level` of the corresponding option-free coupon bond under the
/// flat per-period rates of a zero-volatility lattice, discounted step by
/// step with the lattice's own fixed-point arithmetic.  In the
/// rate-triggered flavor the maturity value is the discounted notional; in
/// the price-triggered flavor it includes the maturity step's coupon.
pub open spec fn flat_bond_value(
    curve: Seq<i64>,
    coupons: Seq<i64>,
    notional: i64,
    mode: TriggerMode,
    level: int,
) -> int
    decreases curve.len() - level,
    when 0 <= level < curve.len()
{
    let rate = clamp(curve[level] as int);
    if level == curve.len() - 1 {
        match mode {
            TriggerMode::RateTriggered => spec_discount(notional as int, rate),
            TriggerMode::PriceTriggered => spec_discount(
                spec_sat_add(notional as int, coupons[level] as int),
                rate,
            ),
        }
    } else {
        let cont = flat_bond_value(curve, coupons, notional, mode, level + 1);
        spec_discount(expected_child_value(cont, cont, coupons[level] as int), rate)
    }
}

/// The embedded option never fires along the collapsed zero-volatility
/// path: at every level the node rate (rate-triggered) or the node value
/// (price-triggered) stays strictly on the unexercised side of the
/// threshold.
pub open spec fn trigger_never_fires(bond: OptionEmbeddedBond) -> bool {
    forall|l: int|
        0 <= l < bond.curve_len() ==> match bond.trigger_mode {
            TriggerMode::RateTriggered => match bond.bond_option {
                BondOption::Call => clamp(bond.forward_curve@[l] as int) > bond.option_price as int,
                BondOption::Put => clamp(bond.forward_curve@[l] as int) < bond.option_price as int,
            },
            TriggerMode::PriceTriggered => match bond.bond_option {
                BondOption::Call => #[trigger] flat_bond_value(
                    bond.forward_curve@,
                    bond.coupons@,
                    bond.notional,
                    bond.trigger_mode,
                    l,
                ) < bond.option_price as int,
                BondOption::Put => flat_bond_value(
                    bond.forward_curve@,
                    bond.coupons@,
                    bond.notional,
                    bond.trigger_mode,
                    l,
                ) > bond.option_price as int,
            },
        }
}

/// With zero volatility and an option that never fires, every node of every
/// level carries the value of the plain option-free coupon bond discounted
/// along the single collapsed path; in particular the valuation at the root
/// is that closed-form discounted value.
pub proof fn lemma_zero_vol_matches_flat_bond(bond: OptionEmbeddedBond, level: int)
    requires
        bond.valid_config(),
        bond.interest_vol == 0,
        trigger_never_fires(bond),
        0 <= level < bond.curve_len(),
    ensures
        forall|j: int|
            0 <= j <= level ==> #[trigger] bond.spec_node_price(level, j) == flat_bond_value(
                bond.forward_curve@,
                bond.coupons@,
                bond.notional,
                bond.trigger_mode,
                level,
            ),
    decreases bond.curve_len() - level,
{
    let curve = bond.forward_curve@;
    let flat = flat_bond_value(curve, bond.coupons@, bond.notional, bond.trigger_mode, level);
    if level < bond.curve_len() - 1 {
        lemma_zero_vol_matches_flat_bond(bond, level + 1);
    }
    assert forall|j: int| 0 <= j <= level implies #[trigger] bond.spec_node_price(level, j)
        == flat by {
        lemma_zero_vol_rate(curve[level] as int, level + 1, j);
        if level < bond.curve_len() - 1 {
            assert(bond.spec_node_price(level + 1, j) == flat_bond_value(
                curve,
                bond.coupons@,
                bond.notional,
                bond.trigger_mode,
                level + 1,
            ));
            assert(bond.spec_node_price(level + 1, j + 1) == flat_bond_value(
                curve,
                bond.coupons@,
                bond.notional,
                bond.trigger_mode,
                level + 1,
            ));
        }
    }
}

/// A backward step at the root applies no trigger: for a lattice of two or
/// more levels the root price is the pure discounted expectation of the two
/// level-1 prices, so two instruments that differ only in the option
/// threshold have the same root price whenever their level-1 prices agree.
pub proof fn lemma_root_applies_no_trigger(a: OptionEmbeddedBond, b: OptionEmbeddedBond)
    requires
        a.valid_config(),
        a.curve_len() >= 2,
        a.notional == b.notional,
        a.forward_curve@ == b.forward_curve@,
        a.bond_option == b.bond_option,
        a.trigger_mode == b.trigger_mode,
        a.interest_vol == b.interest_vol,
        a.coupons@ == b.coupons@,
        a.spec_node_price(1, 0) == b.spec_node_price(1, 0),
        a.spec_node_price(1, 1) == b.spec_node_price(1, 1),
    ensures
        a.spec_node_price(0, 0) == continuation_value(
            a.coupons@[0] as int,
            a.spec_level_rate(0, 0),
            a.spec_node_price(1, 0),
            a.spec_node_price(1, 1),
        ),
        a.spec_node_price(0, 0) == b.spec_node_price(0, 0),
{
}

/// One-step lattice, zero volatility, zero coupon, rate-triggered call: the
/// price is the notional itself (redemption at par, undiscounted) when the
/// single node's rate is at or below the threshold, and the discounted
/// notional otherwise.
pub proof fn lemma_one_step_rate_triggered_call(bond: OptionEmbeddedBond)
    requires
        bond.valid_config(),
        bond.curve_len() == 1,
        bond.interest_vol == 0,
        bond.coupons@[0] == 0i64,
        bond.trigger_mode == TriggerMode::RateTriggered,
        bond.bond_option == BondOption::Call,
        bond.forward_curve@[0] != i64::MIN,
    ensures
        bond.spec_node_price(0, 0) == if bond.forward_curve@[0] <= bond.option_price {
            bond.notional as int
        } else {
            spec_discount(bond.notional as int, bond.forward_curve@[0] as int)
        },
{
    lemma_zero_vol_rate(bond.forward_curve@[0] as int, 1, 0);
}

/// The raw (pre-option) discounted value of maturity node `j` of a level of
/// `n_nodes` nodes, calibrated from `base` and `vol`.
pub open spec fn terminal_raw_price(
    notional: i64,
    coupon: i64,
    base: i64,
    vol: i64,
    n_nodes: int,
    j: int,
) -> int {
    spec_discount(
        spec_sat_add(notional as int, coupon as int),
        calibrated_rate(base as int, vol as int, n_nodes, j),
    )
}

/// Within a maturity level the raw prices rise with the node index: higher
/// indices carry lower calibrated rates, so node 0 is the cheapest node of
/// the level and node `n_nodes - 1` the dearest.
pub proof fn lemma_terminal_raw_ordered_in_node(
    notional: i64,
    coupon: i64,
    base: i64,
    vol: i64,
    n_nodes: int,
    j1: int,
    j2: int,
)
    requires
        0 <= notional as int + coupon as int,
        0 <= base,
        0 <= vol,
        0 <= j1 <= j2 < n_nodes,
    ensures
        terminal_raw_price(notional, coupon, base, vol, n_nodes, j1) <= terminal_raw_price(
            notional,
            coupon,
            base,
            vol,
            n_nodes,
            j2,
        ),
{
    let v = vol as int;
    let k1 = n_nodes - 1 - 2 * j1;
    let k2 = n_nodes - 1 - 2 * j2;
    lemma_mul_inequality(k2, k1, v);
    assert(k2 * v == v * k2) by (nonlinear_arith);
    assert(k1 * v == v * k1) by (nonlinear_arith);
    lemma_clamp_ordered(v * k2, v * k1);
    lemma_exp_ordered(exp_arg(v, n_nodes, j2), exp_arg(v, n_nodes, j1));
    lemma_fp_mul_ordered_right(
        base as int,
        spec_exp(exp_arg(v, n_nodes, j2)),
        spec_exp(exp_arg(v, n_nodes, j1)),
    );
    let r1 = calibrated_rate(base as int, v, n_nodes, j1);
    let r2 = calibrated_rate(base as int, v, n_nodes, j2);
    lemma_exp_ordered(-r1, -r2);
    lemma_fp_mul_ordered_right(
        spec_sat_add(notional as int, coupon as int),
        spec_exp(-r1),
        spec_exp(-r2),
    );
}

/// Raising the volatility, all else fixed, widens the fan of raw maturity
/// prices: the cheapest node's raw price does not rise, the dearest node's
/// does not fall, and the spread between them does not shrink.
pub proof fn lemma_vol_widens_terminal_spread(
    notional: i64,
    coupon: i64,
    base: i64,
    v1: i64,
    v2: i64,
    n_nodes: int,
)
    requires
        0 <= notional as int + coupon as int,
        0 <= base,
        0 <= v1 <= v2,
        1 <= n_nodes,
    ensures
        terminal_raw_price(notional, coupon, base, v2, n_nodes, 0) <= terminal_raw_price(
            notional,
            coupon,
            base,
            v1,
            n_nodes,
            0,
        ),
        terminal_raw_price(notional, coupon, base, v1, n_nodes, n_nodes - 1)
            <= terminal_raw_price(notional, coupon, base, v2, n_nodes, n_nodes - 1),
        terminal_raw_price(notional, coupon, base, v2, n_nodes, n_nodes - 1)
            - terminal_raw_price(notional, coupon, base, v2, n_nodes, 0) >= terminal_raw_price(
            notional,
            coupon,
            base,
            v1,
            n_nodes,
            n_nodes - 1,
        ) - terminal_raw_price(notional, coupon, base, v1, n_nodes, 0),
{
    let amount = spec_sat_add(notional as int, coupon as int);
    let k_lo = n_nodes - 1;
    lemma_mul_inequality(v1 as int, v2 as int, k_lo);
    assert((v1 as int) * k_lo == k_lo * (v1 as int)) by (nonlinear_arith);
    assert((v2 as int) * k_lo == k_lo * (v2 as int)) by (nonlinear_arith);
    lemma_clamp_ordered((v1 as int) * k_lo, (v2 as int) * k_lo);
    lemma_exp_ordered(exp_arg(v1 as int, n_nodes, 0), exp_arg(v2 as int, n_nodes, 0));
    lemma_fp_mul_ordered_right(
        base as int,
        spec_exp(exp_arg(v1 as int, n_nodes, 0)),
        spec_exp(exp_arg(v2 as int, n_nodes, 0)),
    );
    let r1_lo = calibrated_rate(base as int, v1 as int, n_nodes, 0);
    let r2_lo = calibrated_rate(base as int, v2 as int, n_nodes, 0);
    lemma_exp_ordered(-r2_lo, -r1_lo);
    lemma_fp_mul_ordered_right(amount, spec_exp(-r2_lo), spec_exp(-r1_lo));

    let k_hi = n_nodes - 1 - 2 * (n_nodes - 1);
    assert(k_hi == -(n_nodes - 1));
    lemma_mul_inequality(v1 as int, v2 as int, n_nodes - 1);
    assert((v1 as int) * k_hi == -((v1 as int) * (n_nodes - 1))) by (nonlinear_arith)
        requires
            k_hi == -(n_nodes - 1),
    ;
    assert((v2 as int) * k_hi == -((v2 as int) * (n_nodes - 1))) by (nonlinear_arith)
        requires
            k_hi == -(n_nodes - 1),
    ;
    lemma_clamp_ordered((v2 as int) * k_hi, (v1 as int) * k_hi);
    lemma_exp_ordered(
        exp_arg(v2 as int, n_nodes, n_nodes - 1),
        exp_arg(v1 as int, n_nodes, n_nodes - 1),
    );
    lemma_fp_mul_ordered_right(
        base as int,
        spec_exp(exp_arg(v2 as int, n_nodes, n_nodes - 1)),
        spec_exp(exp_arg(v1 as int, n_nodes, n_nodes - 1)),
    );
    let r1_hi = calibrated_rate(base as int, v1 as int, n_nodes, n_nodes - 1);
    let r2_hi = calibrated_rate(base as int, v2 as int, n_nodes, n_nodes - 1);
    lemma_exp_ordered(-r1_hi, -r2_hi);
    lemma_fp_mul_ordered_right(amount, spec_exp(-r1_hi), spec_exp(-r2_hi));
}

} // verus!
