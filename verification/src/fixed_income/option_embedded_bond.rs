//! Option-embedded bond priced on a recombining binomial interest-rate
//! lattice by risk-neutral backward induction.
//!
//! All rates stated as continuously compounded, in fixed point (see
//! [`crate::fixed_point`]).  The lattice is built once from a forward curve
//! and a volatility parameter; the valuation then fills one price per node,
//! from the maturity level back to the single root node.  The embedded
//! call/put trigger is applied at every node of every level computed by a
//! backward step except the root, whose price is always the pure discounted
//! expectation.

use vstd::prelude::*;

use crate::exponential::{exp_fp, exp_of_neg, spec_exp};
use crate::fixed_point::{
    clamp, clamp_i128, fp_mul, half, sat_add, spec_fp_mul, spec_half, spec_sat_add,
};

verus! {

/// Largest supported number of lattice levels.  The lattice holds one node
/// per `(level, node)` pair, quadratically many in the curve length, so
/// longer curves could not be allocated anyway.
pub const MAX_STEPS: usize = 0xFFFF_FFFF;

/// Direction of the embedded option: a call is the issuer's right to redeem
/// early, a put the holder's right to force redemption.
#[derive(Clone, Copy, PartialEq, Eq, Structural, Debug)]
pub enum BondOption {
    Call,
    Put,
}

/// How the embedded option's threshold is compared at a node: against the
/// node's own calibrated rate, or against the node's computed value.
#[derive(Clone, Copy, PartialEq, Eq, Structural, Debug)]
pub enum TriggerMode {
    RateTriggered,
    PriceTriggered,
}

/// Construction failure: an empty forward curve, or a coupon schedule whose
/// length does not match the forward curve's.
#[derive(Clone, Copy, PartialEq, Eq, Structural, Debug)]
pub enum PricingError {
    InvalidInput,
}

/// One level of the binomial tree: the calibrated short rates of its nodes,
/// the price per node once the valuation has reached it, and the coupon
/// paid at this step.
pub struct BinomialTreeLevel {
    pub prices: Vec<i64>,
    pub rates: Vec<i64>,
    pub coupon: i64,
}

/// Exponent handed to the fixed-point exponential when calibrating node `j`
/// of a level with `n_nodes` nodes: `vol * (n_nodes - 1 - 2 * j)`, a
/// symmetric fan of up/down steps around the level's midpoint.
pub open spec fn exp_arg(vol: int, n_nodes: int, j: int) -> int {
    clamp(vol * (n_nodes - 1 - 2 * j))
}

/// Calibrated rate of node `j`: the level's base forward rate times the
/// exponential of the node's offset.
pub open spec fn calibrated_rate(base: int, vol: int, n_nodes: int, j: int) -> int {
    spec_fp_mul(base, spec_exp(exp_arg(vol, n_nodes, j)))
}

/// Present value of `amount` discounted one step at `rate`, continuously
/// compounded: `amount * e^(-rate)`.
pub open spec fn spec_discount(amount: int, rate: int) -> int {
    spec_fp_mul(amount, spec_exp(-rate))
}

/// Price of a maturity-level node before the backward induction starts.
pub open spec fn terminal_node_price(
    opt: BondOption,
    mode: TriggerMode,
    notional: int,
    coupon: int,
    threshold: int,
    rate: int,
) -> int {
    match mode {
        TriggerMode::RateTriggered => match opt {
            BondOption::Call => if rate <= threshold {
                notional
            } else {
                spec_discount(notional, rate)
            },
            BondOption::Put => if rate >= threshold {
                notional
            } else {
                spec_discount(notional, rate)
            },
        },
        TriggerMode::PriceTriggered => {
            let raw = spec_discount(spec_sat_add(notional, coupon), rate);
            match opt {
                BondOption::Call => if raw >= threshold {
                    threshold
                } else {
                    raw
                },
                BondOption::Put => if raw <= threshold {
                    threshold
                } else {
                    raw
                },
            }
        },
    }
}

/// Equally weighted expectation of the two child prices, plus the step's
/// coupon: `child_lo / 2 + child_hi / 2 + coupon`.
pub open spec fn expected_child_value(child_lo: int, child_hi: int, coupon: int) -> int {
    spec_sat_add(spec_sat_add(spec_half(child_lo), spec_half(child_hi)), coupon)
}

/// Pure discounted continuation value of an interior node, before any
/// trigger.
pub open spec fn continuation_value(coupon: int, rate: int, child_lo: int, child_hi: int) -> int {
    spec_discount(expected_child_value(child_lo, child_hi, coupon), rate)
}

/// Price of a node computed by a backward step.  The trigger is applied
/// exactly as at the maturity level (against the node's rate, or against
/// the continuation value) — except at the root, where `apply_trigger` is
/// false and the continuation value stands as computed.
pub open spec fn branch_node_price(
    opt: BondOption,
    mode: TriggerMode,
    notional: int,
    coupon: int,
    threshold: int,
    rate: int,
    child_lo: int,
    child_hi: int,
    apply_trigger: bool,
) -> int {
    let raw = continuation_value(coupon, rate, child_lo, child_hi);
    if !apply_trigger {
        raw
    } else {
        match mode {
            TriggerMode::RateTriggered => match opt {
                BondOption::Call => if rate <= threshold {
                    notional
                } else {
                    raw
                },
                BondOption::Put => if rate >= threshold {
                    notional
                } else {
                    raw
                },
            },
            TriggerMode::PriceTriggered => match opt {
                BondOption::Call => if raw >= threshold {
                    threshold
                } else {
                    raw
                },
                BondOption::Put => if raw <= threshold {
                    threshold
                } else {
                    raw
                },
            },
        }
    }
}

/// The price of node `j` of level `level` of the fully valued lattice,
/// defined from the instrument's immutable inputs alone.  Level
/// `curve.len() - 1` is the maturity level; level 0 is the root, the one
/// level at which no trigger is ever applied by a backward step.
pub open spec fn node_price(
    curve: Seq<i64>,
    coupons: Seq<i64>,
    vol: i64,
    notional: i64,
    threshold: i64,
    opt: BondOption,
    mode: TriggerMode,
    level: int,
    j: int,
) -> int
    decreases curve.len() - level,
    when 0 <= level < curve.len()
{
    let rate = calibrated_rate(curve[level] as int, vol as int, level + 1, j);
    if level == curve.len() - 1 {
        terminal_node_price(opt, mode, notional as int, coupons[level] as int, threshold as int, rate)
    } else {
        branch_node_price(
            opt,
            mode,
            notional as int,
            coupons[level] as int,
            threshold as int,
            rate,
            node_price(curve, coupons, vol, notional, threshold, opt, mode, level + 1, j),
            node_price(curve, coupons, vol, notional, threshold, opt, mode, level + 1, j + 1),
            level != 0,
        )
    }
}

/// A vector holding `len` copies of `value`.
fn filled_vec(value: i64, len: usize) -> (v: Vec<i64>)
    ensures
        v@.len() == len,
        forall|i: int| 0 <= i < len ==> #[trigger] v@[i] == value,
{
    let mut v: Vec<i64> = Vec::new();
    let mut i: usize = 0;
    while i < len
        invariant
            i <= len,
            v@.len() == i,
            forall|m: int| 0 <= m < i ==> #[trigger] v@[m] == value,
        decreases len - i,
    {
        v.push(value);
        i = i + 1;
    }
    v
}

/// Price of a maturity-level node.
fn terminal_price(
    opt: BondOption,
    mode: TriggerMode,
    notional: i64,
    coupon: i64,
    threshold: i64,
    rate: i64,
) -> (p: i64)
    ensures
        p as int == terminal_node_price(
            opt,
            mode,
            notional as int,
            coupon as int,
            threshold as int,
            rate as int,
        ),
{
    match mode {
        TriggerMode::RateTriggered => {
            let discounted: i64 = fp_mul(notional, exp_of_neg(rate));
            match opt {
                BondOption::Call => if rate <= threshold {
                    notional
                } else {
                    discounted
                },
                BondOption::Put => if rate >= threshold {
                    notional
                } else {
                    discounted
                },
            }
        },
        TriggerMode::PriceTriggered => {
            let raw: i64 = fp_mul(sat_add(notional, coupon), exp_of_neg(rate));
            match opt {
                BondOption::Call => if raw >= threshold {
                    threshold
                } else {
                    raw
                },
                BondOption::Put => if raw <= threshold {
                    threshold
                } else {
                    raw
                },
            }
        },
    }
}

/// Price of a node computed by a backward step.
fn branch_price(
    opt: BondOption,
    mode: TriggerMode,
    notional: i64,
    coupon: i64,
    threshold: i64,
    rate: i64,
    child_lo: i64,
    child_hi: i64,
    apply_trigger: bool,
) -> (p: i64)
    ensures
        p as int == branch_node_price(
            opt,
            mode,
            notional as int,
            coupon as int,
            threshold as int,
            rate as int,
            child_lo as int,
            child_hi as int,
            apply_trigger,
        ),
{
    let expected: i64 = sat_add(sat_add(half(child_lo), half(child_hi)), coupon);
    let raw: i64 = fp_mul(expected, exp_of_neg(rate));
    if !apply_trigger {
        raw
    } else {
        match mode {
            TriggerMode::RateTriggered => match opt {
                BondOption::Call => if rate <= threshold {
                    notional
                } else {
                    raw
                },
                BondOption::Put => if rate >= threshold {
                    notional
                } else {
                    raw
                },
            },
            TriggerMode::PriceTriggered => match opt {
                BondOption::Call => if raw >= threshold {
                    threshold
                } else {
                    raw
                },
                BondOption::Put => if raw <= threshold {
                    threshold
                } else {
                    raw
                },
            },
        }
    }
}

impl BinomialTreeLevel {
    /// A level of `n + 1` nodes: prices start at zero, rates start at the
    /// level's base forward rate and are immediately fanned out by the
    /// volatility.
    pub fn new(n: usize, rate: i64, interest_vol: i64, coupon: i64) -> (level: Self)
        requires
            n < MAX_STEPS,
        ensures
            level.rates@.len() == n + 1,
            level.prices@.len() == n + 1,
            level.coupon == coupon,
            forall|j: int| 0 <= j <= n ==> #[trigger] level.rates@[j] as int == calibrated_rate(
                rate as int,
                interest_vol as int,
                n as int + 1,
                j,
            ),
            forall|j: int| 0 <= j <= n ==> #[trigger] level.prices@[j] == 0i64,
    {
        let mut level = BinomialTreeLevel {
            prices: filled_vec(0, n + 1),
            rates: filled_vec(rate, n + 1),
            coupon,
        };
        level.calibrate_interest_paths(interest_vol);
        level
    }

    /// Fan the level's rates out around the base rate: node `j` of a level
    /// of `n` nodes is multiplied by `e^(vol * (n - 1 - 2j))`.
    fn calibrate_interest_paths(&mut self, interest_vol: i64)
        requires
            old(self).rates@.len() <= MAX_STEPS,
        ensures
            final(self).rates@.len() == old(self).rates@.len(),
            final(self).prices == old(self).prices,
            final(self).coupon == old(self).coupon,
            forall|j: int| 0 <= j < old(self).rates@.len() ==> #[trigger] final(self).rates@[j]
                as int == spec_fp_mul(
                old(self).rates@[j] as int,
                spec_exp(exp_arg(interest_vol as int, old(self).rates@.len() as int, j)),
            ),
    {
        let n_nodes: usize = self.rates.len();
        let mut new_rates: Vec<i64> = Vec::new();
        let mut j: usize = 0;
        while j < n_nodes
            invariant
                j <= n_nodes,
                n_nodes <= MAX_STEPS,
                self == old(self),
                n_nodes == self.rates@.len(),
                new_rates@.len() == j,
                forall|m: int| 0 <= m < j ==> #[trigger] new_rates@[m] as int == spec_fp_mul(
                    self.rates@[m] as int,
                    spec_exp(exp_arg(interest_vol as int, n_nodes as int, m)),
                ),
            decreases n_nodes - j,
        {
            let coef: i128 = (n_nodes as i128) - 1 - 2 * (j as i128);
            proof {
                assert((interest_vol as int) * (coef as int)
                    < 0x4000_0000_0000_0000_0000_0000_0000_0000int
                    && (interest_vol as int) * (coef as int)
                    > -0x4000_0000_0000_0000_0000_0000_0000_0000int) by (nonlinear_arith)
                    requires
                        -0x8000_0000_0000_0000int <= interest_vol as int
                            <= 0x7FFF_FFFF_FFFF_FFFFint,
                        -0x2_0000_0000int <= coef as int <= 0x2_0000_0000int,
                ;
            }
            let prod: i128 = (interest_vol as i128) * coef;
            let arg: i64 = clamp_i128(prod);
            let factor: i64 = exp_fp(arg);
            let r: i64 = fp_mul(self.rates[j], factor);
            new_rates.push(r);
            j = j + 1;
        }
        self.rates = new_rates;
    }

    /// Fill the maturity level's prices for a callable bond: each node's
    /// value with the call trigger applied.
    fn calculate_last_layer_call(&mut self, notional: i64, option_price: i64, trigger_mode: TriggerMode)
        requires
            old(self).rates@.len() == old(self).prices@.len(),
        ensures
            final(self).rates == old(self).rates,
            final(self).coupon == old(self).coupon,
            final(self).prices@.len() == old(self).prices@.len(),
            forall|j: int| 0 <= j < old(self).prices@.len() ==> #[trigger] final(self).prices@[j]
                as int == terminal_node_price(
                BondOption::Call,
                trigger_mode,
                notional as int,
                old(self).coupon as int,
                option_price as int,
                old(self).rates@[j] as int,
            ),
    {
        let n: usize = self.prices.len();
        let mut new_prices: Vec<i64> = Vec::new();
        let mut i: usize = 0;
        while i < n
            invariant
                i <= n,
                self == old(self),
                n == self.prices@.len(),
                self.rates@.len() == n,
                new_prices@.len() == i,
                forall|m: int| 0 <= m < i ==> #[trigger] new_prices@[m] as int
                    == terminal_node_price(
                    BondOption::Call,
                    trigger_mode,
                    notional as int,
                    self.coupon as int,
                    option_price as int,
                    self.rates@[m] as int,
                ),
            decreases n - i,
        {
            let p: i64 = terminal_price(
                BondOption::Call,
                trigger_mode,
                notional,
                self.coupon,
                option_price,
                self.rates[i],
            );
            new_prices.push(p);
            i = i + 1;
        }
        self.prices = new_prices;
    }

    /// Fill the maturity level's prices for a putable bond.
    fn calculate_last_layer_put(&mut self, notional: i64, option_price: i64, trigger_mode: TriggerMode)
        requires
            old(self).rates@.len() == old(self).prices@.len(),
        ensures
            final(self).rates == old(self).rates,
            final(self).coupon == old(self).coupon,
            final(self).prices@.len() == old(self).prices@.len(),
            forall|j: int| 0 <= j < old(self).prices@.len() ==> #[trigger] final(self).prices@[j]
                as int == terminal_node_price(
                BondOption::Put,
                trigger_mode,
                notional as int,
                old(self).coupon as int,
                option_price as int,
                old(self).rates@[j] as int,
            ),
    {
        let n: usize = self.prices.len();
        let mut new_prices: Vec<i64> = Vec::new();
        let mut i: usize = 0;
        while i < n
            invariant
                i <= n,
                self == old(self),
                n == self.prices@.len(),
                self.rates@.len() == n,
                new_prices@.len() == i,
                forall|m: int| 0 <= m < i ==> #[trigger] new_prices@[m] as int
                    == terminal_node_price(
                    BondOption::Put,
                    trigger_mode,
                    notional as int,
                    self.coupon as int,
                    option_price as int,
                    self.rates@[m] as int,
                ),
            decreases n - i,
        {
            let p: i64 = terminal_price(
                BondOption::Put,
                trigger_mode,
                notional,
                self.coupon,
                option_price,
                self.rates[i],
            );
            new_prices.push(p);
            i = i + 1;
        }
        self.prices = new_prices;
    }

    /// One backward step for a callable bond: each node's price becomes the
    /// discounted expectation of its two children in `prices` (the already
    /// priced next level), plus the coupon, with the call trigger applied —
    /// unless this level is the single-node root.
    pub fn calculate_branch_node_call(
        &mut self,
        option_price: i64,
        prices: &Vec<i64>,
        trigger_mode: TriggerMode,
        notional: i64,
    )
        requires
            old(self).rates@.len() == old(self).prices@.len(),
            prices@.len() == old(self).prices@.len() + 1,
        ensures
            final(self).rates == old(self).rates,
            final(self).coupon == old(self).coupon,
            final(self).prices@.len() == old(self).prices@.len(),
            forall|j: int| 0 <= j < old(self).prices@.len() ==> #[trigger] final(self).prices@[j]
                as int == branch_node_price(
                BondOption::Call,
                trigger_mode,
                notional as int,
                old(self).coupon as int,
                option_price as int,
                old(self).rates@[j] as int,
                prices@[j] as int,
                prices@[j + 1] as int,
                old(self).prices@.len() != 1,
            ),
    {
        let n: usize = self.prices.len();
        let apply_trigger: bool = n != 1;
        let mut new_prices: Vec<i64> = Vec::new();
        let mut i: usize = 0;
        while i < n
            invariant
                i <= n,
                self == old(self),
                n == self.prices@.len(),
                self.rates@.len() == n,
                prices@.len() == n + 1,
                apply_trigger == (n != 1),
                new_prices@.len() == i,
                forall|m: int| 0 <= m < i ==> #[trigger] new_prices@[m] as int
                    == branch_node_price(
                    BondOption::Call,
                    trigger_mode,
                    notional as int,
                    self.coupon as int,
                    option_price as int,
                    self.rates@[m] as int,
                    prices@[m] as int,
                    prices@[m + 1] as int,
                    apply_trigger,
                ),
            decreases n - i,
        {
            let p: i64 = branch_price(
                BondOption::Call,
                trigger_mode,
                notional,
                self.coupon,
                option_price,
                self.rates[i],
                prices[i],
                prices[i + 1],
                apply_trigger,
            );
            new_prices.push(p);
            i = i + 1;
        }
        self.prices = new_prices;
    }

    /// One backward step for a putable bond.
    pub fn calculate_branch_node_put(
        &mut self,
        option_price: i64,
        prices: &Vec<i64>,
        trigger_mode: TriggerMode,
        notional: i64,
    )
        requires
            old(self).rates@.len() == old(self).prices@.len(),
            prices@.len() == old(self).prices@.len() + 1,
        ensures
            final(self).rates == old(self).rates,
            final(self).coupon == old(self).coupon,
            final(self).prices@.len() == old(self).prices@.len(),
            forall|j: int| 0 <= j < old(self).prices@.len() ==> #[trigger] final(self).prices@[j]
                as int == branch_node_price(
                BondOption::Put,
                trigger_mode,
                notional as int,
                old(self).coupon as int,
                option_price as int,
                old(self).rates@[j] as int,
                prices@[j] as int,
                prices@[j + 1] as int,
                old(self).prices@.len() != 1,
            ),
    {
        let n: usize = self.prices.len();
        let apply_trigger: bool = n != 1;
        let mut new_prices: Vec<i64> = Vec::new();
        let mut i: usize = 0;
        while i < n
            invariant
                i <= n,
                self == old(self),
                n == self.prices@.len(),
                self.rates@.len() == n,
                prices@.len() == n + 1,
                apply_trigger == (n != 1),
                new_prices@.len() == i,
                forall|m: int| 0 <= m < i ==> #[trigger] new_prices@[m] as int
                    == branch_node_price(
                    BondOption::Put,
                    trigger_mode,
                    notional as int,
                    self.coupon as int,
                    option_price as int,
                    self.rates@[m] as int,
                    prices@[m] as int,
                    prices@[m + 1] as int,
                    apply_trigger,
                ),
            decreases n - i,
        {
            let p: i64 = branch_price(
                BondOption::Put,
                trigger_mode,
                notional,
                self.coupon,
                option_price,
                self.rates[i],
                prices[i],
                prices[i + 1],
                apply_trigger,
            );
            new_prices.push(p);
            i = i + 1;
        }
        self.prices = new_prices;
    }
}

/// An owned copy of a vector of fixed-point values.
fn copy_vec(v: &Vec<i64>) -> (r: Vec<i64>)
    ensures
        r@ == v@,
{
    let mut r: Vec<i64> = Vec::new();
    let mut i: usize = 0;
    while i < v.len()
        invariant
            i <= v@.len(),
            r@.len() == i,
            forall|m: int| 0 <= m < i ==> #[trigger] r@[m] == v@[m],
        decreases v@.len() - i,
    {
        r.push(v[i]);
        i = i + 1;
    }
    proof {
        assert(r@ =~= v@);
    }
    r
}

/// An option-embedded bond together with its calibrated and fully priced
/// binomial tree.  All inputs are immutable after construction; the tree is
/// calibrated and priced exactly once, terminal level first.
pub struct OptionEmbeddedBond {
    pub notional: i64,
    pub forward_curve: Vec<i64>,
    pub bond_option: BondOption,
    pub option_price: i64,
    pub trigger_mode: TriggerMode,
    pub interest_vol: i64,
    pub coupons: Vec<i64>,
    pub binomial_tree: Vec<BinomialTreeLevel>,
}

impl OptionEmbeddedBond {
    /// Number of time steps, and of lattice levels.
    pub open spec fn curve_len(&self) -> int {
        self.forward_curve@.len() as int
    }

    /// The inputs a lattice can be built from: a nonempty forward curve of
    /// supported length and a coupon per step.
    pub open spec fn valid_config(&self) -> bool {
        &&& 0 < self.forward_curve@.len() <= MAX_STEPS
        &&& self.coupons@.len() == self.forward_curve@.len()
    }

    /// The calibrated rate the model assigns to node `j` of level `level`.
    pub open spec fn spec_level_rate(&self, level: int, j: int) -> int {
        calibrated_rate(
            self.forward_curve@[level] as int,
            self.interest_vol as int,
            level + 1,
            j,
        )
    }

    /// The price the model assigns to node `j` of level `level`.
    pub open spec fn spec_node_price(&self, level: int, j: int) -> int {
        node_price(
            self.forward_curve@,
            self.coupons@,
            self.interest_vol,
            self.notional,
            self.option_price,
            self.bond_option,
            self.trigger_mode,
            level,
            j,
        )
    }

    /// The tree has one level per step, level `i` has `i + 1` nodes, each
    /// level carries its step's coupon, and every node's rate is the
    /// calibrated one.
    pub open spec fn tree_calibrated(&self) -> bool {
        &&& self.binomial_tree@.len() == self.curve_len()
        &&& forall|i: int| 0 <= i < self.curve_len() ==> (#[trigger] self.binomial_tree@[i]).rates@.len() == i + 1
        &&& forall|i: int| 0 <= i < self.curve_len() ==> (#[trigger] self.binomial_tree@[i]).prices@.len() == i + 1
        &&& forall|i: int| 0 <= i < self.curve_len() ==> (#[trigger] self.binomial_tree@[i]).coupon == self.coupons@[i]
        &&& forall|i: int, j: int|
            0 <= i < self.curve_len() && 0 <= j <= i ==> #[trigger] self.binomial_tree@[i].rates@[j] as int
                == self.spec_level_rate(i, j)
    }

    /// Every node of every level holds the model price.
    pub open spec fn tree_priced(&self) -> bool {
        forall|i: int, j: int|
            0 <= i < self.curve_len() && 0 <= j <= i ==> #[trigger] self.binomial_tree@[i].prices@[j] as int
                == self.spec_node_price(i, j)
    }

    /// Two bonds with the same immutable inputs (the tree aside).
    pub open spec fn same_inputs(a: Self, b: Self) -> bool {
        &&& a.notional == b.notional
        &&& a.forward_curve@ == b.forward_curve@
        &&& a.bond_option == b.bond_option
        &&& a.option_price == b.option_price
        &&& a.trigger_mode == b.trigger_mode
        &&& a.interest_vol == b.interest_vol
        &&& a.coupons@ == b.coupons@
    }

    /// Validate the inputs, build the tree and value the bond.  Fails with
    /// `InvalidInput` exactly when the forward curve is empty or a coupon
    /// schedule is given whose length differs from the curve's; on success
    /// the returned bond holds the inputs unchanged (absent coupons become
    /// all-zero) and a fully calibrated and priced tree.
    pub fn new(
        notional: i64,
        bond_option: BondOption,
        option_price: i64,
        forward_curve: Vec<i64>,
        interest_vol: i64,
        coupons: Option<Vec<i64>>,
        trigger_mode: TriggerMode,
    ) -> (result: Result<OptionEmbeddedBond, PricingError>)
        requires
            forward_curve@.len() <= MAX_STEPS,
        ensures
            result is Err <==> (forward_curve@.len() == 0 || (coupons matches Some(c)
                && c@.len() != forward_curve@.len())),
            result matches Err(e) ==> e == PricingError::InvalidInput,
            result matches Ok(bond) ==> {
                &&& bond.notional == notional
                &&& bond.bond_option == bond_option
                &&& bond.option_price == option_price
                &&& bond.trigger_mode == trigger_mode
                &&& bond.interest_vol == interest_vol
                &&& bond.forward_curve@ == forward_curve@
                &&& bond.coupons@ == (match coupons {
                    Some(c) => c@,
                    None => Seq::new(forward_curve@.len(), |k: int| 0i64),
                })
                &&& bond.valid_config()
                &&& bond.tree_calibrated()
                &&& bond.tree_priced()
            },
    {
        let n_steps: usize = forward_curve.len();
        if n_steps == 0 {
            return Err(PricingError::InvalidInput);
        }
        let coupons_vec: Vec<i64> = match coupons {
            Some(v) => {
                if v.len() != n_steps {
                    return Err(PricingError::InvalidInput);
                }
                v
            },
            None => {
                let z = filled_vec(0, n_steps);
                proof {
                    assert(z@ =~= Seq::new(forward_curve@.len(), |k: int| 0i64));
                }
                z
            },
        };
        let mut bond = OptionEmbeddedBond {
            notional,
            forward_curve,
            bond_option,
            option_price,
            trigger_mode,
            interest_vol,
            coupons: coupons_vec,
            binomial_tree: Vec::new(),
        };
        bond.init();
        Ok(bond)
    }

    /// Build one calibrated level per step of the forward curve, then value
    /// the whole tree.
    pub fn init(&mut self)
        requires
            old(self).valid_config(),
            old(self).binomial_tree@.len() == 0,
        ensures
            Self::same_inputs(*final(self), *old(self)),
            final(self).valid_config(),
            final(self).tree_calibrated(),
            final(self).tree_priced(),
    {
        let n_levels: usize = self.forward_curve.len();
        let mut n: usize = 0;
        while n < n_levels
            invariant
                n <= n_levels,
                Self::same_inputs(*self, *old(self)),
                self.valid_config(),
                n_levels == self.forward_curve@.len(),
                self.binomial_tree@.len() == n,
                forall|i: int| 0 <= i < n ==> (#[trigger] self.binomial_tree@[i]).rates@.len() == i + 1,
                forall|i: int| 0 <= i < n ==> (#[trigger] self.binomial_tree@[i]).prices@.len() == i + 1,
                forall|i: int| 0 <= i < n ==> (#[trigger] self.binomial_tree@[i]).coupon == self.coupons@[i],
                forall|i: int, j: int|
                    0 <= i < n && 0 <= j <= i ==> #[trigger] self.binomial_tree@[i].rates@[j] as int
                        == self.spec_level_rate(i, j),
            decreases n_levels - n,
        {
            let level = BinomialTreeLevel::new(
                n,
                self.forward_curve[n],
                self.interest_vol,
                self.coupons[n],
            );
            self.binomial_tree.push(level);
            n = n + 1;
        }
        self.calculate_tree();
    }

    /// Value the tree: fill the maturity level, then step backward to the
    /// root, each level from the prices of the one after it.
    fn calculate_tree(&mut self)
        requires
            old(self).valid_config(),
            old(self).tree_calibrated(),
        ensures
            Self::same_inputs(*final(self), *old(self)),
            final(self).valid_config(),
            final(self).tree_calibrated(),
            final(self).tree_priced(),
    {
        let n: usize = self.binomial_tree.len();
        let ghost pre = *self;

        let mut last: BinomialTreeLevel = self.binomial_tree.remove(n - 1);
        match self.bond_option {
            BondOption::Call => last.calculate_last_layer_call(
                self.notional,
                self.option_price,
                self.trigger_mode,
            ),
            BondOption::Put => last.calculate_last_layer_put(
                self.notional,
                self.option_price,
                self.trigger_mode,
            ),
        }
        self.binomial_tree.insert(n - 1, last);
        proof {
            assert(self.binomial_tree@.len() == n);
            assert forall|i: int| 0 <= i < n && i != n - 1 implies self.binomial_tree@[i]
                == pre.binomial_tree@[i] by {
                assert(pre.binomial_tree@.remove(n - 1)[i] == pre.binomial_tree@[i]);
            }
            assert forall|j: int| 0 <= j <= n - 1 implies #[trigger] self.binomial_tree@[n - 1].prices@[j]
                as int == self.spec_node_price(n - 1, j) by {
                assert(self.binomial_tree@[n - 1].prices@[j] as int == terminal_node_price(
                    self.bond_option,
                    self.trigger_mode,
                    self.notional as int,
                    self.coupons@[n - 1] as int,
                    self.option_price as int,
                    pre.binomial_tree@[n - 1].rates@[j] as int,
                ));
            }
        }

        let mut left_i: usize = n - 1;
        while left_i > 0
            invariant
                left_i <= n - 1,
                Self::same_inputs(*self, *old(self)),
                self.valid_config(),
                self.tree_calibrated(),
                n == self.binomial_tree@.len(),
                forall|i: int, j: int|
                    left_i <= i < n && 0 <= j <= i ==> #[trigger] self.binomial_tree@[i].prices@[j]
                        as int == self.spec_node_price(i, j),
            decreases left_i,
        {
            let ghost before = *self;
            let child_prices: Vec<i64> = copy_vec(&self.binomial_tree[left_i].prices);
            let mut lvl: BinomialTreeLevel = self.binomial_tree.remove(left_i - 1);
            match self.bond_option {
                BondOption::Call => lvl.calculate_branch_node_call(
                    self.option_price,
                    &child_prices,
                    self.trigger_mode,
                    self.notional,
                ),
                BondOption::Put => lvl.calculate_branch_node_put(
                    self.option_price,
                    &child_prices,
                    self.trigger_mode,
                    self.notional,
                ),
            }
            self.binomial_tree.insert(left_i - 1, lvl);
            proof {
                assert(self.binomial_tree@.len() == n);
                assert forall|i: int| 0 <= i < n && i != left_i - 1 implies self.binomial_tree@[i]
                    == before.binomial_tree@[i] by {
                    assert(before.binomial_tree@.remove(left_i - 1)[i - 1] == before.binomial_tree@[i]
                        || i < left_i - 1);
                    assert(before.binomial_tree@.remove(left_i - 1)[i] == before.binomial_tree@[i]
                        || i > left_i - 1);
                }
                let li: int = left_i as int - 1;
                assert forall|j: int| 0 <= j <= li implies #[trigger] self.binomial_tree@[li].prices@[j]
                    as int == self.spec_node_price(li, j) by {
                    assert(self.binomial_tree@[li].prices@[j] as int == branch_node_price(
                        self.bond_option,
                        self.trigger_mode,
                        self.notional as int,
                        self.coupons@[li] as int,
                        self.option_price as int,
                        before.binomial_tree@[li].rates@[j] as int,
                        child_prices@[j] as int,
                        child_prices@[j + 1] as int,
                        li != 0,
                    ));
                    assert(child_prices@[j] as int == self.spec_node_price(li + 1, j));
                    assert(child_prices@[j + 1] as int == self.spec_node_price(li + 1, j + 1));
                }
            }
            left_i = left_i - 1;
        }
    }

    /// The instrument's present value: the price of the single root node.
    pub fn root_price(&self) -> (price: i64)
        requires
            self.valid_config(),
            self.tree_calibrated(),
            self.tree_priced(),
        ensures
            price as int == self.spec_node_price(0, 0),
    {
        self.binomial_tree[0].prices[0]
    }
}

} // verus!
