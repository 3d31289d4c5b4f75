//! Fixed-point exponential `exp_fp(x) ~= SCALE * e^(x / SCALE)`.
//!
//! The argument is reduced by a fixed power of two, a short Taylor series is
//! summed, and the result is squared back up; negative arguments go through
//! the reciprocal.  Every step truncates toward zero and saturates at
//! `i64::MAX`, so the exact value computed is pinned down by the spec
//! functions below, which also yield the facts the pricing model needs:
//! `exp_fp(0) == SCALE`, nonnegativity, a lower bound of `SCALE` for
//! nonnegative arguments, and monotonicity.

use vstd::arithmetic::div_mod::{
    lemma_div_is_ordered, lemma_div_is_ordered_by_denominator, lemma_div_multiples_vanish,
    lemma_div_nonincreasing, lemma_div_pos_is_pos,
};
use vstd::arithmetic::mul::{lemma_mul_inequality, lemma_mul_upper_bound};
use vstd::prelude::*;

use crate::fixed_point::{clamp, trunc_div, SCALE};

verus! {

/// Arguments above this threshold (about 17.0 in real terms) saturate:
/// `e^17 * SCALE` already exceeds `i64::MAX`.
pub const EXP_ARG_HI: i64 = 17_000_000_000_000;

/// The argument is divided by `REDUCE_DIV == 2^REDUCE_STEPS` before the
/// series, then squared `REDUCE_STEPS` times.
pub const REDUCE_DIV: i64 = 1024;

/// Number of squarings undoing the argument reduction.
pub const REDUCE_STEPS: u64 = 10;

/// Number of Taylor terms added after the constant term.
pub const TAYLOR_TERMS: u64 = 10;

/// Term `n` of the truncated Taylor series of `e^(y / SCALE)`, in fixed
/// point: term 0 is `SCALE` (that is, one), and term `n` is term `n-1`
/// multiplied by `y`, rescaled, and divided by `n`, truncating at each step.
pub open spec fn taylor_term(y: int, n: nat) -> int
    decreases n,
{
    if n == 0 {
        SCALE as int
    } else {
        trunc_div(trunc_div(taylor_term(y, (n - 1) as nat) * y, SCALE as int), n as int)
    }
}

/// Sum of Taylor terms `0..=n`.
pub open spec fn taylor_sum(y: int, n: nat) -> int
    decreases n,
{
    if n == 0 {
        SCALE as int
    } else {
        taylor_sum(y, (n - 1) as nat) + taylor_term(y, n)
    }
}

/// `k` successive fixed-point squarings of `v`, each truncated and
/// saturated.
pub open spec fn square_iter(v: int, k: nat) -> int
    decreases k,
{
    if k == 0 {
        v
    } else {
        let w = square_iter(v, (k - 1) as nat);
        clamp(trunc_div(w * w, SCALE as int))
    }
}

/// The fixed-point exponential for a nonnegative argument.
pub open spec fn spec_exp_nonneg(x: int) -> int {
    if x > EXP_ARG_HI as int {
        i64::MAX as int
    } else {
        square_iter(taylor_sum(x / (REDUCE_DIV as int), TAYLOR_TERMS as nat), REDUCE_STEPS as nat)
    }
}

/// The fixed-point exponential.  Negative arguments are the fixed-point
/// reciprocal `SCALE * SCALE / exp(-x)`; arguments below `-EXP_ARG_HI`
/// vanish entirely.
pub open spec fn spec_exp(x: int) -> int {
    if x >= 0 {
        spec_exp_nonneg(x)
    } else if x < -(EXP_ARG_HI as int) {
        0
    } else {
        trunc_div((SCALE as int) * (SCALE as int), spec_exp_nonneg(-x))
    }
}

/// Every Taylor term of a nonnegative argument is nonnegative and at most
/// `SCALE` when the argument is at most `SCALE`.
pub proof fn lemma_taylor_term_bounds(y: int, n: nat)
    requires
        0 <= y <= SCALE as int,
    ensures
        0 <= taylor_term(y, n) <= SCALE as int,
    decreases n,
{
    if n > 0 {
        lemma_taylor_term_bounds(y, (n - 1) as nat);
        let t = taylor_term(y, (n - 1) as nat);
        lemma_mul_upper_bound(t, SCALE as int, y, SCALE as int);
        vstd::arithmetic::mul::lemma_mul_nonnegative(t, y);
        lemma_div_pos_is_pos(t * y, SCALE as int);
        lemma_mul_inequality(y, SCALE as int, t);
        assert(y * t == t * y) by (nonlinear_arith);
        assert(SCALE as int * t == t * SCALE as int) by (nonlinear_arith);
        lemma_div_is_ordered(t * y, t * (SCALE as int), SCALE as int);
        lemma_div_multiples_vanish(t, SCALE as int);
        assert((SCALE as int) * t == t * (SCALE as int)) by (nonlinear_arith);
        let t1 = trunc_div(t * y, SCALE as int);
        assert(0 <= t1 <= t);
        lemma_div_pos_is_pos(t1, n as int);
        lemma_div_nonincreasing(t1, n as int);
    }
}

/// The Taylor sum of a nonnegative argument at most `SCALE` lies between
/// `SCALE` and `(n + 1) * SCALE`.
pub proof fn lemma_taylor_sum_bounds(y: int, n: nat)
    requires
        0 <= y <= SCALE as int,
    ensures
        SCALE as int <= taylor_sum(y, n) <= (n + 1) * (SCALE as int),
    decreases n,
{
    if n == 0 {
        assert((0 + 1) * (SCALE as int) == SCALE as int) by (nonlinear_arith);
    } else {
        lemma_taylor_sum_bounds(y, (n - 1) as nat);
        lemma_taylor_term_bounds(y, n);
        assert((n + 1) * (SCALE as int) == n as int * (SCALE as int) + SCALE as int)
            by (nonlinear_arith);
        assert((n - 1) as nat + 1 == n);
    }
}

/// Squaring keeps a value between `SCALE` and `i64::MAX` in that range.
pub proof fn lemma_square_iter_bounds(v: int, k: nat)
    requires
        SCALE as int <= v <= i64::MAX as int,
    ensures
        SCALE as int <= square_iter(v, k) <= i64::MAX as int,
    decreases k,
{
    if k > 0 {
        lemma_square_iter_bounds(v, (k - 1) as nat);
        let w = square_iter(v, (k - 1) as nat);
        assert(w * w >= (SCALE as int) * (SCALE as int)) by (nonlinear_arith)
            requires
                w >= SCALE as int,
                SCALE as int > 0,
        ;
        lemma_div_is_ordered((SCALE as int) * (SCALE as int), w * w, SCALE as int);
        lemma_div_multiples_vanish(SCALE as int, SCALE as int);
    }
}

/// For a nonnegative argument the exponential lies between `SCALE` (one)
/// and `i64::MAX`.
pub proof fn lemma_exp_nonneg_bounds(x: int)
    requires
        0 <= x,
    ensures
        SCALE as int <= spec_exp_nonneg(x) <= i64::MAX as int,
{
    if x <= EXP_ARG_HI as int {
        let y = x / (REDUCE_DIV as int);
        lemma_div_pos_is_pos(x, REDUCE_DIV as int);
        lemma_div_is_ordered(x, EXP_ARG_HI as int, REDUCE_DIV as int);
        assert(EXP_ARG_HI as int / (REDUCE_DIV as int) <= SCALE as int);
        lemma_taylor_sum_bounds(y, TAYLOR_TERMS as nat);
        assert((TAYLOR_TERMS + 1) * (SCALE as int) <= i64::MAX as int) by (nonlinear_arith);
        lemma_square_iter_bounds(taylor_sum(y, TAYLOR_TERMS as nat), REDUCE_STEPS as nat);
    }
}

/// The exponential of any argument lies between zero and `i64::MAX`, and
/// for a nonpositive argument it is at most `SCALE` (one).
pub proof fn lemma_exp_bounds(x: int)
    ensures
        0 <= spec_exp(x) <= i64::MAX as int,
        x <= 0 ==> spec_exp(x) <= SCALE as int,
        x >= 0 ==> spec_exp(x) >= SCALE as int,
{
    if x >= 0 {
        lemma_exp_nonneg_bounds(x);
        if x == 0 {
            lemma_exp_zero();
        }
    } else if x >= -(EXP_ARG_HI as int) {
        lemma_exp_nonneg_bounds(-x);
        let v = spec_exp_nonneg(-x);
        let s2 = (SCALE as int) * (SCALE as int);
        lemma_div_pos_is_pos(s2, v);
        lemma_div_is_ordered_by_denominator(s2, SCALE as int, v);
        lemma_div_multiples_vanish(SCALE as int, SCALE as int);
    }
}

/// The exponential of zero is exactly `SCALE` (one).
pub proof fn lemma_exp_zero()
    ensures
        spec_exp(0) == SCALE as int,
{
    lemma_taylor_sum_zero(TAYLOR_TERMS as nat);
    lemma_square_iter_scale(REDUCE_STEPS as nat);
}

proof fn lemma_taylor_term_zero(n: nat)
    requires
        n > 0,
    ensures
        taylor_term(0, n) == 0,
    decreases n,
{
    if n > 1 {
        lemma_taylor_term_zero((n - 1) as nat);
    }
    let t = taylor_term(0, (n - 1) as nat);
    assert(t * 0 == 0) by (nonlinear_arith);
    lemma_div_multiples_vanish(0, SCALE as int);
    assert((SCALE as int) * 0 == 0) by (nonlinear_arith);
    lemma_div_multiples_vanish(0, n as int);
    assert((n as int) * 0 == 0) by (nonlinear_arith);
}

proof fn lemma_taylor_sum_zero(n: nat)
    ensures
        taylor_sum(0, n) == SCALE as int,
    decreases n,
{
    if n > 0 {
        lemma_taylor_sum_zero((n - 1) as nat);
        lemma_taylor_term_zero(n);
    }
}

proof fn lemma_square_iter_scale(k: nat)
    ensures
        square_iter(SCALE as int, k) == SCALE as int,
    decreases k,
{
    if k > 0 {
        lemma_square_iter_scale((k - 1) as nat);
        lemma_div_multiples_vanish(SCALE as int, SCALE as int);
        assert((SCALE as int) * (SCALE as int) == (SCALE as int) * (SCALE as int));
    }
}

proof fn lemma_taylor_term_ordered(y1: int, y2: int, n: nat)
    requires
        0 <= y1 <= y2,
    ensures
        0 <= taylor_term(y1, n) <= taylor_term(y2, n),
    decreases n,
{
    if n > 0 {
        lemma_taylor_term_ordered(y1, y2, (n - 1) as nat);
        let t1 = taylor_term(y1, (n - 1) as nat);
        let t2 = taylor_term(y2, (n - 1) as nat);
        vstd::arithmetic::mul::lemma_mul_nonnegative(t1, y1);
        lemma_mul_upper_bound(t1, t2, y1, y2);
        crate::fixed_point::lemma_trunc_div_ordered(t1 * y1, t2 * y2, SCALE as int);
        lemma_div_pos_is_pos(t1 * y1, SCALE as int);
        crate::fixed_point::lemma_trunc_div_ordered(
            trunc_div(t1 * y1, SCALE as int),
            trunc_div(t2 * y2, SCALE as int),
            n as int,
        );
        lemma_div_pos_is_pos(trunc_div(t1 * y1, SCALE as int), n as int);
    }
}

proof fn lemma_taylor_sum_ordered(y1: int, y2: int, n: nat)
    requires
        0 <= y1 <= y2,
    ensures
        0 <= taylor_sum(y1, n) <= taylor_sum(y2, n),
    decreases n,
{
    if n > 0 {
        lemma_taylor_sum_ordered(y1, y2, (n - 1) as nat);
        lemma_taylor_term_ordered(y1, y2, n);
    }
}

proof fn lemma_square_iter_ordered(v1: int, v2: int, k: nat)
    requires
        0 <= v1 <= v2,
    ensures
        0 <= square_iter(v1, k) <= square_iter(v2, k),
    decreases k,
{
    if k > 0 {
        lemma_square_iter_ordered(v1, v2, (k - 1) as nat);
        let w1 = square_iter(v1, (k - 1) as nat);
        let w2 = square_iter(v2, (k - 1) as nat);
        vstd::arithmetic::mul::lemma_mul_nonnegative(w1, w1);
        lemma_mul_upper_bound(w1, w2, w1, w2);
        crate::fixed_point::lemma_trunc_div_ordered(w1 * w1, w2 * w2, SCALE as int);
        lemma_div_pos_is_pos(w1 * w1, SCALE as int);
        crate::fixed_point::lemma_clamp_ordered(
            trunc_div(w1 * w1, SCALE as int),
            trunc_div(w2 * w2, SCALE as int),
        );
    }
}

proof fn lemma_exp_nonneg_ordered(x1: int, x2: int)
    requires
        0 <= x1 <= x2,
    ensures
        spec_exp_nonneg(x1) <= spec_exp_nonneg(x2),
{
    lemma_exp_nonneg_bounds(x1);
    lemma_exp_nonneg_bounds(x2);
    if x2 <= EXP_ARG_HI as int {
        lemma_div_is_ordered(x1, x2, REDUCE_DIV as int);
        lemma_div_pos_is_pos(x1, REDUCE_DIV as int);
        lemma_taylor_sum_ordered(
            x1 / (REDUCE_DIV as int),
            x2 / (REDUCE_DIV as int),
            TAYLOR_TERMS as nat,
        );
        lemma_square_iter_ordered(
            taylor_sum(x1 / (REDUCE_DIV as int), TAYLOR_TERMS as nat),
            taylor_sum(x2 / (REDUCE_DIV as int), TAYLOR_TERMS as nat),
            REDUCE_STEPS as nat,
        );
    }
}

/// The fixed-point exponential is monotone in its argument.
pub proof fn lemma_exp_ordered(x1: int, x2: int)
    requires
        x1 <= x2,
    ensures
        spec_exp(x1) <= spec_exp(x2),
{
    lemma_exp_bounds(x1);
    lemma_exp_bounds(x2);
    if x1 >= 0 {
        lemma_exp_nonneg_ordered(x1, x2);
    } else if x2 < 0 {
        if x1 >= -(EXP_ARG_HI as int) {
            lemma_exp_nonneg_ordered(-x2, -x1);
            lemma_exp_nonneg_bounds(-x1);
            lemma_exp_nonneg_bounds(-x2);
            lemma_div_is_ordered_by_denominator(
                (SCALE as int) * (SCALE as int),
                spec_exp_nonneg(-x2),
                spec_exp_nonneg(-x1),
            );
        }
    }
}

/// Evaluate the Taylor sum for a reduced, nonnegative argument.
fn taylor_eval(y: u64) -> (s: u64)
    requires
        y as int <= SCALE as int,
    ensures
        s as int == taylor_sum(y as int, TAYLOR_TERMS as nat),
{
    let mut t: u64 = SCALE as u64;
    let mut s: u64 = SCALE as u64;
    let mut n: u64 = 1;
    while n <= TAYLOR_TERMS
        invariant
            1 <= n <= TAYLOR_TERMS + 1,
            y as int <= SCALE as int,
            t as int == taylor_term(y as int, (n - 1) as nat),
            s as int == taylor_sum(y as int, (n - 1) as nat),
        decreases TAYLOR_TERMS + 1 - n,
    {
        proof {
            lemma_taylor_term_bounds(y as int, (n - 1) as nat);
            lemma_taylor_sum_bounds(y as int, (n - 1) as nat);
            lemma_mul_upper_bound(t as int, SCALE as int, y as int, SCALE as int);
            vstd::arithmetic::mul::lemma_mul_nonnegative(t as int, y as int);
        }
        let prod: u128 = (t as u128) * (y as u128);
        let t1: u128 = prod / (SCALE as u128);
        let t2: u128 = t1 / (n as u128);
        proof {
            lemma_taylor_term_bounds(y as int, n as nat);
            assert(taylor_term(y as int, n as nat) == trunc_div(
                trunc_div(t as int * y as int, SCALE as int),
                n as int,
            ));
            lemma_div_pos_is_pos(t as int * y as int, SCALE as int);
        }
        t = t2 as u64;
        proof {
            lemma_taylor_sum_bounds(y as int, n as nat);
            assert((n as int + 1) * (SCALE as int) <= (TAYLOR_TERMS as int + 1) * (SCALE as int))
                by (nonlinear_arith)
                requires
                    1 <= n as int <= TAYLOR_TERMS as int,
                    SCALE as int > 0,
            ;
        }
        s = s + t;
        n = n + 1;
    }
    s
}

/// The fixed-point exponential of a nonnegative argument.
fn exp_nonneg(x: i64) -> (r: i64)
    requires
        x >= 0,
    ensures
        r as int == spec_exp_nonneg(x as int),
        SCALE <= r,
{
    proof {
        lemma_exp_nonneg_bounds(x as int);
    }
    if x > EXP_ARG_HI {
        return i64::MAX;
    }
    let y: u64 = (x as u64) / (REDUCE_DIV as u64);
    proof {
        lemma_div_pos_is_pos(x as int, REDUCE_DIV as int);
        lemma_div_is_ordered(x as int, EXP_ARG_HI as int, REDUCE_DIV as int);
        lemma_taylor_sum_bounds(y as int, TAYLOR_TERMS as nat);
        assert((TAYLOR_TERMS + 1) * (SCALE as int) < i64::MAX as int) by (nonlinear_arith);
    }
    let ts: u64 = taylor_eval(y);
    let ghost ts0: int = ts as int;
    let mut w: i64 = ts as i64;
    let mut k: u64 = 0;
    while k < REDUCE_STEPS
        invariant
            0 <= k <= REDUCE_STEPS,
            SCALE as int <= ts0 <= i64::MAX as int,
            w as int == square_iter(ts0, k as nat),
            SCALE <= w,
        decreases REDUCE_STEPS - k,
    {
        proof {
            lemma_square_iter_bounds(ts0, k as nat);
            vstd::arithmetic::mul::lemma_mul_nonnegative(w as int, w as int);
            lemma_mul_upper_bound(w as int, i64::MAX as int, w as int, i64::MAX as int);
            lemma_div_pos_is_pos(w as int * w as int, SCALE as int);
            lemma_square_iter_bounds(ts0, (k + 1) as nat);
        }
        let p: u128 = (w as u128) * (w as u128);
        let q: u128 = p / (SCALE as u128);
        if q > i64::MAX as u128 {
            w = i64::MAX;
        } else {
            w = q as i64;
        }
        k = k + 1;
    }
    w
}

/// The fixed-point exponential, exactly as `spec_exp` describes it.
pub fn exp_fp(x: i64) -> (r: i64)
    ensures
        r as int == spec_exp(x as int),
        0 <= r,
{
    proof {
        lemma_exp_bounds(x as int);
    }
    if x >= 0 {
        exp_nonneg(x)
    } else if x < -EXP_ARG_HI {
        0
    } else {
        let v: i64 = exp_nonneg(-x);
        let num: u128 = (SCALE as u128) * (SCALE as u128);
        let q: u128 = num / (v as u128);
        proof {
            lemma_exp_nonneg_bounds(-x as int);
            lemma_div_is_ordered_by_denominator(
                (SCALE as int) * (SCALE as int),
                SCALE as int,
                v as int,
            );
            lemma_div_multiples_vanish(SCALE as int, SCALE as int);
            lemma_div_pos_is_pos((SCALE as int) * (SCALE as int), v as int);
        }
        q as i64
    }
}

/// The fixed-point exponential of the negation of the argument; unlike
/// `-x`, this is defined for every `i64`.
pub fn exp_of_neg(x: i64) -> (r: i64)
    ensures
        r as int == spec_exp(-(x as int)),
        0 <= r,
{
    if x == i64::MIN {
        proof {
            lemma_exp_nonneg_bounds(-(x as int));
        }
        i64::MAX
    } else {
        exp_fp(-x)
    }
}

} // verus!
