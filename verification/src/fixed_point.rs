//! Signed fixed-point arithmetic on `i64` values scaled by [`SCALE`].
//!
//! A value `v` stands for the real number `v / SCALE`.  Division truncates
//! toward zero and every result saturates at `±i64::MAX`, so each operation
//! is total and has an exact specification-level twin.

use vstd::prelude::*;

verus! {

/// One unit of the fixed-point representation is `1 / SCALE`.
pub const SCALE: i64 = 1_000_000_000_000;

/// Saturate a mathematical integer into the symmetric range
/// `[-i64::MAX, i64::MAX]`.
pub open spec fn clamp(x: int) -> int {
    if x > i64::MAX as int {
        i64::MAX as int
    } else if x < -(i64::MAX as int) {
        -(i64::MAX as int)
    } else {
        x
    }
}

/// Quotient of `a` by `d` (`d > 0`), rounded toward zero, as Rust's integer
/// division rounds.
pub open spec fn trunc_div(a: int, d: int) -> int {
    if a >= 0 {
        a / d
    } else {
        -((-a) / d)
    }
}

/// Saturating addition.
pub open spec fn spec_sat_add(a: int, b: int) -> int {
    clamp(a + b)
}

/// Halving, rounded toward zero.
pub open spec fn spec_half(a: int) -> int {
    trunc_div(a, 2)
}

/// Fixed-point multiplication: `a * b / SCALE`, truncated toward zero and
/// saturated.
pub open spec fn spec_fp_mul(a: int, b: int) -> int {
    clamp(trunc_div(a * b, SCALE as int))
}

/// Saturate an `i128` into an `i64`, clamping at `±i64::MAX`.
pub fn clamp_i128(x: i128) -> (r: i64)
    ensures
        r as int == clamp(x as int),
{
    if x > i64::MAX as i128 {
        i64::MAX
    } else if x < -(i64::MAX as i128) {
        -i64::MAX
    } else {
        x as i64
    }
}

/// Saturating addition of two fixed-point values.
pub fn sat_add(a: i64, b: i64) -> (r: i64)
    ensures
        r as int == spec_sat_add(a as int, b as int),
{
    clamp_i128(a as i128 + b as i128)
}

/// Halve a fixed-point value, rounding toward zero.
pub fn half(a: i64) -> (r: i64)
    ensures
        r as int == spec_half(a as int),
{
    match a.checked_div(2) {
        Some(v) => v,
        None => {
            proof {
                assert(false);
            }
            0
        },
    }
}

/// Multiply two fixed-point values: `a * b / SCALE`, truncated toward zero
/// and saturated at `±i64::MAX`.
pub fn fp_mul(a: i64, b: i64) -> (r: i64)
    ensures
        r as int == spec_fp_mul(a as int, b as int),
{
    proof {
        assert((a as int) * (b as int) <= 0x4000_0000_0000_0000_0000_0000_0000_0000int
            && (a as int) * (b as int) >= -0x4000_0000_0000_0000_0000_0000_0000_0000int)
            by (nonlinear_arith)
            requires
                -0x8000_0000_0000_0000int <= a as int <= 0x7FFF_FFFF_FFFF_FFFFint,
                -0x8000_0000_0000_0000int <= b as int <= 0x7FFF_FFFF_FFFF_FFFFint,
        ;
    }
    let p: i128 = (a as i128) * (b as i128);
    let q: i128 = match p.checked_div(SCALE as i128) {
        Some(v) => v,
        None => {
            proof {
                assert(false);
            }
            0
        },
    };
    proof {
        lemma_checked_div_matches(p as int, SCALE as int);
    }
    clamp_i128(q)
}

/// Saturation preserves order.
pub proof fn lemma_clamp_ordered(a: int, b: int)
    requires
        a <= b,
    ensures
        clamp(a) <= clamp(b),
{
}

/// Saturation is symmetric around zero.
pub proof fn lemma_clamp_neg(a: int)
    ensures
        clamp(-a) == -clamp(a),
{
}

/// Truncating division by a positive divisor preserves order.
pub proof fn lemma_trunc_div_ordered(a: int, b: int, d: int)
    requires
        a <= b,
        0 < d,
    ensures
        trunc_div(a, d) <= trunc_div(b, d),
{
    if a >= 0 {
        vstd::arithmetic::div_mod::lemma_div_is_ordered(a, b, d);
    } else if b < 0 {
        vstd::arithmetic::div_mod::lemma_div_is_ordered(-b, -a, d);
    } else {
        vstd::arithmetic::div_mod::lemma_div_pos_is_pos(-a, d);
        vstd::arithmetic::div_mod::lemma_div_pos_is_pos(b, d);
    }
}

/// Fixed-point multiplication by a nonnegative left factor preserves the
/// order of the right factor.
pub proof fn lemma_fp_mul_ordered_right(a: int, b1: int, b2: int)
    requires
        0 <= a,
        b1 <= b2,
    ensures
        spec_fp_mul(a, b1) <= spec_fp_mul(a, b2),
{
    vstd::arithmetic::mul::lemma_mul_inequality(b1, b2, a);
    assert(b1 * a == a * b1) by (nonlinear_arith);
    assert(b2 * a == a * b2) by (nonlinear_arith);
    lemma_trunc_div_ordered(a * b1, a * b2, SCALE as int);
    lemma_clamp_ordered(trunc_div(a * b1, SCALE as int), trunc_div(a * b2, SCALE as int));
}

/// Multiplying by `SCALE` (one, in fixed point) only saturates.
pub proof fn lemma_fp_mul_scale(a: int)
    ensures
        spec_fp_mul(a, SCALE as int) == clamp(a),
{
    if a >= 0 {
        vstd::arithmetic::mul::lemma_mul_nonnegative(a, SCALE as int);
        assert(a * (SCALE as int) == (SCALE as int) * a) by (nonlinear_arith);
        vstd::arithmetic::div_mod::lemma_div_multiples_vanish(a, SCALE as int);
    } else {
        assert(a * (SCALE as int) < 0) by (nonlinear_arith)
            requires
                a < 0,
                SCALE as int > 0,
        ;
        assert(-(a * (SCALE as int)) == (SCALE as int) * (-a)) by (nonlinear_arith);
        vstd::arithmetic::div_mod::lemma_div_multiples_vanish(-a, SCALE as int);
    }
}

/// The truncating-division spec used by the standard library's `checked_div`
/// agrees with `trunc_div` for a positive divisor.
proof fn lemma_checked_div_matches(x: int, d: int)
    requires
        0 < d,
    ensures
        (if x == 0 {
            0int
        } else if x > 0 {
            x / d
        } else {
            ((x * -1) / d) * -1
        }) == trunc_div(x, d),
{
    if x < 0 {
        assert(x * -1 == -x) by (nonlinear_arith);
        assert(((-x) / d) * -1 == -((-x) / d)) by (nonlinear_arith);
    }
}

} // verus!
