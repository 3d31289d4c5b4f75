use rusty_fy::exponential::{exp_fp, exp_of_neg, EXP_ARG_HI};
use rusty_fy::fixed_point::{fp_mul, half, sat_add, SCALE};

#[test]
fn exp_of_zero_is_one() {
    assert_eq!(exp_fp(0), SCALE);
}

#[test]
fn exp_matches_float_exponential() {
    for &r in &[-10.0f64, -1.0, -0.2, -0.04, -0.03, -0.02, 0.01, 0.03, 0.2, 1.0, 2.0] {
        let x = (r * SCALE as f64).round() as i64;
        let got = exp_fp(x) as f64 / SCALE as f64;
        let exact = r.exp();
        assert!(
            (got - exact).abs() < 1e-6 * exact.max(1.0),
            "exp({}) = {} vs {}",
            r,
            got,
            exact
        );
    }
}

#[test]
fn exp_exact_samples() {
    assert_eq!(exp_fp(-30_000_000_000), 970_445_534_110);
    assert_eq!(exp_fp(EXP_ARG_HI + 1), i64::MAX);
    assert_eq!(exp_fp(-EXP_ARG_HI - 1), 0);
}

#[test]
fn exp_is_monotone_on_samples() {
    let xs = [
        i64::MIN,
        -EXP_ARG_HI - 1,
        -EXP_ARG_HI,
        -5 * SCALE,
        -1,
        0,
        1,
        SCALE,
        EXP_ARG_HI,
        i64::MAX,
    ];
    for w in xs.windows(2) {
        assert!(exp_fp(w[0]) <= exp_fp(w[1]));
    }
}

#[test]
fn exp_of_neg_handles_extremes() {
    assert_eq!(exp_of_neg(pct(0.03)), exp_fp(-pct(0.03)));
    assert_eq!(exp_of_neg(i64::MIN), i64::MAX);
}

fn pct(x: f64) -> i64 {
    (x * SCALE as f64).round() as i64
}

#[test]
fn fixed_point_multiplication() {
    assert_eq!(fp_mul(3 * SCALE / 2, 2 * SCALE), 3 * SCALE);
    assert_eq!(fp_mul(-3 * SCALE / 2, 2 * SCALE), -3 * SCALE);
    assert_eq!(fp_mul(7, SCALE), 7);
    assert_eq!(fp_mul(i64::MAX, i64::MAX), i64::MAX);
    assert_eq!(fp_mul(i64::MIN, i64::MAX), -i64::MAX);
}

#[test]
fn halving_truncates_toward_zero() {
    assert_eq!(half(5), 2);
    assert_eq!(half(-5), -2);
    assert_eq!(half(i64::MIN), i64::MIN / 2);
}

#[test]
fn addition_saturates() {
    assert_eq!(sat_add(1, 2), 3);
    assert_eq!(sat_add(i64::MAX, 1), i64::MAX);
    assert_eq!(sat_add(-i64::MAX, -i64::MAX), -i64::MAX);
}
