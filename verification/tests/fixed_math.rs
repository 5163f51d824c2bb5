use univibe::fixed::{div_trunc_i, q_div, q_mul, sat, HALF, QUARTER, SAMPLE_CAP, SCALE};
use univibe::math::{cos_q, isqrt, sin_q, sqrt_q, tan_q};

#[test]
fn q_mul_exact_products() {
    assert_eq!(q_mul(3 * SCALE, 2 * SCALE), 6 * SCALE);
    assert_eq!(q_mul(HALF, HALF), QUARTER);
    assert_eq!(q_mul(-HALF, HALF), -QUARTER);
}

#[test]
fn q_mul_truncates_toward_zero() {
    assert_eq!(q_mul(-65537, HALF), -32768);
    assert_eq!(q_mul(65537, HALF), 32768);
}

#[test]
fn q_div_exact_quotients() {
    assert_eq!(q_div(6 * SCALE, 3 * SCALE), 2 * SCALE);
    assert_eq!(q_div(SCALE, 2 * SCALE), HALF);
    assert_eq!(q_div(-SCALE, 2 * SCALE), -HALF);
    assert_eq!(q_div(SCALE, -2 * SCALE), -HALF);
}

#[test]
fn div_trunc_i_signs() {
    assert_eq!(div_trunc_i(7, 2), 3);
    assert_eq!(div_trunc_i(-7, 2), -3);
}

#[test]
fn sat_clamps() {
    assert_eq!(sat(SAMPLE_CAP + 1), SAMPLE_CAP);
    assert_eq!(sat(-SAMPLE_CAP - 1), -SAMPLE_CAP);
    assert_eq!(sat(123), 123);
}

#[test]
fn isqrt_values() {
    assert_eq!(isqrt(0), 0);
    assert_eq!(isqrt(15), 3);
    assert_eq!(isqrt(16), 4);
    assert_eq!(isqrt(u64::MAX), 4294967295);
}

#[test]
fn sqrt_q_perfect_squares() {
    assert_eq!(sqrt_q(SCALE), SCALE);
    assert_eq!(sqrt_q(4 * SCALE), 2 * SCALE);
    assert_eq!(sqrt_q(0), 0);
}

#[test]
fn sine_key_points() {
    assert_eq!(sin_q(0), 0);
    assert_eq!(sin_q(QUARTER), SCALE);
    assert_eq!(sin_q(HALF), 0);
    assert_eq!(sin_q(HALF + QUARTER), -SCALE);
    assert_eq!(sin_q(SCALE), 0);
}

#[test]
fn cosine_key_points() {
    assert_eq!(cos_q(0), SCALE);
    assert_eq!(cos_q(QUARTER), 0);
    assert_eq!(cos_q(HALF), -SCALE);
}

#[test]
fn tangent_series() {
    // tan(1) by the cubic series: 1 + 1/3.
    assert_eq!(tan_q(SCALE), 87381);
    assert_eq!(tan_q(0), 0);
}
