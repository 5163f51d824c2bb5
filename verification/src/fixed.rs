//! Q16.16 fixed-point arithmetic on `i64`.
//!
//! Every sample, coefficient and parameter in this crate is a signed
//! fixed-point number with `SCALE` units to 1.0.  The helpers here give the
//! executable operations exact integer contracts: multiplication and division
//! truncate toward zero (the sign-magnitude form below), and values on the
//! processing path saturate at `SAMPLE_CAP` instead of overflowing.

use vstd::prelude::*;

verus! {

use vstd::arithmetic::div_mod::lemma_div_is_ordered;
use vstd::arithmetic::div_mod::lemma_div_of0;
use vstd::arithmetic::div_mod::lemma_div_multiples_vanish;
use vstd::arithmetic::div_mod::lemma_div_nonincreasing;
use vstd::arithmetic::div_mod::lemma_div_pos_is_pos;
use vstd::arithmetic::mul::lemma_mul_inequality;
use vstd::arithmetic::mul::lemma_mul_upper_bound;

/// Fixed-point units per 1.0.
pub const SCALE: i64 = 65536;

/// 0.5 in fixed point.
pub const HALF: i64 = 32768;

/// 0.25 in fixed point.
pub const QUARTER: i64 = 16384;

/// Largest magnitude accepted by `q_mul` (so the scaled product fits `i64`).
pub const Q_LIM: i64 = 274877906944;

/// Largest numerator magnitude accepted by `q_div`.
pub const QD_LIM: i64 = 70368744177664;

/// Saturation bound for samples on the processing path.
pub const SAMPLE_CAP: i64 = 4294967296;

/// Magnitude of an integer.
pub open spec fn abs1(a: int) -> int {
    if a >= 0 {
        a
    } else {
        -a
    }
}

/// Division truncating toward zero, `d != 0`; matches hardware signed division.
pub open spec fn div_trunc(n: int, d: int) -> int {
    if (n >= 0) == (d >= 0) {
        abs1(n) / abs1(d)
    } else {
        -(abs1(n) / abs1(d))
    }
}

/// Fixed-point product: `a * b / SCALE`, truncated toward zero.
pub open spec fn q_mul_s(a: int, b: int) -> int {
    div_trunc(a * b, SCALE as int)
}

/// Fixed-point quotient: `a * SCALE / b`, truncated toward zero.
pub open spec fn q_div_s(a: int, b: int) -> int {
    div_trunc(a * (SCALE as int), b)
}

/// `v` forced into `[lo, hi]`.
pub open spec fn clamp_s(v: int, lo: int, hi: int) -> int {
    if v < lo {
        lo
    } else if v > hi {
        hi
    } else {
        v
    }
}

/// Saturation of a sample to `[-SAMPLE_CAP, SAMPLE_CAP]`.
pub open spec fn sat_s(v: int) -> int {
    clamp_s(v, -(SAMPLE_CAP as int), SAMPLE_CAP as int)
}

/// The magnitude of a product is the product of the magnitudes.
pub proof fn lemma_abs_mul(a: int, b: int)
    ensures
        abs1(a * b) == abs1(a) * abs1(b),
{
    if a >= 0 && b >= 0 {
        assert(a * b >= 0) by (nonlinear_arith)
            requires
                a >= 0,
                b >= 0,
        ;
    } else if a >= 0 && b < 0 {
        assert(a * b <= 0 && a * b == -(a * -b)) by (nonlinear_arith)
            requires
                a >= 0,
                b < 0,
        ;
    } else if a < 0 && b >= 0 {
        assert(a * b <= 0 && a * b == -(-a * b)) by (nonlinear_arith)
            requires
                a < 0,
                b >= 0,
        ;
    } else {
        assert(a * b >= 0 && a * b == -a * -b) by (nonlinear_arith)
            requires
                a < 0,
                b < 0,
        ;
    }
}

/// The sign of a product follows the signs of its factors.
pub proof fn lemma_mul_sign(a: int, b: int)
    ensures
        ((a >= 0) == (b >= 0)) ==> a * b >= 0,
        ((a >= 0) != (b >= 0)) ==> a * b <= 0,
{
    if a >= 0 && b >= 0 {
        assert(a * b >= 0) by (nonlinear_arith)
            requires
                a >= 0,
                b >= 0,
        ;
    } else if a < 0 && b < 0 {
        assert(a * b >= 0) by (nonlinear_arith)
            requires
                a < 0,
                b < 0,
        ;
    } else {
        assert(a * b <= 0) by (nonlinear_arith)
            requires
                (a >= 0 && b < 0) || (a < 0 && b >= 0),
        ;
    }
}

/// Truncating division by a positive divisor keeps the magnitude bound
/// `|n/d| == |n|/d` and never increases the magnitude.
pub proof fn lemma_div_trunc_abs(n: int, d: int)
    requires
        d > 0,
    ensures
        abs1(div_trunc(n, d)) == abs1(n) / d,
        abs1(div_trunc(n, d)) <= abs1(n),
{
    lemma_div_pos_is_pos(abs1(n), d);
    lemma_div_nonincreasing(abs1(n), d);
}

/// Truncating division by a positive divisor is monotone.
pub proof fn lemma_div_trunc_mono(n1: int, n2: int, d: int)
    requires
        d > 0,
        n1 <= n2,
    ensures
        div_trunc(n1, d) <= div_trunc(n2, d),
{
    if n1 >= 0 {
        lemma_div_is_ordered(n1, n2, d);
    } else if n2 < 0 {
        lemma_div_is_ordered(-n2, -n1, d);
    } else {
        lemma_div_pos_is_pos(-n1, d);
        lemma_div_pos_is_pos(n2, d);
    }
}

/// Fixed-point products keep the exact magnitude `|a|*|b|/SCALE`.
pub proof fn lemma_q_mul_abs(a: int, b: int)
    ensures
        abs1(q_mul_s(a, b)) == abs1(a) * abs1(b) / (SCALE as int),
        abs1(q_mul_s(a, b)) <= abs1(a) * abs1(b),
{
    lemma_abs_mul(a, b);
    lemma_div_trunc_abs(a * b, SCALE as int);
}

/// Multiplying by a coefficient no larger than 1.0 never grows a sample.
pub proof fn lemma_q_mul_contract(c: int, x: int, m: int)
    requires
        abs1(c) <= SCALE as int,
        abs1(x) <= m,
    ensures
        abs1(q_mul_s(c, x)) <= m,
{
    lemma_q_mul_abs(c, x);
    lemma_mul_upper_bound(abs1(c), SCALE as int, abs1(x), m);
    lemma_div_is_ordered(abs1(c) * abs1(x), (SCALE as int) * m, SCALE as int);
    lemma_div_multiples_vanish(m, SCALE as int);
}

/// A fixed left factor `c >= 0` makes `q_mul_s` monotone in the right factor.
pub proof fn lemma_q_mul_mono(c: int, x1: int, x2: int)
    requires
        c >= 0,
        x1 <= x2,
    ensures
        q_mul_s(c, x1) <= q_mul_s(c, x2),
{
    lemma_mul_inequality(x1, x2, c);
    assert(x1 * c == c * x1 && x2 * c == c * x2) by (nonlinear_arith);
    lemma_div_trunc_mono(c * x1, c * x2, SCALE as int);
}

/// A product of nonnegative factors keeps `0 <= q_mul_s(a, b) <= ma*mb/SCALE`.
pub proof fn lemma_q_mul_nonneg_bound(a: int, b: int, ma: int, mb: int)
    requires
        0 <= a <= ma,
        0 <= b <= mb,
    ensures
        0 <= q_mul_s(a, b) <= ma * mb / (SCALE as int),
{
    lemma_mul_sign(a, b);
    lemma_mul_upper_bound(a, ma, b, mb);
    lemma_div_pos_is_pos(a * b, SCALE as int);
    lemma_div_is_ordered(a * b, ma * mb, SCALE as int);
}

/// A fixed-point square is nonnegative and bounded by the squared bound.
pub proof fn lemma_q_sq_bounds(d: int, m: int)
    requires
        abs1(d) <= m,
    ensures
        0 <= q_mul_s(d, d) <= m * m / (SCALE as int),
{
    lemma_abs_mul(d, d);
    lemma_mul_sign(d, d);
    lemma_mul_upper_bound(abs1(d), m, abs1(d), m);
    lemma_div_pos_is_pos(d * d, SCALE as int);
    lemma_div_trunc_abs(d * d, SCALE as int);
    lemma_div_is_ordered(abs1(d) * abs1(d), m * m, SCALE as int);
}

/// Squaring in fixed point is monotone on nonnegative values.
pub proof fn lemma_q_sq_mono(b1: int, b2: int)
    requires
        0 <= b1 <= b2,
    ensures
        q_mul_s(b1, b1) <= q_mul_s(b2, b2),
{
    lemma_mul_upper_bound(b1, b2, b1, b2);
    lemma_div_trunc_mono(b1 * b1, b2 * b2, SCALE as int);
}

/// The square of a value at least 1.0 is still at least 1.0.
pub proof fn lemma_q_sq_ge_one(w: int)
    requires
        w >= SCALE as int,
    ensures
        q_mul_s(w, w) >= SCALE as int,
{
    lemma_mul_inequality(SCALE as int, w, SCALE as int);
    lemma_mul_inequality(SCALE as int, w, w);
    assert(w * (SCALE as int) == (SCALE as int) * w && w * w == w * w) by (nonlinear_arith);
    lemma_mul_sign(w, w);
    lemma_div_is_ordered((SCALE as int) * (SCALE as int), w * w, SCALE as int);
    lemma_div_multiples_vanish(SCALE as int, SCALE as int);
}

/// Fixed-point multiply, truncating toward zero.
pub fn q_mul(a: i64, b: i64) -> (r: i64)
    requires
        -Q_LIM <= a <= Q_LIM,
        -Q_LIM <= b <= Q_LIM,
    ensures
        r == q_mul_s(a as int, b as int),
{
    let ma: u64 = if a >= 0 {
        a as u64
    } else {
        (-a) as u64
    };
    let mb: u64 = if b >= 0 {
        b as u64
    } else {
        (-b) as u64
    };
    proof {
        lemma_abs_mul(a as int, b as int);
        lemma_mul_sign(a as int, b as int);
        lemma_mul_upper_bound(ma as int, Q_LIM as int, mb as int, Q_LIM as int);
    }
    let p: u128 = (ma as u128) * (mb as u128);
    let q: u128 = p / (SCALE as u128);
    proof {
        lemma_div_is_ordered(p as int, (Q_LIM as int) * (Q_LIM as int), SCALE as int);
        lemma_div_of0(SCALE as int);
    }
    let qi: i64 = q as i64;
    if (a >= 0) == (b >= 0) {
        qi
    } else {
        -qi
    }
}

/// Fixed-point divide, truncating toward zero; the divisor must be nonzero.
pub fn q_div(a: i64, b: i64) -> (r: i64)
    requires
        -QD_LIM <= a <= QD_LIM,
        b != 0,
        -QD_LIM <= b <= QD_LIM,
    ensures
        r == q_div_s(a as int, b as int),
        abs1(r as int) == abs1(a as int) * (SCALE as int) / abs1(b as int),
{
    let ma: u64 = if a >= 0 {
        a as u64
    } else {
        (-a) as u64
    };
    let mb: u64 = if b >= 0 {
        b as u64
    } else {
        (-b) as u64
    };
    proof {
        lemma_abs_mul(a as int, SCALE as int);
        lemma_mul_sign(a as int, SCALE as int);
        lemma_mul_upper_bound(ma as int, QD_LIM as int, SCALE as int, SCALE as int);
    }
    let p: u128 = (ma as u128) * (SCALE as u128);
    let q: u128 = p / (mb as u128);
    proof {
        lemma_div_is_ordered(p as int, (QD_LIM as int) * (SCALE as int), mb as int);
        lemma_div_nonincreasing((QD_LIM as int) * (SCALE as int), mb as int);
        lemma_div_of0(mb as int);
    }
    let qi: i64 = q as i64;
    if (a >= 0) == (b >= 0) {
        qi
    } else {
        -qi
    }
}

/// General magnitude bound for a fixed-point product.
pub proof fn lemma_q_mul_abs_bound(a: int, b: int, ma: int, mb: int)
    requires
        abs1(a) <= ma,
        abs1(b) <= mb,
    ensures
        abs1(q_mul_s(a, b)) <= ma * mb / (SCALE as int),
{
    lemma_q_mul_abs(a, b);
    lemma_mul_upper_bound(abs1(a), ma, abs1(b), mb);
    lemma_div_is_ordered(abs1(a) * abs1(b), ma * mb, SCALE as int);
}

/// A fixed-point product with a zero factor is zero.
pub proof fn lemma_q_mul_zero(x: int)
    ensures
        q_mul_s(x, 0) == 0,
        q_mul_s(0, x) == 0,
{
    vstd::arithmetic::mul::lemma_mul_by_zero_is_zero(x);
    lemma_div_of0(SCALE as int);
}

/// Multiplying by exactly 1.0 in fixed point is the identity.
pub proof fn lemma_q_mul_one(x: int)
    ensures
        q_mul_s(x, SCALE as int) == x,
        q_mul_s(SCALE as int, x) == x,
{
    assert(x * (SCALE as int) == (SCALE as int) * x) by (nonlinear_arith);
    lemma_abs_mul(x, SCALE as int);
    lemma_mul_sign(x, SCALE as int);
    assert(abs1(x) * (SCALE as int) == (SCALE as int) * abs1(x)) by (nonlinear_arith);
    lemma_div_multiples_vanish(abs1(x), SCALE as int);
}

/// Integer division truncating toward zero, by a positive divisor.
pub fn div_trunc_i(n: i64, d: i64) -> (r: i64)
    requires
        n > i64::MIN,
        d > 0,
    ensures
        r == div_trunc(n as int, d as int),
        abs1(r as int) <= abs1(n as int),
{
    proof {
        lemma_div_nonincreasing(abs1(n as int), d as int);
        lemma_div_pos_is_pos(abs1(n as int), d as int);
    }
    if n >= 0 {
        n / d
    } else {
        -((-n) / d)
    }
}

/// Saturate a value to the sample range.
pub fn sat(v: i64) -> (r: i64)
    ensures
        r == sat_s(v as int),
{
    if v < -SAMPLE_CAP {
        -SAMPLE_CAP
    } else if v > SAMPLE_CAP {
        SAMPLE_CAP
    } else {
        v
    }
}

} // verus!
