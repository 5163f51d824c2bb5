//! Stateless nonlinear waveshapers for soft and hard clipping.
//!
//! Each shaper is a pure fixed-point map with an exact contract.  The
//! logarithm in `green_clipper` is computed as `16 * (y^(1/16) - 1)` through
//! four square roots, and the exponential as `(1 + z/16)^16` through four
//! squarings; both are standard fixed-point approximations and both contracts
//! state the exact quantity computed.

use vstd::prelude::*;

verus! {

use crate::fixed::HALF;
use crate::fixed::Q_LIM;
use crate::fixed::SAMPLE_CAP;
use crate::fixed::SCALE;
use crate::fixed::abs1;
use crate::fixed::lemma_q_mul_contract;
use crate::fixed::lemma_q_mul_mono;
use crate::fixed::lemma_q_mul_nonneg_bound;
use crate::fixed::lemma_q_sq_bounds;
use crate::fixed::lemma_q_sq_ge_one;
use crate::fixed::lemma_q_sq_mono;
use crate::fixed::q_div;
use crate::fixed::q_div_s;
use crate::fixed::q_mul;
use crate::fixed::q_mul_s;
use crate::math::lemma_sqrt_q_ge_one;
use crate::math::lemma_sqrt_q_mono;
use crate::math::lemma_sqrt_q_one;
use crate::math::sqrt_q;
use crate::math::sqrt_q_s;
use vstd::arithmetic::div_mod::lemma_div_is_ordered;
use vstd::arithmetic::div_mod::lemma_div_is_ordered_by_denominator;
use vstd::arithmetic::div_mod::lemma_div_multiples_vanish;
use vstd::arithmetic::div_mod::lemma_div_nonincreasing;
use vstd::arithmetic::div_mod::lemma_div_pos_is_pos;
use vstd::arithmetic::mul::lemma_mul_inequality;

/// 2.65 in fixed point (quantized).
pub const C265: i64 = 173670;

/// 0.75 in fixed point.
pub const C075: i64 = 49152;

/// 0.43 in fixed point (quantized).
pub const C043: i64 = 28180;

/// 0.3 in fixed point (quantized).
pub const C03: i64 = 19661;

/// Cap on the exponent magnitude in `green_clipper`; `e^-16` is already far
/// below one fixed-point unit.
pub const ZCAP: i64 = 1048576;

/// Input bound for `red_clipper`.
pub const RED_IN_LIM: i64 = 134152192;

/// Input bound for `sigmoid`.
pub const SIG_IN_LIM: i64 = 33554432;

/// The 16th root of `y`, by four fixed-point square roots.
pub open spec fn root16_s(y: int) -> int {
    sqrt_q_s(sqrt_q_s(sqrt_q_s(sqrt_q_s(y))))
}

/// `ln(1 + x)` for `x >= 0` as `16 * ((1 + x)^(1/16) - 1)`.
pub open spec fn ln1p_q_s(x: int) -> int {
    16 * (root16_s(SCALE + x) - SCALE)
}

/// `e^(2.65*x) - 1` for `x < 0` as `1/(1 + z/16)^16 - 1` with `z = -2.65*x`
/// capped at `ZCAP`.
pub open spec fn expm1_q_s(x: int) -> int {
    let z = q_mul_s(C265 as int, -x);
    let zc = if z > ZCAP as int {
        ZCAP as int
    } else {
        z
    };
    let w = SCALE + zc / 16;
    let w2 = q_mul_s(w, w);
    let w4 = q_mul_s(w2, w2);
    let w8 = q_mul_s(w4, w4);
    let w16 = q_mul_s(w8, w8);
    q_div_s(SCALE as int, w16) - SCALE
}

/// Asymmetric soft clip: logarithmic above zero, exponential below.
pub open spec fn green_clipper_s(x: int) -> int {
    if x >= 0 {
        ln1p_q_s(x)
    } else {
        expm1_q_s(x)
    }
}

/// Asymmetric soft clipper: `ln(x + 1)` for `x >= 0`, `e^(2.65*x) - 1` below.
pub fn green_clipper(x: i64) -> (r: i64)
    requires
        -SAMPLE_CAP <= x <= SAMPLE_CAP,
    ensures
        r == green_clipper_s(x as int),
{
    if x >= 0 {
        let s1 = sqrt_q(SCALE + x);
        let s2 = sqrt_q(s1);
        let s3 = sqrt_q(s2);
        let s4 = sqrt_q(s3);
        16 * (s4 - SCALE)
    } else {
        let z = q_mul(C265, -x);
        proof {
            lemma_q_mul_nonneg_bound(C265 as int, -(x as int), C265 as int, SAMPLE_CAP as int);
        }
        let zc = if z > ZCAP {
            ZCAP
        } else {
            z
        };
        let w = SCALE + zc / 16;
        let w2 = q_mul(w, w);
        proof {
            lemma_q_mul_nonneg_bound(w as int, w as int, 131072, 131072);
            lemma_q_sq_ge_one(w as int);
        }
        let w4 = q_mul(w2, w2);
        proof {
            lemma_q_mul_nonneg_bound(w2 as int, w2 as int, 262144, 262144);
            lemma_q_sq_ge_one(w2 as int);
        }
        let w8 = q_mul(w4, w4);
        proof {
            lemma_q_mul_nonneg_bound(w4 as int, w4 as int, 1048576, 1048576);
            lemma_q_sq_ge_one(w4 as int);
        }
        let w16 = q_mul(w8, w8);
        proof {
            lemma_q_mul_nonneg_bound(w8 as int, w8 as int, 16777216, 16777216);
            lemma_q_sq_ge_one(w8 as int);
        }
        let inv = q_div(SCALE, w16);
        proof {
            lemma_div_is_ordered_by_denominator(
                (SCALE as int) * (SCALE as int),
                SCALE as int,
                w16 as int,
            );
            lemma_div_multiples_vanish(SCALE as int, SCALE as int);
        }
        inv - SCALE
    }
}

/// A rational soft-clip curve.
pub open spec fn red_clipper_s(x: int) -> int {
    let num = q_mul_s(HALF as int, x);
    let dev = num - SCALE;
    let den = sqrt_q_s(SCALE + q_mul_s(C075 as int, q_mul_s(dev, dev)));
    q_div_s(num, den) + HALF - (SCALE + HALF)
}

/// Rational soft clipper: `(x/2) / sqrt(1 + 0.75*(x/2 - 1)^2) + 0.5 - 1.5`.
pub fn red_clipper(x: i64) -> (r: i64)
    requires
        -RED_IN_LIM <= x <= RED_IN_LIM,
    ensures
        r == red_clipper_s(x as int),
{
    let num = q_mul(HALF, x);
    proof {
        lemma_q_mul_contract(HALF as int, x as int, RED_IN_LIM as int);
    }
    let dev = num - SCALE;
    let sq = q_mul(dev, dev);
    proof {
        lemma_q_sq_bounds(dev as int, 134217728);
    }
    let scaled = q_mul(C075, sq);
    proof {
        lemma_q_mul_nonneg_bound(C075 as int, sq as int, C075 as int, Q_LIM as int);
    }
    let v = SCALE + scaled;
    let den = sqrt_q(v);
    proof {
        lemma_sqrt_q_ge_one(v as int);
    }
    let t = q_div(num, den);
    proof {
        lemma_div_nonincreasing(abs1(num as int) * (SCALE as int), abs1(den as int));
        lemma_mul_inequality(abs1(num as int), RED_IN_LIM as int, SCALE as int);
    }
    t + HALF - (SCALE + HALF)
}

/// A soft-knee curve centered off zero.
pub open spec fn sigmoid_s(x: int) -> int {
    let dev = x - C03;
    let ratio = q_div_s(dev, C03 as int);
    let v = SCALE + q_mul_s(C075 as int, q_mul_s(ratio, ratio));
    q_mul_s(q_mul_s(C043 as int, dev), sqrt_q_s(v))
}

/// Soft-knee shaper: `0.43*(x - 0.3)*sqrt(1 + 0.75*((x - 0.3)/0.3)^2)`.
pub fn sigmoid(x: i64) -> (r: i64)
    requires
        -SIG_IN_LIM <= x <= SIG_IN_LIM,
    ensures
        r == sigmoid_s(x as int),
{
    let dev = x - C03;
    let ratio = q_div(dev, C03);
    proof {
        lemma_mul_inequality(abs1(dev as int), 33574093, SCALE as int);
        lemma_div_is_ordered(
            abs1(dev as int) * (SCALE as int),
            33574093 * (SCALE as int),
            C03 as int,
        );
    }
    let sq = q_mul(ratio, ratio);
    proof {
        lemma_q_sq_bounds(ratio as int, 134217728);
    }
    let scaled = q_mul(C075, sq);
    proof {
        lemma_q_mul_nonneg_bound(C075 as int, sq as int, C075 as int, Q_LIM as int);
    }
    let v = SCALE + scaled;
    let rt = sqrt_q(v);
    let a = q_mul(C043, dev);
    proof {
        lemma_q_mul_contract(C043 as int, dev as int, 33574093);
    }
    q_mul(a, rt)
}

/// `x` clamped to `[-t, t]` (for a nonnegative threshold `t`): the minimum of
/// `x` and `t`, then the maximum of that and `-t`.
pub open spec fn hard_clipper_s(x: int, t: int) -> int {
    let lo = if x < t {
        x
    } else {
        t
    };
    if lo > -t {
        lo
    } else {
        -t
    }
}

/// Hard clipper: clamps `x` to `[-t, t]`.
pub fn hard_clipper(x: i64, t: i64) -> (r: i64)
    requires
        t > i64::MIN,
    ensures
        r == hard_clipper_s(x as int, t as int),
        t >= 0 ==> -t <= r <= t,
{
    let lo = if x < t {
        x
    } else {
        t
    };
    if lo > -t {
        lo
    } else {
        -t
    }
}


/// The soft clipper maps silence to exact silence: `green_clipper_s(0) == 0`.
pub proof fn lemma_green_clipper_zero()
    ensures
        green_clipper_s(0) == 0,
{
    lemma_sqrt_q_one();
}

/// The logarithmic branch is monotone.
proof fn lemma_ln1p_mono(x1: int, x2: int)
    requires
        0 <= x1 <= x2,
    ensures
        ln1p_q_s(x1) <= ln1p_q_s(x2),
{
    lemma_sqrt_q_mono(SCALE + x1, SCALE + x2);
    lemma_sqrt_q_mono(sqrt_q_s(SCALE + x1), sqrt_q_s(SCALE + x2));
    lemma_sqrt_q_mono(sqrt_q_s(sqrt_q_s(SCALE + x1)), sqrt_q_s(sqrt_q_s(SCALE + x2)));
    lemma_sqrt_q_mono(
        sqrt_q_s(sqrt_q_s(sqrt_q_s(SCALE + x1))),
        sqrt_q_s(sqrt_q_s(sqrt_q_s(SCALE + x2))),
    );
}

/// The logarithmic branch is nonnegative at and above zero.
proof fn lemma_ln1p_nonneg(x: int)
    requires
        x >= 0,
    ensures
        ln1p_q_s(x) >= 0,
{
    lemma_sqrt_q_ge_one(SCALE + x);
    lemma_sqrt_q_ge_one(sqrt_q_s(SCALE + x));
    lemma_sqrt_q_ge_one(sqrt_q_s(sqrt_q_s(SCALE + x)));
    lemma_sqrt_q_ge_one(sqrt_q_s(sqrt_q_s(sqrt_q_s(SCALE + x))));
}

/// The exponential branch never rises above zero.
proof fn lemma_expm1_nonpos(x: int)
    requires
        x < 0,
    ensures
        expm1_q_s(x) <= 0,
{
    let z = q_mul_s(C265 as int, -x);
    lemma_q_mul_nonneg_bound(C265 as int, -x, C265 as int, -x);
    let zc = if z > ZCAP as int {
        ZCAP as int
    } else {
        z
    };
    lemma_div_pos_is_pos(zc, 16);
    let w = SCALE + zc / 16;
    let w2 = q_mul_s(w, w);
    let w4 = q_mul_s(w2, w2);
    let w8 = q_mul_s(w4, w4);
    let w16 = q_mul_s(w8, w8);
    lemma_q_sq_ge_one(w);
    lemma_q_sq_ge_one(w2);
    lemma_q_sq_ge_one(w4);
    lemma_q_sq_ge_one(w8);
    lemma_div_is_ordered_by_denominator((SCALE as int) * (SCALE as int), SCALE as int, w16);
    lemma_div_multiples_vanish(SCALE as int, SCALE as int);
}

/// The exponential branch is monotone below zero.
proof fn lemma_expm1_mono(x1: int, x2: int)
    requires
        x1 <= x2 < 0,
    ensures
        expm1_q_s(x1) <= expm1_q_s(x2),
{
    let z1 = q_mul_s(C265 as int, -x1);
    let z2 = q_mul_s(C265 as int, -x2);
    lemma_q_mul_mono(C265 as int, -x2, -x1);
    lemma_q_mul_nonneg_bound(C265 as int, -x2, C265 as int, -x2);
    let zc1 = if z1 > ZCAP as int {
        ZCAP as int
    } else {
        z1
    };
    let zc2 = if z2 > ZCAP as int {
        ZCAP as int
    } else {
        z2
    };
    lemma_div_is_ordered(zc2, zc1, 16);
    lemma_div_pos_is_pos(zc2, 16);
    let w1 = SCALE + zc1 / 16;
    let w2_ = SCALE + zc2 / 16;
    lemma_q_sq_mono(w2_, w1);
    lemma_q_sq_ge_one(w1);
    lemma_q_sq_ge_one(w2_);
    let a1 = q_mul_s(w1, w1);
    let a2 = q_mul_s(w2_, w2_);
    lemma_q_sq_mono(a2, a1);
    lemma_q_sq_ge_one(a1);
    lemma_q_sq_ge_one(a2);
    let b1 = q_mul_s(a1, a1);
    let b2 = q_mul_s(a2, a2);
    lemma_q_sq_mono(b2, b1);
    lemma_q_sq_ge_one(b1);
    lemma_q_sq_ge_one(b2);
    let c1 = q_mul_s(b1, b1);
    let c2 = q_mul_s(b2, b2);
    lemma_q_sq_mono(c2, c1);
    lemma_q_sq_ge_one(c1);
    lemma_q_sq_ge_one(c2);
    let d1 = q_mul_s(c1, c1);
    let d2 = q_mul_s(c2, c2);
    lemma_div_is_ordered_by_denominator((SCALE as int) * (SCALE as int), d2, d1);
}

/// The asymmetric soft clipper is monotonically non-decreasing.
pub proof fn lemma_green_clipper_monotone(x1: int, x2: int)
    requires
        x1 <= x2,
    ensures
        green_clipper_s(x1) <= green_clipper_s(x2),
{
    if x1 >= 0 {
        lemma_ln1p_mono(x1, x2);
    } else if x2 < 0 {
        lemma_expm1_mono(x1, x2);
    } else {
        lemma_expm1_nonpos(x1);
        lemma_ln1p_nonneg(x2);
    }
}

} // verus!
