//! Fixed-point elementary functions: integer square root, a quadratic
//! approximation of the sine over one period, and a cubic approximation of the
//! tangent near zero.  Each executable function's contract states the exact
//! integer value it returns.

use vstd::prelude::*;

verus! {

use crate::fixed::HALF;
use crate::fixed::QD_LIM;
use crate::fixed::QUARTER;
use crate::fixed::SCALE;
use crate::fixed::div_trunc;
use crate::fixed::q_mul;
use crate::fixed::q_mul_s;
use vstd::arithmetic::div_mod::lemma_div_is_ordered;

/// The integer square root: the largest `r` with `r * r <= n`.
pub open spec fn sqrt_floor(n: nat) -> nat
    decreases n,
{
    if n == 0 {
        0
    } else {
        let r = sqrt_floor((n - 1) as nat);
        if (r + 1) * (r + 1) <= n {
            r + 1
        } else {
            r
        }
    }
}

/// `sqrt_floor(n)` squares to at most `n`, and one more squares past `n`.
pub proof fn lemma_sqrt_floor_bounds(n: nat)
    ensures
        sqrt_floor(n) * sqrt_floor(n) <= n,
        n < (sqrt_floor(n) + 1) * (sqrt_floor(n) + 1),
    decreases n,
{
    let s = sqrt_floor(n);
    if n > 0 {
        lemma_sqrt_floor_bounds((n - 1) as nat);
        let r = sqrt_floor((n - 1) as nat);
        assert(s == if (r + 1) * (r + 1) <= n {
            r + 1
        } else {
            r
        });
        if (r + 1) * (r + 1) <= n {
            assert(s * s <= n && n < (s + 1) * (s + 1)) by (nonlinear_arith)
                requires
                    s == r + 1,
                    r >= 0,
                    (r + 1) * (r + 1) <= n,
                    n - 1 < (r + 1) * (r + 1),
            ;
        } else {
            assert(s * s <= n && n < (s + 1) * (s + 1)) by (nonlinear_arith)
                requires
                    s == r,
                    r * r <= n - 1,
                    !((r + 1) * (r + 1) <= n),
            ;
        }
    } else {
        assert(s == 0);
        assert(s * s <= n && n < (s + 1) * (s + 1)) by (nonlinear_arith)
            requires
                s == 0,
                n == 0,
        ;
    }
}

/// Any `r` whose square brackets `n` is the integer square root of `n`.
pub proof fn lemma_sqrt_floor_unique(n: nat, r: nat)
    requires
        r * r <= n,
        n < (r + 1) * (r + 1),
    ensures
        r == sqrt_floor(n),
{
    lemma_sqrt_floor_bounds(n);
    let s = sqrt_floor(n);
    if r < s {
        assert((r + 1) * (r + 1) <= s * s) by (nonlinear_arith)
            requires
                r + 1 <= s,
                r >= 0,
        ;
    } else if s < r {
        assert((s + 1) * (s + 1) <= r * r) by (nonlinear_arith)
            requires
                s + 1 <= r,
                s >= 0,
        ;
    }
}

/// The integer square root is monotone.
pub proof fn lemma_sqrt_floor_mono(n1: nat, n2: nat)
    requires
        n1 <= n2,
    ensures
        sqrt_floor(n1) <= sqrt_floor(n2),
{
    lemma_sqrt_floor_bounds(n1);
    lemma_sqrt_floor_bounds(n2);
    let s1 = sqrt_floor(n1);
    let s2 = sqrt_floor(n2);
    if s2 < s1 {
        assert((s2 + 1) * (s2 + 1) <= s1 * s1) by (nonlinear_arith)
            requires
                s2 + 1 <= s1,
                s2 >= 0,
        ;
    }
}

/// Integer square root by binary search.
pub fn isqrt(n: u64) -> (r: u64)
    ensures
        r == sqrt_floor(n as nat),
        r <= 4294967296,
{
    let mut lo: u64 = 0;
    let mut hi: u64 = 4294967296;
    while lo + 1 < hi
        invariant
            lo < hi <= 4294967296,
            (lo as int) * (lo as int) <= n as int,
            (n as int) < (hi as int) * (hi as int),
        decreases hi - lo,
    {
        let mid: u64 = lo + (hi - lo) / 2;
        proof {
            assert((mid as int) * (mid as int) <= 4294967296 * 4294967296) by (nonlinear_arith)
                requires
                    0 <= mid <= 4294967296,
            ;
        }
        if (mid as u128) * (mid as u128) <= n as u128 {
            lo = mid;
        } else {
            hi = mid;
        }
    }
    proof {
        lemma_sqrt_floor_unique(n as nat, lo as nat);
    }
    lo
}

/// Square root of a fixed-point value: `sqrt_q_s(v) / SCALE` approximates
/// the real square root of `v / SCALE`.
pub open spec fn sqrt_q_s(v: int) -> int {
    sqrt_floor((v * SCALE) as nat) as int
}

/// Fixed-point square root of a nonnegative value.
pub fn sqrt_q(v: i64) -> (r: i64)
    requires
        0 <= v <= QD_LIM,
    ensures
        r == sqrt_q_s(v as int),
        0 <= r <= 2147483648,
{
    let r = isqrt((v as u64) * (SCALE as u64));
    proof {
        lemma_sqrt_floor_bounds((v * SCALE) as nat);
        if r > 2147483648 {
            assert(2147483649 * 2147483649 <= (r as int) * (r as int)) by (nonlinear_arith)
                requires
                    r >= 2147483649,
            ;
        }
    }
    r as i64
}

/// The fixed-point square root is monotone on nonnegative values.
pub proof fn lemma_sqrt_q_mono(v1: int, v2: int)
    requires
        0 <= v1 <= v2,
    ensures
        sqrt_q_s(v1) <= sqrt_q_s(v2),
{
    lemma_sqrt_floor_mono((v1 * SCALE) as nat, (v2 * SCALE) as nat);
}

/// 1.0 is a fixed point of the fixed-point square root.
pub proof fn lemma_sqrt_q_one()
    ensures
        sqrt_q_s(SCALE as int) == SCALE as int,
{
    assert((SCALE as int) * (SCALE as int) == 4294967296) by (nonlinear_arith);
    assert((65536 as nat) * (65536 as nat) == 4294967296 as nat) by (nonlinear_arith);
    assert((65537 as nat) * (65537 as nat) == 4295098369 as nat) by (nonlinear_arith);
    lemma_sqrt_floor_unique(4294967296 as nat, 65536 as nat);
}

/// The fixed-point square root of a value at least 1.0 is at least 1.0.
pub proof fn lemma_sqrt_q_ge_one(v: int)
    requires
        v >= SCALE as int,
    ensures
        sqrt_q_s(v) >= SCALE as int,
{
    lemma_sqrt_q_one();
    lemma_sqrt_q_mono(SCALE as int, v);
}

/// `sin(2*pi*p)` for a phase `p` in `[0, SCALE]`, as one quadratic arch per
/// half period: `4*u*(1-u)` on the first half and its negation on the second.
pub open spec fn sin_q_s(p: int) -> int {
    if p < HALF {
        4 * q_mul_s(2 * p, SCALE - 2 * p)
    } else {
        -4 * q_mul_s(2 * (p - HALF), SCALE - 2 * (p - HALF))
    }
}

/// The quadratic arch stays within `[0, QUARTER]` for `u` in `[0, SCALE]`.
proof fn lemma_arch_bounds(u: int)
    requires
        0 <= u <= SCALE,
    ensures
        0 <= q_mul_s(u, (SCALE - u) as int) <= QUARTER,
{
    assert(0 <= u * (SCALE - u) <= 1073741824) by (nonlinear_arith)
        requires
            0 <= u <= SCALE,
    ;
    lemma_div_is_ordered(u * (SCALE - u), 1073741824, SCALE as int);
    vstd::arithmetic::div_mod::lemma_div_pos_is_pos(u * (SCALE - u), SCALE as int);
}

/// Fixed-point sine of one LFO period; the result lies in `[-SCALE, SCALE]`.
pub fn sin_q(p: i64) -> (r: i64)
    requires
        0 <= p <= SCALE,
    ensures
        r == sin_q_s(p as int),
        -SCALE <= r <= SCALE,
{
    if p < HALF {
        let u: i64 = 2 * p;
        proof {
            lemma_arch_bounds(u as int);
        }
        4 * q_mul(u, SCALE - u)
    } else {
        let u: i64 = 2 * (p - HALF);
        proof {
            lemma_arch_bounds(u as int);
        }
        -4 * q_mul(u, SCALE - u)
    }
}

/// `cos(2*pi*p)` as the sine shifted by a quarter period.
pub open spec fn cos_q_s(p: int) -> int {
    if p + QUARTER >= SCALE {
        sin_q_s(p + QUARTER - SCALE)
    } else {
        sin_q_s(p + QUARTER)
    }
}

/// Fixed-point cosine of one period; the result lies in `[-SCALE, SCALE]`.
pub fn cos_q(p: i64) -> (r: i64)
    requires
        0 <= p <= SCALE,
    ensures
        r == cos_q_s(p as int),
        -SCALE <= r <= SCALE,
{
    let pp: i64 = p + QUARTER;
    if pp >= SCALE {
        sin_q(pp - SCALE)
    } else {
        sin_q(pp)
    }
}

/// `tan(x)` near zero as the cubic series `x + x^3/3`; past the first pole the
/// value merely saturates the way an overdriven analog prototype would.
pub open spec fn tan_q_s(x: int) -> int {
    x + div_trunc(q_mul_s(q_mul_s(x, x), x), 3)
}

/// Fixed-point tangent of a nonnegative argument.
pub fn tan_q(x: i64) -> (r: i64)
    requires
        0 <= x <= 16 * SCALE,
    ensures
        r == tan_q_s(x as int),
        x <= r <= 268435456,
{
    let x2 = q_mul(x, x);
    proof {
        assert(0 <= (x as int) * (x as int) <= 1099511627776) by (nonlinear_arith)
            requires
                0 <= x <= 1048576,
        ;
        lemma_div_is_ordered((x as int) * (x as int), 1099511627776, SCALE as int);
        vstd::arithmetic::div_mod::lemma_div_pos_is_pos((x as int) * (x as int), SCALE as int);
    }
    let x3 = q_mul(x2, x);
    proof {
        assert(0 <= (x2 as int) * (x as int) <= 17592186044416) by (nonlinear_arith)
            requires
                0 <= x2 <= 16777216,
                0 <= x <= 1048576,
        ;
        lemma_div_is_ordered((x2 as int) * (x as int), 17592186044416, SCALE as int);
        vstd::arithmetic::div_mod::lemma_div_pos_is_pos((x2 as int) * (x as int), SCALE as int);
        vstd::arithmetic::div_mod::lemma_div_pos_is_pos(x3 as int, 3);
        lemma_div_is_ordered(x3 as int, 268435456, 3);
    }
    x + x3 / 3
}

} // verus!
