//! Linear filters: the all-pass delay line used by the modulation engine, a
//! single-pole recursive low-pass, a windowed-sinc FIR low-pass, and a DC
//! offset remover.

use vstd::prelude::*;

verus! {

use crate::fixed::SAMPLE_CAP;
use crate::fixed::SCALE;
use crate::fixed::abs1;
use crate::fixed::div_trunc;
use crate::fixed::div_trunc_i;
use crate::fixed::lemma_q_mul_contract;
use crate::fixed::lemma_q_mul_nonneg_bound;
use crate::fixed::q_div;
use crate::fixed::q_div_s;
use crate::fixed::q_mul;
use crate::fixed::q_mul_s;
use crate::fixed::sat;
use crate::fixed::sat_s;
use crate::fixed::lemma_abs_mul;
use crate::fixed::lemma_q_mul_abs;
use crate::fixed::lemma_q_mul_abs_bound;
use crate::fixed::lemma_q_mul_one;
use crate::fixed::lemma_q_mul_zero;
use crate::fixed::HALF;
use crate::math::cos_q;
use crate::math::cos_q_s;
use crate::math::sin_q;
use crate::math::sin_q_s;
use crate::math::tan_q;
use crate::math::tan_q_s;
use vstd::arithmetic::div_mod::lemma_div_is_ordered;
use vstd::arithmetic::div_mod::lemma_div_is_ordered_by_denominator;
use vstd::arithmetic::div_mod::lemma_div_multiples_vanish;
use vstd::arithmetic::div_mod::lemma_div_of0;
use vstd::arithmetic::div_mod::lemma_div_pos_is_pos;
use vstd::arithmetic::mul::lemma_mul_inequality;
use vstd::pervasive::VecAdditionalExecFns;

/// 2*pi in fixed point (quantized).
pub const TWO_PI_Q: i64 = 411775;

/// Lowest accepted sample rate: 1 Hz.
pub const SR_MIN: i64 = 65536;

/// Highest accepted sample rate, comfortably above any audio interface.
pub const SR_MAX: i64 = 68719476736;

/// Highest accepted cutoff frequency.
pub const CUT_MAX: i64 = 2147483648;

/// Every element of the sequence is zero.
pub open spec fn all_zero(s: Seq<i64>) -> bool {
    forall|i: int| 0 <= i < s.len() ==> s[i] == 0
}

/// Every element of the sequence is a saturated sample.
pub open spec fn all_samples(s: Seq<i64>) -> bool {
    forall|i: int| 0 <= i < s.len() ==> abs1(#[trigger] s[i] as int) <= SAMPLE_CAP as int
}

/// A fractional-delay line with feedback: the atomic building block of the
/// modulation effect.  The buffer, write index and feedback are deliberately
/// exposed: the orchestrating engine performs its own fractional-delay reads.
pub struct AllPassFilter {
    /// Circular delay buffer.
    pub delay_buffer: Vec<i64>,
    /// Next write position; wraps modulo the buffer length.
    pub delay_index: usize,
    /// Feedback coefficient; kept in a stable range by the caller.
    pub feedback: i64,
}

impl AllPassFilter {
    /// The buffer has room for two interpolation taps, the write index is in
    /// range, and every stored sample is saturated.
    pub open spec fn wf(&self) -> bool {
        &&& 2 <= self.delay_buffer@.len() <= 1073741824
        &&& (self.delay_index as int) < self.delay_buffer@.len()
        &&& all_samples(self.delay_buffer@)
    }

    /// A zero-filled delay line of exactly `capacity` samples, zero feedback.
    pub fn new(capacity: usize) -> (r: Self)
        requires
            2 <= capacity <= 1073741824,
        ensures
            r.wf(),
            r.delay_buffer@.len() == capacity,
            all_zero(r.delay_buffer@),
            r.delay_index == 0,
            r.feedback == 0,
    {
        let mut buffer: Vec<i64> = Vec::new();
        let mut i: usize = 0;
        while i < capacity
            invariant
                i <= capacity,
                buffer@.len() == i,
                all_zero(buffer@),
            decreases capacity - i,
        {
            buffer.push(0);
            i = i + 1;
        }
        AllPassFilter { delay_buffer: buffer, delay_index: 0, feedback: 0 }
    }

    /// Zero-fill the buffer and rewind the write index; capacity and feedback
    /// are kept.
    pub fn reset(&mut self)
        ensures
            final(self).delay_buffer@.len() == old(self).delay_buffer@.len(),
            all_zero(final(self).delay_buffer@),
            final(self).delay_index == 0,
            final(self).feedback == old(self).feedback,
            old(self).wf() ==> final(self).wf(),
    {
        let len = self.delay_buffer.len();
        let mut i: usize = 0;
        while i < len
            invariant
                i <= len,
                self.delay_buffer@.len() == len,
                self.delay_index == old(self).delay_index,
                self.feedback == old(self).feedback,
                forall|j: int| 0 <= j < i ==> self.delay_buffer@[j] == 0,
            decreases len - i,
        {
            self.delay_buffer.set(i, 0);
            i = i + 1;
        }
        self.delay_index = 0;
    }

    /// Store the feedback coefficient unconditionally; keeping it in a stable
    /// range is the caller's contract.
    pub fn set_feedback(&mut self, g: i64)
        ensures
            final(self).feedback == g,
            final(self).delay_buffer == old(self).delay_buffer,
            final(self).delay_index == old(self).delay_index,
    {
        self.feedback = g;
    }
}

/// The bilinear-transform argument `pi*cutoff/sample_rate`, capped where the
/// tangent series leaves its useful range (at and past Nyquist the tangent
/// saturates; accepted, not validated).
pub open spec fn iir_x_s(sr: int, cutoff: int) -> int {
    let omega = q_mul_s(TWO_PI_Q as int, cutoff);
    let ts = q_div_s(SCALE as int, sr);
    let x = div_trunc(q_mul_s(omega, ts), 2);
    if x > 16 * (SCALE as int) {
        16 * (SCALE as int)
    } else {
        x
    }
}

/// `alpha = tan(pi*cutoff/sample_rate)`.
pub open spec fn iir_alpha_s(sr: int, cutoff: int) -> int {
    tan_q_s(iir_x_s(sr, cutoff))
}

/// `b0 = 1/(1 + alpha)`.
pub open spec fn iir_b0_s(sr: int, cutoff: int) -> int {
    q_div_s(SCALE as int, SCALE + iir_alpha_s(sr, cutoff))
}

/// `a1 = (1 - alpha)/(1 + alpha)`.
pub open spec fn iir_a1_s(sr: int, cutoff: int) -> int {
    q_div_s(SCALE - iir_alpha_s(sr, cutoff), SCALE + iir_alpha_s(sr, cutoff))
}

/// One recursion step: `y = b0*x + a1*y1`, saturated.
pub open spec fn iir_step_s(b0: int, a1: int, y1: int, x: int) -> int {
    sat_s(q_mul_s(b0, x) + q_mul_s(a1, y1))
}

/// The bilinear-transform coefficient pair for a first-order low-pass.
fn design_iir(sample_rate: i64, cutoff_freq: i64) -> (c: (i64, i64))
    requires
        SR_MIN <= sample_rate <= SR_MAX,
        0 <= cutoff_freq <= CUT_MAX,
    ensures
        c.0 == iir_b0_s(sample_rate as int, cutoff_freq as int),
        c.1 == iir_a1_s(sample_rate as int, cutoff_freq as int),
        0 <= c.0 <= SCALE,
        abs1(c.1 as int) <= SCALE as int,
{
    let omega = q_mul(TWO_PI_Q, cutoff_freq);
    proof {
        lemma_q_mul_nonneg_bound(TWO_PI_Q as int, cutoff_freq as int, TWO_PI_Q as int, CUT_MAX as int);
    }
    let ts = q_div(SCALE, sample_rate);
    proof {
        lemma_div_is_ordered_by_denominator(
            (SCALE as int) * (SCALE as int),
            SCALE as int,
            sample_rate as int,
        );
        lemma_div_multiples_vanish(SCALE as int, SCALE as int);
        lemma_div_pos_is_pos((SCALE as int) * (SCALE as int), sample_rate as int);
    }
    let pr = q_mul(omega, ts);
    proof {
        lemma_q_mul_nonneg_bound(omega as int, ts as int, 13493075968, SCALE as int);
    }
    let x = pr / 2;
    let xc = if x > 16 * SCALE {
        16 * SCALE
    } else {
        x
    };
    let alpha = tan_q(xc);
    let b0 = q_div(SCALE, SCALE + alpha);
    proof {
        lemma_div_is_ordered_by_denominator(
            (SCALE as int) * (SCALE as int),
            SCALE as int,
            SCALE as int + alpha as int,
        );
        lemma_div_pos_is_pos((SCALE as int) * (SCALE as int), SCALE as int + alpha as int);
    }
    let a1 = q_div(SCALE - alpha, SCALE + alpha);
    proof {
        lemma_mul_inequality(
            abs1(SCALE as int - alpha as int),
            SCALE as int + alpha as int,
            SCALE as int,
        );
        lemma_div_is_ordered(
            abs1(SCALE as int - alpha as int) * (SCALE as int),
            (SCALE as int + alpha as int) * (SCALE as int),
            SCALE as int + alpha as int,
        );
        lemma_div_multiples_vanish(SCALE as int, SCALE as int + alpha as int);
    }
    (b0, a1)
}

/// Single-pole recursive low-pass; must be fed exactly one sample per call in
/// strict time order.
pub struct IIRLowPass {
    /// Recursion coefficient on the previous output.
    pub a1: i64,
    /// Coefficient on the current input.
    pub b0: i64,
    /// Previous output.
    pub y1: i64,
    /// Sample rate the coefficients were derived for.
    pub sample_rate: i64,
}

impl IIRLowPass {
    /// Coefficients within unit range, saturated state, sane sample rate.
    pub open spec fn wf(&self) -> bool {
        &&& 0 <= self.b0 <= SCALE
        &&& abs1(self.a1 as int) <= SCALE as int
        &&& abs1(self.y1 as int) <= SAMPLE_CAP as int
        &&& SR_MIN <= self.sample_rate <= SR_MAX
    }

    /// A low-pass with the bilinear coefficient pair for `cutoff_freq`.
    pub fn new(sample_rate: i64, cutoff_freq: i64) -> (r: Self)
        requires
            SR_MIN <= sample_rate <= SR_MAX,
            0 <= cutoff_freq <= CUT_MAX,
        ensures
            r.wf(),
            r.b0 == iir_b0_s(sample_rate as int, cutoff_freq as int),
            r.a1 == iir_a1_s(sample_rate as int, cutoff_freq as int),
            r.y1 == 0,
            r.sample_rate == sample_rate,
    {
        let c = design_iir(sample_rate, cutoff_freq);
        IIRLowPass { a1: c.1, b0: c.0, y1: 0, sample_rate }
    }

    /// Recompute the coefficients for a new cutoff and clear the filter state
    /// so no transient leaks from the old history.
    pub fn set_cutoff(&mut self, cutoff_freq: i64)
        requires
            old(self).wf(),
            0 <= cutoff_freq <= CUT_MAX,
        ensures
            final(self).wf(),
            final(self).b0 == iir_b0_s(old(self).sample_rate as int, cutoff_freq as int),
            final(self).a1 == iir_a1_s(old(self).sample_rate as int, cutoff_freq as int),
            final(self).y1 == 0,
            final(self).sample_rate == old(self).sample_rate,
    {
        let c = design_iir(self.sample_rate, cutoff_freq);
        self.b0 = c.0;
        self.a1 = c.1;
        self.y1 = 0;
    }

    /// One recursion step: returns `b0*input + a1*y1` (saturated) and stores
    /// it as the new previous output.
    pub fn process(&mut self, input: i64) -> (r: i64)
        requires
            old(self).wf(),
            abs1(input as int) <= SAMPLE_CAP as int,
        ensures
            final(self).wf(),
            r == iir_step_s(old(self).b0 as int, old(self).a1 as int, old(self).y1 as int, input as int),
            final(self).y1 == r,
            final(self).a1 == old(self).a1,
            final(self).b0 == old(self).b0,
            final(self).sample_rate == old(self).sample_rate,
    {
        proof {
            lemma_q_mul_contract(self.b0 as int, input as int, SAMPLE_CAP as int);
            lemma_q_mul_contract(self.a1 as int, self.y1 as int, SAMPLE_CAP as int);
        }
        let y = sat(q_mul(self.b0, input) + q_mul(self.a1, self.y1));
        self.y1 = y;
        y
    }
}


/// At the zero-cutoff limit the recursion coefficients are both exactly 1,
/// and each step adds the input to the running state: the filter keeps all
/// its history, the low-frequency limit of the design.
pub proof fn lemma_iir_zero_cutoff(sr: int, y1: int, x: int)
    requires
        SR_MIN <= sr <= SR_MAX,
    ensures
        iir_b0_s(sr, 0) == SCALE,
        iir_a1_s(sr, 0) == SCALE,
        iir_step_s(SCALE as int, SCALE as int, y1, x) == sat_s(x + y1),
{
    lemma_q_mul_zero(TWO_PI_Q as int);
    lemma_q_mul_zero(q_div_s(SCALE as int, sr));
    lemma_q_mul_zero(0);
    lemma_div_of0(3);
    lemma_div_of0(2);
    assert(iir_alpha_s(sr, 0) == 0);
    assert((SCALE as int) * (SCALE as int) == (SCALE as int) * (SCALE as int));
    lemma_div_multiples_vanish(SCALE as int, SCALE as int);
    lemma_q_mul_one(x);
    lemma_q_mul_one(y1);
}

/// The sum of a sequence of samples.
pub open spec fn seq_sum(s: Seq<i64>) -> int
    decreases s.len(),
{
    if s.len() == 0 {
        0
    } else {
        seq_sum(s.drop_last()) + s.last()
    }
}

/// The truncated mean of a nonempty sequence of samples.
pub open spec fn dc_mean_s(s: Seq<i64>) -> int {
    div_trunc(seq_sum(s), s.len() as int)
}

/// Subtract the mean from every sample, removing any constant (DC) offset.
pub fn remove_dc_offset(input: &Vec<i64>) -> (r: Vec<i64>)
    requires
        input@.len() <= 1048576,
        all_samples(input@),
    ensures
        r@.len() == input@.len(),
        forall|i: int| 0 <= i < r@.len() ==> r@[i] == input@[i] - dc_mean_s(input@),
{
    if input.len() == 0 {
        return Vec::new();
    }
    let len = input.len();
    let mut sum: i64 = 0;
    let mut i: usize = 0;
    while i < len
        invariant
            i <= len == input@.len() <= 1048576,
            all_samples(input@),
            sum == seq_sum(input@.take(i as int)),
            abs1(sum as int) <= (i as int) * (SAMPLE_CAP as int),
        decreases len - i,
    {
        proof {
            assert(input@.take(i as int + 1).drop_last() =~= input@.take(i as int));
        }
        sum = sum + input[i];
        i = i + 1;
    }
    proof {
        assert(input@.take(len as int) =~= input@);
    }
    let mean = div_trunc_i(sum, len as i64);
    proof {
        lemma_mul_inequality(abs1(sum as int), (len as int) * (SAMPLE_CAP as int), 1);
    }
    let mut out: Vec<i64> = Vec::new();
    let mut j: usize = 0;
    while j < len
        invariant
            j <= len == input@.len() <= 1048576,
            all_samples(input@),
            abs1(mean as int) <= (len as int) * (SAMPLE_CAP as int),
            out@.len() == j,
            mean == dc_mean_s(input@),
            forall|k: int| 0 <= k < j ==> out@[k] == input@[k] - dc_mean_s(input@),
        decreases len - j,
    {
        proof {
            assert(abs1(input@[j as int] as int) <= SAMPLE_CAP as int);
        }
        out.push(input[j] - mean);
        j = j + 1;
    }
    out
}


/// Pi in fixed point (quantized).
pub const PI_Q: i64 = 205887;

/// 0.54 in fixed point (quantized).
pub const C054: i64 = 35389;

/// 0.46 in fixed point (quantized).
pub const C046: i64 = 30147;

/// Highest accepted FIR order.
pub const MAX_ORDER: usize = 1024;

/// Every element is a tap weight of magnitude at most 2.0.
pub open spec fn all_taps(s: Seq<i64>) -> bool {
    forall|i: int| 0 <= i < s.len() ==> abs1(#[trigger] s[i] as int) <= 131072
}

/// Hamming window value at tap `i`: `0.54 - 0.46*cos(2*pi*i/order)`.
pub open spec fn hamming_s(i: int, order: int) -> int {
    C054 - q_mul_s(C046 as int, cos_q_s((i * SCALE) / order))
}

/// `sin(m*pi)` for integer `m`: the LFO sine at phase zero or one half.
pub open spec fn sin_int_pi_s(m: int) -> int {
    if m % 2 == 0 {
        sin_q_s(0)
    } else {
        sin_q_s(HALF as int)
    }
}

/// The sine of an integer multiple of pi is exactly zero.
pub proof fn lemma_sin_int_pi_zero(m: int)
    ensures
        sin_int_pi_s(m) == 0,
{
    lemma_q_mul_zero(0);
    lemma_q_mul_zero(2 * (HALF as int - HALF as int));
}

/// The interpolation denominator `m*pi` has magnitude exactly `|m|*PI_Q`,
/// never zero for `m != 0`.
pub proof fn lemma_fir_denom(m: int)
    requires
        m != 0,
    ensures
        abs1(q_mul_s(m * (SCALE as int), PI_Q as int)) == abs1(m) * (PI_Q as int),
        abs1(q_mul_s(m * (SCALE as int), PI_Q as int)) >= PI_Q as int,
{
    lemma_q_mul_abs(m * (SCALE as int), PI_Q as int);
    lemma_abs_mul(m, SCALE as int);
    assert((abs1(m) * (SCALE as int)) * (PI_Q as int) == (SCALE as int) * (abs1(m) * (PI_Q
        as int))) by (nonlinear_arith);
    lemma_div_multiples_vanish(abs1(m) * (PI_Q as int), SCALE as int);
    lemma_mul_inequality(1, abs1(m), PI_Q as int);
}

/// Normalized (Nyquist-relative) cutoff.
pub open spec fn fir_nc_s(cutoff: int, sr: int) -> int {
    q_div_s(cutoff, sr / 2)
}

/// The design proceeds only for a normalized cutoff inside `[0, 1]`;
/// otherwise the taps are left at zero (accepted degraded behavior).
pub open spec fn fir_design_ok(cutoff: int, sr: int) -> bool {
    0 <= fir_nc_s(cutoff, sr) <= SCALE as int
}

/// Tap `i` of the windowed-sinc design with normalized cutoff `nc`: the
/// center tap is `nc` itself (removing the 0/0 singularity), every other tap
/// is `nc*sin(m*pi)/(m*pi)`, all under the Hamming window.
pub open spec fn fir_tap_s(nc: int, order: int, i: int) -> int {
    let win = hamming_s(i, order);
    if i == order / 2 {
        q_mul_s(nc, win)
    } else {
        let m = i - order / 2;
        let base = q_div_s(q_mul_s(nc, sin_int_pi_s(m)), q_mul_s(m * (SCALE as int), PI_Q as int));
        q_mul_s(base, win)
    }
}

/// Away from the center tap the designed coefficient is exactly zero: the
/// sinc numerator `sin(m*pi)` vanishes for every integer `m`.
pub proof fn lemma_fir_tap_offcenter(nc: int, order: int, i: int)
    requires
        i != order / 2,
    ensures
        fir_tap_s(nc, order, i) == 0,
{
    let m = i - order / 2;
    lemma_sin_int_pi_zero(m);
    lemma_q_mul_zero(nc);
    lemma_fir_denom(m);
    let denom = q_mul_s(m * (SCALE as int), PI_Q as int);
    assert(q_div_s(0, denom) == 0) by {
        lemma_div_of0(abs1(denom));
    }
    lemma_q_mul_zero(hamming_s(i, order));
}

/// Convolution prefix: the dot product of the first `n` taps and samples.
pub open spec fn fir_dot_s(c: Seq<i64>, h: Seq<i64>, n: int) -> int
    decreases n,
{
    if n <= 0 {
        0
    } else {
        fir_dot_s(c, h, n - 1) + q_mul_s(c[n - 1] as int, h[n - 1] as int)
    }
}

proof fn lemma_fir_dot_impulse(c: Seq<i64>, h: Seq<i64>, k: int, n: int)
    requires
        0 <= k < h.len(),
        h.len() <= c.len(),
        n <= h.len(),
        forall|i: int| 0 <= i < h.len() ==> h[i] == (if i == k {
            SCALE
        } else {
            0i64
        }),
    ensures
        fir_dot_s(c, h, n) == (if n > k {
            c[k] as int
        } else {
            0
        }),
    decreases n,
{
    if n > 0 {
        lemma_fir_dot_impulse(c, h, k, n - 1);
        if n - 1 == k {
            lemma_q_mul_one(c[k] as int);
        } else {
            lemma_q_mul_zero(c[n - 1] as int);
        }
    }
}

/// A unit impulse sitting at position `k` of the history reads back exactly
/// coefficient `k`: the convolution confirms the tap alignment.
pub proof fn lemma_fir_impulse_response(c: Seq<i64>, h: Seq<i64>, k: int)
    requires
        0 <= k < h.len(),
        h.len() <= c.len(),
        forall|i: int| 0 <= i < h.len() ==> h[i] == (if i == k {
            SCALE
        } else {
            0i64
        }),
    ensures
        fir_dot_s(c, h, h.len() as int) == c[k] as int,
{
    lemma_fir_dot_impulse(c, h, k, h.len() as int);
}

/// Windowed-sinc FIR low-pass with run-time-recomputable coefficients.
pub struct FIRLowPass {
    /// Tap weights, `order + 1` of them.
    pub coefficients: Vec<i64>,
    /// The last `order` input samples, most recent first.
    pub history: Vec<i64>,
    /// Sample rate the taps were designed for.
    pub sample_rate: i64,
    /// Filter order.
    pub order: usize,
}

impl FIRLowPass {
    /// One more coefficient than history samples, bounded taps, saturated
    /// history, sane rate and order.
    pub open spec fn wf(&self) -> bool {
        &&& self.coefficients@.len() == self.order + 1
        &&& self.history@.len() == self.order
        &&& 1 <= self.order <= MAX_ORDER
        &&& SR_MIN <= self.sample_rate <= SR_MAX
        &&& all_taps(self.coefficients@)
        &&& all_samples(self.history@)
    }

    /// Windowed-sinc taps for `cutoff_freq`, as `fir_tap_s` describes; a
    /// normalized cutoff outside `[0, 1]` leaves every tap zero.
    fn design_lowpass(cutoff_freq: i64, sample_rate: i64, order: usize) -> (r: Vec<i64>)
        requires
            SR_MIN <= sample_rate <= SR_MAX,
            0 <= cutoff_freq <= CUT_MAX,
            1 <= order <= MAX_ORDER,
        ensures
            r@.len() == order + 1,
            all_taps(r@),
            fir_design_ok(cutoff_freq as int, sample_rate as int) ==> forall|i: int|
                0 <= i < r@.len() ==> r@[i] == fir_tap_s(
                    fir_nc_s(cutoff_freq as int, sample_rate as int),
                    order as int,
                    i,
                ),
            !fir_design_ok(cutoff_freq as int, sample_rate as int) ==> all_zero(r@),
    {
        let num_taps = order + 1;
        let mut coefficients: Vec<i64> = Vec::new();
        let mut z: usize = 0;
        while z < num_taps
            invariant
                z <= num_taps,
                coefficients@.len() == z,
                all_zero(coefficients@),
            decreases num_taps - z,
        {
            coefficients.push(0);
            z = z + 1;
        }
        let sr2 = sample_rate / 2;
        let nc = q_div(cutoff_freq, sr2);
        if nc >= 0 && nc <= SCALE {
            let ghost ncg = nc as int;
            let half_order = order / 2;
            let mut i: usize = 0;
            while i < num_taps
                invariant
                    i <= num_taps == order + 1,
                    1 <= order <= MAX_ORDER,
                    half_order == order / 2,
                    0 <= nc <= SCALE,
                    ncg == nc as int,
                    coefficients@.len() == num_taps,
                    all_taps(coefficients@),
                    forall|k: int| 0 <= k < i ==> coefficients@[k] == fir_tap_s(
                        ncg,
                        order as int,
                        k,
                    ),
                decreases num_taps - i,
            {
                proof {
                    lemma_mul_inequality(i as int, order as int, SCALE as int);
                    lemma_div_is_ordered(
                        (i as int) * (SCALE as int),
                        (order as int) * (SCALE as int),
                        order as int,
                    );
                    lemma_div_multiples_vanish(SCALE as int, order as int);
                    lemma_div_pos_is_pos((i as int) * (SCALE as int), order as int);
                    assert((i as int) * (SCALE as int) == (i * 65536) as int);
                    assert((order as int) * (SCALE as int) == (SCALE as int) * (order as int))
                        by (nonlinear_arith);
                }
                let p_num: usize = i * 65536;
                let p: i64 = (p_num / order) as i64;
                let c = cos_q(p);
                let wq = q_mul(C046, c);
                proof {
                    lemma_q_mul_contract(C046 as int, c as int, SCALE as int);
                }
                let win = C054 - wq;
                if i == half_order {
                    let tap = q_mul(nc, win);
                    proof {
                        lemma_q_mul_contract(nc as int, win as int, 131072);
                    }
                    coefficients.set(i, tap);
                } else {
                    let m: i64 = i as i64 - half_order as i64;
                    let par: usize = (i + half_order) % 2;
                    proof {
                        vstd::arithmetic::div_mod::lemma_mod_multiples_vanish(
                            half_order as int,
                            m as int,
                            2,
                        );
                    }
                    let s_val = if par == 0 {
                        sin_q(0)
                    } else {
                        sin_q(HALF)
                    };
                    let mq = m * SCALE;
                    let denom = q_mul(mq, PI_Q);
                    proof {
                        lemma_fir_denom(m as int);
                        lemma_q_mul_abs(mq as int, PI_Q as int);
                    }
                    let num = q_mul(nc, s_val);
                    proof {
                        lemma_q_mul_contract(nc as int, s_val as int, SCALE as int);
                    }
                    let base = q_div(num, denom);
                    proof {
                        lemma_mul_inequality(abs1(num as int), SCALE as int, SCALE as int);
                        lemma_div_is_ordered(
                            abs1(num as int) * (SCALE as int),
                            (SCALE as int) * (SCALE as int),
                            abs1(denom as int),
                        );
                        lemma_div_is_ordered_by_denominator(
                            (SCALE as int) * (SCALE as int),
                            PI_Q as int,
                            abs1(denom as int),
                        );
                        lemma_q_mul_abs_bound(base as int, win as int, 20861, 131072);
                    }
                    let tap = q_mul(base, win);
                    coefficients.set(i, tap);
                }
                i = i + 1;
            }
        }
        coefficients
    }

    /// A low-pass of the given order with freshly designed taps and silent
    /// history.
    pub fn new(cutoff_freq: i64, sample_rate: i64, order: usize) -> (r: Self)
        requires
            SR_MIN <= sample_rate <= SR_MAX,
            0 <= cutoff_freq <= CUT_MAX,
            1 <= order <= MAX_ORDER,
        ensures
            r.wf(),
            r.order == order,
            r.sample_rate == sample_rate,
            r.history@.len() == order,
            all_zero(r.history@),
            fir_design_ok(cutoff_freq as int, sample_rate as int) ==> forall|i: int|
                0 <= i < r.coefficients@.len() ==> r.coefficients@[i] == fir_tap_s(
                    fir_nc_s(cutoff_freq as int, sample_rate as int),
                    order as int,
                    i,
                ),
            !fir_design_ok(cutoff_freq as int, sample_rate as int) ==> all_zero(
                r.coefficients@,
            ),
    {
        let coefficients = Self::design_lowpass(cutoff_freq, sample_rate, order);
        let mut history: Vec<i64> = Vec::new();
        let mut i: usize = 0;
        while i < order
            invariant
                i <= order,
                history@.len() == i,
                all_zero(history@),
            decreases order - i,
        {
            history.push(0);
            i = i + 1;
        }
        FIRLowPass { coefficients, history, sample_rate, order }
    }

    /// Redesign the taps for a new cutoff; the history is kept (it already
    /// has the right length).
    pub fn set_cutoff(&mut self, cutoff_freq: i64)
        requires
            old(self).wf(),
            0 <= cutoff_freq <= CUT_MAX,
        ensures
            final(self).wf(),
            final(self).order == old(self).order,
            final(self).sample_rate == old(self).sample_rate,
            final(self).history == old(self).history,
            fir_design_ok(cutoff_freq as int, old(self).sample_rate as int) ==> forall|i: int|
                0 <= i < final(self).coefficients@.len() ==> final(self).coefficients@[i]
                    == fir_tap_s(
                    fir_nc_s(cutoff_freq as int, old(self).sample_rate as int),
                    old(self).order as int,
                    i,
                ),
            !fir_design_ok(cutoff_freq as int, old(self).sample_rate as int) ==> all_zero(
                final(self).coefficients@,
            ),
    {
        self.coefficients = Self::design_lowpass(cutoff_freq, self.sample_rate, self.order);
    }

    /// Push `input` to the front of the history (dropping the oldest sample)
    /// and return the convolution of taps and history; tap 0 multiplies the
    /// newest sample.
    pub fn process(&mut self, input: i64) -> (r: i64)
        requires
            old(self).wf(),
            abs1(input as int) <= SAMPLE_CAP as int,
        ensures
            final(self).wf(),
            final(self).history@ == seq![input].add(old(self).history@.drop_last()),
            final(self).coefficients == old(self).coefficients,
            final(self).sample_rate == old(self).sample_rate,
            final(self).order == old(self).order,
            r == fir_dot_s(
                final(self).coefficients@,
                final(self).history@,
                old(self).order as int,
            ),
    {
        self.history.insert(0, input);
        let _dropped = self.history.pop();
        proof {
            assert(self.history@ =~= seq![input].add(old(self).history@.drop_last()));
        }
        let n = self.history.len();
        let mut acc: i64 = 0;
        let mut i: usize = 0;
        while i < n
            invariant
                i <= n == self.history@.len(),
                self.history@ == seq![input].add(old(self).history@.drop_last()),
                self.coefficients == old(self).coefficients,
                self.sample_rate == old(self).sample_rate,
                self.order == old(self).order,
                self.history@.len() == self.coefficients@.len() - 1,
                all_taps(self.coefficients@),
                all_samples(self.history@),
                n <= MAX_ORDER,
                acc == fir_dot_s(self.coefficients@, self.history@, i as int),
                abs1(acc as int) <= (i as int) * 8589934592,
            decreases n - i,
        {
            let term = q_mul(self.coefficients[i], self.history[i]);
            proof {
                lemma_q_mul_abs_bound(
                    self.coefficients@[i as int] as int,
                    self.history@[i as int] as int,
                    131072,
                    SAMPLE_CAP as int,
                );
            }
            acc = acc + term;
            i = i + 1;
        }
        acc
    }
}

} // verus!
