//! The modulation engine: a chain of LFO-modulated fractional-delay all-pass
//! stages producing the phaser/vibe effect.
//!
//! `vibe_out_s` is the mathematical model of one `process` call: stage `k`
//! advances its own LFO phase, turns it into a fractional delay around the
//! base delay, reads two buffer taps, interpolates, and feeds the all-pass
//! output of stage `k` into stage `k + 1`.

use vstd::prelude::*;

verus! {

use crate::filters::AllPassFilter;
use crate::filters::SR_MAX;
use crate::filters::all_zero;
use crate::fixed::SAMPLE_CAP;
use crate::fixed::SCALE;
use crate::fixed::abs1;
use crate::fixed::clamp_s;
use crate::fixed::lemma_q_mul_contract;
use crate::fixed::lemma_q_mul_zero;
use crate::fixed::q_div;
use crate::fixed::q_div_s;
use crate::fixed::q_mul;
use crate::fixed::q_mul_s;
use crate::fixed::sat;
use crate::fixed::sat_s;
use crate::math::sin_q;
use crate::math::sin_q_s;
use vstd::arithmetic::div_mod::lemma_div_is_ordered;
use vstd::arithmetic::div_mod::lemma_div_multiples_vanish;
use vstd::arithmetic::div_mod::lemma_div_pos_is_pos;
use vstd::arithmetic::div_mod::lemma_fundamental_div_mod;
use vstd::arithmetic::div_mod::lemma_mod_division_less_than_divisor;
use vstd::arithmetic::div_mod::lemma_mod_multiples_basic;
use vstd::arithmetic::mul::lemma_mul_inequality;
use vstd::pervasive::VecAdditionalExecFns;

/// Lowest sample rate the engine accepts (400 Hz), so the delay line always
/// has room for the two interpolation taps.
pub const VIBE_SR_MIN: i64 = 26214400;

/// Base delay in whole samples: 5 ms at the given rate.
pub open spec fn base_delay_s(sr: int) -> int {
    ((sr * 5) / 1000) / (SCALE as int)
}

/// Modulation range in fixed-point samples: 2 ms at the given rate.
pub open spec fn mod_range_s(sr: int) -> int {
    (sr * 2) / 1000
}

/// Delay-line capacity: the base delay plus twice the modulation range.
pub open spec fn vibe_capacity_s(sr: int) -> int {
    base_delay_s(sr) + (2 * mod_range_s(sr)) / (SCALE as int)
}

/// The derived delay quantities stay in a small, safe range.
pub proof fn lemma_vibe_derived_bounds(sr: int)
    requires
        VIBE_SR_MIN <= sr <= SR_MAX,
    ensures
        2 <= base_delay_s(sr) <= 5242,
        0 <= mod_range_s(sr) <= 137438954,
        2 <= vibe_capacity_s(sr) <= 16384,
{
    lemma_mul_inequality(VIBE_SR_MIN as int, sr, 5);
    lemma_mul_inequality(sr, SR_MAX as int, 5);
    assert(sr * 5 == 5 * sr && (VIBE_SR_MIN as int) * 5 == 5 * (VIBE_SR_MIN as int) && (SR_MAX
        as int) * 5 == 5 * (SR_MAX as int)) by (nonlinear_arith);
    lemma_div_is_ordered((VIBE_SR_MIN as int) * 5, sr * 5, 1000);
    lemma_div_is_ordered(sr * 5, (SR_MAX as int) * 5, 1000);
    lemma_div_is_ordered(131072, (sr * 5) / 1000, SCALE as int);
    lemma_div_is_ordered((sr * 5) / 1000, 343597383, SCALE as int);
    lemma_mul_inequality(VIBE_SR_MIN as int, sr, 2);
    lemma_mul_inequality(sr, SR_MAX as int, 2);
    lemma_div_is_ordered((VIBE_SR_MIN as int) * 2, sr * 2, 1000);
    lemma_div_is_ordered(sr * 2, (SR_MAX as int) * 2, 1000);
    lemma_div_pos_is_pos(2 * mod_range_s(sr), SCALE as int);
    lemma_div_is_ordered(2 * mod_range_s(sr), 274877907, SCALE as int);
}

/// First-order phase wrap: one subtraction, never a full modulo; holds
/// because the advance per call is at most one period.
pub open spec fn wrap_phase_s(p: int) -> int {
    if p > SCALE as int {
        p - SCALE
    } else {
        p
    }
}

/// The clamped fractional delay for one stage, in fixed-point samples.
pub open spec fn stage_delay_s(phase: int, depth: int, dmr: int, base: int, len: int) -> int {
    clamp_s(
        base * SCALE + q_mul_s(q_mul_s(sin_q_s(phase), depth), dmr),
        SCALE as int,
        (len - 1) * SCALE,
    )
}

/// The all-pass output of one stage: `feedback*input` plus the linear
/// interpolation of the two delay taps, saturated.
pub open spec fn stage_out_s(
    f: AllPassFilter,
    phase: int,
    x: int,
    depth: int,
    fb: int,
    base: int,
    dmr: int,
) -> int {
    let len = f.delay_buffer@.len() as int;
    let cd = stage_delay_s(phase, depth, dmr, base, len);
    let fd = cd / (SCALE as int);
    let fr = cd % (SCALE as int);
    let i1 = (f.delay_index + len - fd) % len;
    let i2 = (f.delay_index + 2 * len - fd - 1) % len;
    let d1 = f.delay_buffer@[i1] as int;
    let d2 = f.delay_buffer@[i2] as int;
    let interp = d1 + q_mul_s(fr, d2 - d1);
    sat_s(q_mul_s(fb, x) + interp)
}

/// The sample written back into the stage's buffer: `input - feedback*output`,
/// saturated.
pub open spec fn stage_write_s(
    f: AllPassFilter,
    phase: int,
    x: int,
    depth: int,
    fb: int,
    base: int,
    dmr: int,
) -> int {
    sat_s(x - q_mul_s(fb, stage_out_s(f, phase, x, depth, fb, base, dmr)))
}

/// How one processed stage relates to its prior state: phase advanced and
/// wrapped, feedback stored, one buffer slot rewritten, write index bumped.
pub open spec fn stage_updated_s(
    oldf: AllPassFilter,
    newf: AllPassFilter,
    oldp: int,
    newp: int,
    x: int,
    adv: int,
    depth: int,
    fb: int,
    base: int,
    dmr: int,
) -> bool {
    let len = oldf.delay_buffer@.len() as int;
    &&& newp == wrap_phase_s(oldp + adv)
    &&& newf.feedback == fb
    &&& newf.delay_buffer@.len() == len
    &&& newf.delay_buffer@[oldf.delay_index as int] as int == stage_write_s(
        oldf,
        newp,
        x,
        depth,
        fb,
        base,
        dmr,
    )
    &&& forall|j: int|
        0 <= j < len && j != oldf.delay_index as int ==> newf.delay_buffer@[j]
            == oldf.delay_buffer@[j]
    &&& newf.delay_index as int == ((oldf.delay_index + 1) as int) % len
}

/// Multi-stage phaser/vibe effect: one LFO and one all-pass delay line per
/// stage, chained in series.
pub struct UniVibe {
    /// Current processing rate, fixed-point Hz.
    pub sample_rate: i64,
    /// One LFO phase accumulator per stage, each in `[0, 1]`.
    pub lfo_phases: Vec<i64>,
    /// One all-pass delay line per stage.
    pub allpass_filters: Vec<AllPassFilter>,
    /// 5 ms base delay, whole samples.
    pub base_delay_samples: usize,
    /// 2 ms modulation range, fixed-point samples.
    pub delay_modulation_range: i64,
}

/// The chained output: stage `k - 1` feeds stage `k`; zero stages pass the
/// input through.  Each stage reads its own (still untouched) delay line from
/// the state `v` before the call.
pub open spec fn vibe_out_s(v: UniVibe, x: int, adv: int, depth: int, fb: int, k: int) -> int
    decreases k,
{
    if k <= 0 {
        x
    } else {
        let prev = vibe_out_s(v, x, adv, depth, fb, k - 1);
        stage_out_s(
            v.allpass_filters@[k - 1],
            wrap_phase_s(v.lfo_phases@[k - 1] + adv),
            prev,
            depth,
            fb,
            v.base_delay_samples as int,
            v.delay_modulation_range as int,
        )
    }
}

impl UniVibe {
    /// Phases and filters in lockstep, every stage well formed, and the
    /// derived delay quantities consistent with the sample rate.
    pub open spec fn wf(&self) -> bool {
        &&& VIBE_SR_MIN <= self.sample_rate <= SR_MAX
        &&& self.lfo_phases@.len() == self.allpass_filters@.len()
        &&& forall|i: int|
            0 <= i < self.lfo_phases@.len() ==> 0 <= #[trigger] self.lfo_phases@[i] <= SCALE
        &&& forall|i: int|
            0 <= i < self.allpass_filters@.len() ==> (#[trigger] self.allpass_filters@[i]).wf()
        &&& forall|i: int|
            0 <= i < self.allpass_filters@.len()
                ==> (#[trigger] self.allpass_filters@[i]).delay_buffer@.len()
                == vibe_capacity_s(self.sample_rate as int)
        &&& self.base_delay_samples as int == base_delay_s(self.sample_rate as int)
        &&& self.delay_modulation_range as int == mod_range_s(self.sample_rate as int)
    }

    /// A vibe with `num_stages` silent stages at the given sample rate.
    pub fn new(sample_rate: i64, num_stages: usize) -> (r: Self)
        requires
            VIBE_SR_MIN <= sample_rate <= SR_MAX,
            num_stages >= 1,
        ensures
            r.wf(),
            r.sample_rate == sample_rate,
            r.lfo_phases@.len() == num_stages,
            r.allpass_filters@.len() == num_stages,
            forall|i: int| 0 <= i < num_stages ==> #[trigger] r.lfo_phases@[i] == 0,
            forall|i: int|
                0 <= i < num_stages ==> all_zero(
                    (#[trigger] r.allpass_filters@[i]).delay_buffer@,
                ) && r.allpass_filters@[i].delay_index == 0 && r.allpass_filters@[i].feedback
                    == 0,
    {
        proof {
            lemma_vibe_derived_bounds(sample_rate as int);
        }
        let base_i: i64 = ((sample_rate * 5) / 1000) / SCALE;
        let dmr: i64 = (sample_rate * 2) / 1000;
        let capacity: usize = (base_i + (2 * dmr) / SCALE) as usize;
        let mut filters: Vec<AllPassFilter> = Vec::new();
        let mut phases: Vec<i64> = Vec::new();
        let mut i: usize = 0;
        while i < num_stages
            invariant
                i <= num_stages,
                2 <= capacity <= 16384,
                capacity as int == vibe_capacity_s(sample_rate as int),
                filters@.len() == i,
                phases@.len() == i,
                forall|k: int| 0 <= k < i ==> #[trigger] phases@[k] == 0,
                forall|k: int|
                    0 <= k < i ==> (#[trigger] filters@[k]).wf() && all_zero(
                        filters@[k].delay_buffer@,
                    ) && filters@[k].delay_index == 0 && filters@[k].feedback == 0
                        && filters@[k].delay_buffer@.len() == capacity,
            decreases num_stages - i,
        {
            filters.push(AllPassFilter::new(capacity));
            phases.push(0);
            i = i + 1;
        }
        UniVibe {
            sample_rate,
            lfo_phases: phases,
            allpass_filters: filters,
            base_delay_samples: base_i as usize,
            delay_modulation_range: dmr,
        }
    }

    /// Clear every stage's delay line and LFO phase, dropping any stale
    /// delayed energy before playback restarts; capacities and feedback
    /// coefficients are kept.
    pub fn reset(&mut self)
        requires
            old(self).wf(),
        ensures
            final(self).wf(),
            final(self).sample_rate == old(self).sample_rate,
            final(self).base_delay_samples == old(self).base_delay_samples,
            final(self).delay_modulation_range == old(self).delay_modulation_range,
            final(self).lfo_phases@.len() == old(self).lfo_phases@.len(),
            final(self).allpass_filters@.len() == old(self).allpass_filters@.len(),
            forall|i: int|
                0 <= i < final(self).lfo_phases@.len() ==> #[trigger] final(self).lfo_phases@[i]
                    == 0,
            forall|i: int|
                0 <= i < final(self).allpass_filters@.len() ==> all_zero(
                    (#[trigger] final(self).allpass_filters@[i]).delay_buffer@,
                ) && final(self).allpass_filters@[i].delay_index == 0 && final(self).allpass_filters@[i].delay_buffer@.len()
                    == old(self).allpass_filters@[i].delay_buffer@.len() && final(self).allpass_filters@[i].feedback
                    == old(self).allpass_filters@[i].feedback,
    {
        let n = self.allpass_filters.len();
        let mut i: usize = 0;
        while i < n
            invariant
                i <= n == self.allpass_filters@.len(),
                n == old(self).allpass_filters@.len(),
                self.sample_rate == old(self).sample_rate,
                self.base_delay_samples == old(self).base_delay_samples,
                self.delay_modulation_range == old(self).delay_modulation_range,
                self.lfo_phases == old(self).lfo_phases,
                forall|k: int|
                    i <= k < n ==> #[trigger] self.allpass_filters@[k] == old(self).allpass_filters@[k],
                forall|k: int|
                    0 <= k < i ==> all_zero((#[trigger] self.allpass_filters@[k]).delay_buffer@)
                        && self.allpass_filters@[k].delay_index == 0
                        && self.allpass_filters@[k].delay_buffer@.len() == old(self).allpass_filters@[k].delay_buffer@.len() && self.allpass_filters@[k].wf()
                        && self.allpass_filters@[k].feedback == old(self).allpass_filters@[k].feedback,
                old(self).wf(),
            decreases n - i,
        {
            let ghost pre = self.allpass_filters@;
            let mut f = self.allpass_filters.remove(i);
            f.reset();
            self.allpass_filters.insert(i, f);
            proof {
                assert(self.allpass_filters@[i as int] == f);
                assert(self.allpass_filters@ =~= pre.update(
                    i as int,
                    self.allpass_filters@[i as int],
                ));
                assert(old(self).allpass_filters@[i as int].wf());
            }
            i = i + 1;
        }
        let np = self.lfo_phases.len();
        let mut j: usize = 0;
        while j < np
            invariant
                j <= np == self.lfo_phases@.len(),
                self.sample_rate == old(self).sample_rate,
                self.base_delay_samples == old(self).base_delay_samples,
                self.delay_modulation_range == old(self).delay_modulation_range,
                self.allpass_filters@.len() == old(self).allpass_filters@.len(),
                forall|k: int|
                    0 <= k < self.allpass_filters@.len() ==> all_zero(
                        (#[trigger] self.allpass_filters@[k]).delay_buffer@,
                    ) && self.allpass_filters@[k].delay_index == 0
                        && self.allpass_filters@[k].delay_buffer@.len() == old(self).allpass_filters@[k].delay_buffer@.len() && self.allpass_filters@[k].wf()
                        && self.allpass_filters@[k].feedback == old(self).allpass_filters@[k].feedback,
                forall|k: int| 0 <= k < j ==> #[trigger] self.lfo_phases@[k] == 0,
                old(self).wf(),
            decreases np - j,
        {
            self.lfo_phases.set(j, 0);
            j = j + 1;
        }
    }

    /// Adopt a new sample rate: recompute the base delay and modulation
    /// range, resize every delay line to the new capacity (discarding old
    /// content) and restart the LFOs; each stage's feedback coefficient is
    /// kept.
    pub fn set_sample_rate(&mut self, sample_rate: i64)
        requires
            old(self).wf(),
            VIBE_SR_MIN <= sample_rate <= SR_MAX,
        ensures
            final(self).wf(),
            final(self).sample_rate == sample_rate,
            final(self).base_delay_samples as int == base_delay_s(sample_rate as int),
            final(self).delay_modulation_range as int == mod_range_s(sample_rate as int),
            final(self).lfo_phases@.len() == old(self).lfo_phases@.len(),
            final(self).allpass_filters@.len() == old(self).allpass_filters@.len(),
            forall|i: int|
                0 <= i < final(self).lfo_phases@.len() ==> #[trigger] final(self).lfo_phases@[i]
                    == 0,
            forall|i: int|
                0 <= i < final(self).allpass_filters@.len() ==> all_zero(
                    (#[trigger] final(self).allpass_filters@[i]).delay_buffer@,
                ) && final(self).allpass_filters@[i].delay_index == 0 && final(self).allpass_filters@[i].delay_buffer@.len()
                    == vibe_capacity_s(sample_rate as int) && final(self).allpass_filters@[i].feedback
                    == old(self).allpass_filters@[i].feedback,
    {
        proof {
            lemma_vibe_derived_bounds(sample_rate as int);
        }
        self.sample_rate = sample_rate;
        let base_i: i64 = ((sample_rate * 5) / 1000) / SCALE;
        let dmr: i64 = (sample_rate * 2) / 1000;
        let capacity: usize = (base_i + (2 * dmr) / SCALE) as usize;
        self.base_delay_samples = base_i as usize;
        self.delay_modulation_range = dmr;
        let n = self.allpass_filters.len();
        let mut i: usize = 0;
        while i < n
            invariant
                i <= n == self.allpass_filters@.len(),
                self.sample_rate == sample_rate,
                self.base_delay_samples == base_i as usize,
                self.delay_modulation_range == dmr,
                base_i as int == base_delay_s(sample_rate as int),
                dmr as int == mod_range_s(sample_rate as int),
                2 <= capacity <= 16384,
                capacity as int == vibe_capacity_s(sample_rate as int),
                self.lfo_phases == old(self).lfo_phases,
                n == old(self).allpass_filters@.len(),
                forall|k: int|
                    i <= k < n ==> #[trigger] self.allpass_filters@[k] == old(self).allpass_filters@[k],
                forall|k: int|
                    0 <= k < i ==> all_zero((#[trigger] self.allpass_filters@[k]).delay_buffer@)
                        && self.allpass_filters@[k].delay_index == 0
                        && self.allpass_filters@[k].delay_buffer@.len() == capacity
                        && self.allpass_filters@[k].wf() && self.allpass_filters@[k].feedback
                        == old(self).allpass_filters@[k].feedback,
                old(self).wf(),
            decreases n - i,
        {
            let ghost pre = self.allpass_filters@;
            let f = self.allpass_filters.remove(i);
            let old_fb = f.feedback;
            let mut nf = AllPassFilter::new(capacity);
            nf.set_feedback(old_fb);
            self.allpass_filters.insert(i, nf);
            proof {
                assert(self.allpass_filters@[i as int] == nf);
                assert(self.allpass_filters@ =~= pre.update(
                    i as int,
                    self.allpass_filters@[i as int],
                ));
            }
            i = i + 1;
        }
        let np = self.lfo_phases.len();
        let mut j: usize = 0;
        while j < np
            invariant
                j <= np == self.lfo_phases@.len(),
                self.sample_rate == sample_rate,
                self.base_delay_samples == base_i as usize,
                self.delay_modulation_range == dmr,
                base_i as int == base_delay_s(sample_rate as int),
                dmr as int == mod_range_s(sample_rate as int),
                self.allpass_filters@.len() == old(self).allpass_filters@.len(),
                forall|k: int|
                    0 <= k < self.allpass_filters@.len() ==> all_zero(
                        (#[trigger] self.allpass_filters@[k]).delay_buffer@,
                    ) && self.allpass_filters@[k].delay_index == 0
                        && self.allpass_filters@[k].delay_buffer@.len() == vibe_capacity_s(
                        sample_rate as int,
                    ) && self.allpass_filters@[k].wf() && self.allpass_filters@[k].feedback
                        == old(self).allpass_filters@[k].feedback,
                forall|k: int| 0 <= k < j ==> #[trigger] self.lfo_phases@[k] == 0,
                old(self).wf(),
            decreases np - j,
        {
            self.lfo_phases.set(j, 0);
            j = j + 1;
        }
    }

    /// Run `num_stages` chained all-pass stages on one input sample.  The
    /// return value and every state change follow the `vibe_out_s` /
    /// `stage_updated_s` model exactly; stages past `num_stages` are
    /// untouched.  `num_stages` must not exceed the constructed stage count.
    #[verifier::rlimit(100)]
    pub fn process(
        &mut self,
        input: i64,
        rate: i64,
        depth: i64,
        feedback: i64,
        num_stages: usize,
    ) -> (r: i64)
        requires
            old(self).wf(),
            num_stages <= old(self).allpass_filters@.len(),
            abs1(input as int) <= SAMPLE_CAP as int,
            0 <= rate <= old(self).sample_rate,
            abs1(depth as int) <= SCALE as int,
            abs1(feedback as int) <= SCALE as int,
        ensures
            final(self).wf(),
            r as int == vibe_out_s(
                *old(self),
                input as int,
                q_div_s(rate as int, old(self).sample_rate as int),
                depth as int,
                feedback as int,
                num_stages as int,
            ),
            abs1(r as int) <= SAMPLE_CAP as int,
            final(self).sample_rate == old(self).sample_rate,
            final(self).base_delay_samples == old(self).base_delay_samples,
            final(self).delay_modulation_range == old(self).delay_modulation_range,
            final(self).lfo_phases@.len() == old(self).lfo_phases@.len(),
            final(self).allpass_filters@.len() == old(self).allpass_filters@.len(),
            forall|k: int|
                0 <= k < num_stages ==> stage_updated_s(
                    old(self).allpass_filters@[k],
                    #[trigger] final(self).allpass_filters@[k],
                    old(self).lfo_phases@[k] as int,
                    final(self).lfo_phases@[k] as int,
                    vibe_out_s(
                        *old(self),
                        input as int,
                        q_div_s(rate as int, old(self).sample_rate as int),
                        depth as int,
                        feedback as int,
                        k,
                    ),
                    q_div_s(rate as int, old(self).sample_rate as int),
                    depth as int,
                    feedback as int,
                    old(self).base_delay_samples as int,
                    old(self).delay_modulation_range as int,
                ),
            forall|k: int|
                num_stages <= k < final(self).allpass_filters@.len()
                    ==> #[trigger] final(self).allpass_filters@[k] == old(
                    self,
                ).allpass_filters@[k] && final(self).lfo_phases@[k] == old(self).lfo_phases@[k],
    {
        let adv = q_div(rate, self.sample_rate);
        proof {
            lemma_mul_inequality(rate as int, self.sample_rate as int, SCALE as int);
            lemma_div_is_ordered(
                (rate as int) * (SCALE as int),
                (self.sample_rate as int) * (SCALE as int),
                self.sample_rate as int,
            );
            lemma_div_multiples_vanish(SCALE as int, self.sample_rate as int);
            lemma_div_pos_is_pos((rate as int) * (SCALE as int), self.sample_rate as int);
        }
        let ghost advg = adv as int;
        let base = self.base_delay_samples;
        let dmr = self.delay_modulation_range;
        let mut processed = input;
        let mut stage: usize = 0;
        while stage < num_stages
            invariant
                stage <= num_stages <= self.allpass_filters@.len(),
                self.allpass_filters@.len() == old(self).allpass_filters@.len(),
                self.lfo_phases@.len() == old(self).lfo_phases@.len(),
                self.lfo_phases@.len() == self.allpass_filters@.len(),
                self.sample_rate == old(self).sample_rate,
                self.base_delay_samples == old(self).base_delay_samples,
                self.delay_modulation_range == old(self).delay_modulation_range,
                base == self.base_delay_samples,
                dmr == self.delay_modulation_range,
                old(self).wf(),
                advg == adv as int,
                advg == q_div_s(rate as int, old(self).sample_rate as int),
                0 <= adv <= SCALE,
                abs1(input as int) <= SAMPLE_CAP as int,
                abs1(depth as int) <= SCALE as int,
                abs1(feedback as int) <= SCALE as int,
                abs1(processed as int) <= SAMPLE_CAP as int,
                processed as int == vibe_out_s(
                    *old(self),
                    input as int,
                    advg,
                    depth as int,
                    feedback as int,
                    stage as int,
                ),
                forall|k: int|
                    stage <= k < self.allpass_filters@.len()
                        ==> #[trigger] self.allpass_filters@[k] == old(self).allpass_filters@[k],
                forall|k: int|
                    stage <= k < self.lfo_phases@.len() ==> #[trigger] self.lfo_phases@[k] == old(
                        self,
                    ).lfo_phases@[k],
                forall|k: int|
                    0 <= k < stage ==> stage_updated_s(
                        old(self).allpass_filters@[k],
                        #[trigger] self.allpass_filters@[k],
                        old(self).lfo_phases@[k] as int,
                        self.lfo_phases@[k] as int,
                        vibe_out_s(
                            *old(self),
                            input as int,
                            advg,
                            depth as int,
                            feedback as int,
                            k,
                        ),
                        advg,
                        depth as int,
                        feedback as int,
                        old(self).base_delay_samples as int,
                        old(self).delay_modulation_range as int,
                    ),
                forall|k: int|
                    0 <= k < stage ==> (#[trigger] self.allpass_filters@[k]).wf() && 0
                        <= self.lfo_phases@[k] <= SCALE,
            decreases num_stages - stage,
        {
            proof {
                lemma_vibe_derived_bounds(old(self).sample_rate as int);
                assert(old(self).allpass_filters@[stage as int].wf());
                assert(0 <= old(self).lfo_phases@[stage as int] <= SCALE);
            }
            let ghost phases0 = self.lfo_phases@;
            let p0 = self.lfo_phases[stage];
            let mut p = p0 + adv;
            if p > SCALE {
                p = p - SCALE;
            }
            self.lfo_phases.set(stage, p);
            let lfo = sin_q(p);
            let off1 = q_mul(lfo, depth);
            proof {
                lemma_q_mul_contract(lfo as int, depth as int, SCALE as int);
            }
            let off = q_mul(off1, dmr);
            proof {
                lemma_q_mul_contract(off1 as int, dmr as int, 137438954);
            }
            let ghost pre = self.allpass_filters@;
            let mut f = self.allpass_filters.remove(stage);
            let len = f.delay_buffer.len();
            f.set_feedback(feedback);
            let base_q = (base as i64) * SCALE;
            let raw = base_q + off;
            let hi = (len as i64 - 1) * SCALE;
            let cd = if raw < SCALE {
                SCALE
            } else if raw > hi {
                hi
            } else {
                raw
            };
            let fd_i = cd / SCALE;
            proof {
                lemma_div_is_ordered(SCALE as int, cd as int, SCALE as int);
                lemma_div_is_ordered(cd as int, (len as int - 1) * (SCALE as int), SCALE as int);
                assert((len as int - 1) * (SCALE as int) == (SCALE as int) * (len as int - 1))
                    by (nonlinear_arith);
                lemma_div_multiples_vanish(len as int - 1, SCALE as int);
                lemma_div_multiples_vanish(1, SCALE as int);
                assert((SCALE as int) * 1 == SCALE as int) by (nonlinear_arith);
                lemma_fundamental_div_mod(cd as int, SCALE as int);
                assert(fd_i as int * (SCALE as int) == (SCALE as int) * (fd_i as int))
                    by (nonlinear_arith);
            }
            let fd = fd_i as usize;
            let fr = cd - fd_i * SCALE;
            let i1 = (f.delay_index + len - fd) % len;
            let i2 = (f.delay_index + 2 * len - fd - 1) % len;
            proof {
                lemma_mod_division_less_than_divisor(
                    (f.delay_index + len - fd) as int,
                    len as int,
                );
                lemma_mod_division_less_than_divisor(
                    (f.delay_index + 2 * len - fd - 1) as int,
                    len as int,
                );
                assert(abs1(f.delay_buffer@[i1 as int] as int) <= SAMPLE_CAP as int);
                assert(abs1(f.delay_buffer@[i2 as int] as int) <= SAMPLE_CAP as int);
            }
            let d1 = f.delay_buffer[i1];
            let d2 = f.delay_buffer[i2];
            let dd = d2 - d1;
            let itp = q_mul(fr, dd);
            proof {
                lemma_q_mul_contract(fr as int, dd as int, 2 * (SAMPLE_CAP as int));
            }
            let interp = d1 + itp;
            let fbx = q_mul(feedback, processed);
            proof {
                lemma_q_mul_contract(feedback as int, processed as int, SAMPLE_CAP as int);
            }
            let out = sat(fbx + interp);
            let fbo = q_mul(feedback, out);
            proof {
                lemma_q_mul_contract(feedback as int, out as int, SAMPLE_CAP as int);
            }
            let wr = sat(processed - fbo);
            let widx = f.delay_index;
            f.delay_buffer.set(widx, wr);
            f.delay_index = (widx + 1) % len;
            proof {
                lemma_mod_division_less_than_divisor((widx + 1) as int, len as int);
            }
            self.allpass_filters.insert(stage, f);
            proof {
                assert(self.allpass_filters@[stage as int] == f);
                assert(self.allpass_filters@ =~= pre.update(stage as int, f));
                assert(out as int == stage_out_s(
                    old(self).allpass_filters@[stage as int],
                    p as int,
                    processed as int,
                    depth as int,
                    feedback as int,
                    base as int,
                    dmr as int,
                ));
                assert(wr as int == stage_write_s(
                    old(self).allpass_filters@[stage as int],
                    p as int,
                    processed as int,
                    depth as int,
                    feedback as int,
                    base as int,
                    dmr as int,
                ));
                assert(0 <= p <= SCALE);
                assert forall|j: int| 0 <= j < f.delay_buffer@.len() implies abs1(
                    #[trigger] f.delay_buffer@[j] as int,
                ) <= SAMPLE_CAP as int by {
                    if j != widx as int {
                        assert(f.delay_buffer@[j] == old(
                            self,
                        ).allpass_filters@[stage as int].delay_buffer@[j]);
                        assert(abs1(
                            old(self).allpass_filters@[stage as int].delay_buffer@[j] as int,
                        ) <= SAMPLE_CAP as int);
                    }
                };
                assert(f.wf());
                assert(self.lfo_phases@ == phases0.update(stage as int, p));
                assert forall|k: int|
                    0 <= k < stage + 1 implies (#[trigger] self.allpass_filters@[k]).wf() && 0
                    <= self.lfo_phases@[k] <= SCALE by {
                    if k < stage {
                        assert(self.allpass_filters@[k] == pre[k]);
                        assert(self.lfo_phases@[k] == phases0[k]);
                        assert(pre[k].wf() && 0 <= phases0[k] <= SCALE);
                    } else {
                        assert(self.allpass_filters@[k] == f);
                        assert(self.lfo_phases@[k] == p);
                    }
                };
            }
            processed = out;
            stage = stage + 1;
        }
        proof {
            assert forall|i: int| 0 <= i < self.allpass_filters@.len() implies (
            #[trigger] self.allpass_filters@[i]).wf() && self.allpass_filters@[i].delay_buffer@.len()
                == vibe_capacity_s(self.sample_rate as int) by {
                assert(old(self).allpass_filters@[i].wf());
                if i < num_stages {
                    assert(self.allpass_filters@[i].wf());
                    assert(stage_updated_s(
                        old(self).allpass_filters@[i],
                        self.allpass_filters@[i],
                        old(self).lfo_phases@[i] as int,
                        self.lfo_phases@[i] as int,
                        vibe_out_s(
                            *old(self),
                            input as int,
                            advg,
                            depth as int,
                            feedback as int,
                            i,
                        ),
                        advg,
                        depth as int,
                        feedback as int,
                        old(self).base_delay_samples as int,
                        old(self).delay_modulation_range as int,
                    ));
                } else {
                    assert(self.allpass_filters@[i] == old(self).allpass_filters@[i]);
                }
            };
            assert forall|i: int| 0 <= i < self.lfo_phases@.len() implies 0 <= #[trigger] self.lfo_phases@[i] <= SCALE by {
                if i >= num_stages {
                    assert(self.lfo_phases@[i] == old(self).lfo_phases@[i]);
                    assert(old(self).allpass_filters@[i].wf());
                } else {
                    assert(self.allpass_filters@[i].wf());
                }
            };
        }
        processed
    }
}


/// With zero feedback and zero modulation depth a stage degenerates to a pure
/// fixed delay: the output is exactly the buffer sample `base` whole steps
/// behind the write index, and the stage writes its input back unchanged (up
/// to saturation).
pub proof fn lemma_stage_pure_delay(f: AllPassFilter, phase: int, x: int, base: int, dmr: int)
    requires
        f.wf(),
        1 <= base <= f.delay_buffer@.len() - 1,
    ensures
        stage_out_s(f, phase, x, 0, 0, base, dmr) == f.delay_buffer@[(f.delay_index
            + f.delay_buffer@.len() - base) % (f.delay_buffer@.len() as int)] as int,
        stage_write_s(f, phase, x, 0, 0, base, dmr) == sat_s(x),
{
    let len = f.delay_buffer@.len() as int;
    lemma_q_mul_zero(sin_q_s(phase));
    lemma_q_mul_zero(dmr);
    assert((SCALE as int) * 1 <= base * (SCALE as int) <= (len - 1) * (SCALE as int))
        by (nonlinear_arith)
        requires
            1 <= base <= len - 1,
    ;
    assert(base * (SCALE as int) == (SCALE as int) * base) by (nonlinear_arith);
    lemma_div_multiples_vanish(base, SCALE as int);
    lemma_mod_multiples_basic(base, SCALE as int);
    let i1 = (f.delay_index + len - base) % len;
    lemma_mod_division_less_than_divisor(f.delay_index + len - base, len);
    let d1 = f.delay_buffer@[i1] as int;
    lemma_q_mul_zero(f.delay_buffer@[(f.delay_index + 2 * len - base - 1) % len] as int - d1);
    lemma_q_mul_zero(x);
    assert(abs1(f.delay_buffer@[i1] as int) <= SAMPLE_CAP as int);
    lemma_q_mul_zero(stage_out_s(f, phase, x, 0, 0, base, dmr));
}

/// The reset state is truly silent: with every delay line holding zeros, a
/// zero input comes out as exactly zero through any number of stages, for
/// every rate, depth and feedback.
pub proof fn lemma_vibe_silent(v: UniVibe, adv: int, depth: int, fb: int, k: int)
    requires
        0 <= k <= v.allpass_filters@.len(),
        forall|i: int|
            0 <= i < v.allpass_filters@.len() ==> all_zero(
                (#[trigger] v.allpass_filters@[i]).delay_buffer@,
            ) && v.allpass_filters@[i].delay_buffer@.len() >= 1,
    ensures
        vibe_out_s(v, 0, adv, depth, fb, k) == 0,
    decreases k,
{
    if k > 0 {
        lemma_vibe_silent(v, adv, depth, fb, k - 1);
        let f = v.allpass_filters@[k - 1];
        let len = f.delay_buffer@.len() as int;
        let phase = wrap_phase_s(v.lfo_phases@[k - 1] as int + adv);
        let cd = stage_delay_s(
            phase,
            depth,
            v.delay_modulation_range as int,
            v.base_delay_samples as int,
            len,
        );
        let fd = cd / (SCALE as int);
        lemma_mod_division_less_than_divisor(f.delay_index + len - fd, len);
        lemma_mod_division_less_than_divisor(f.delay_index + 2 * len - fd - 1, len);
        lemma_q_mul_zero(cd % (SCALE as int));
        lemma_q_mul_zero(fb);
    }
}

} // verus!
