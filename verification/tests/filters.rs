use univibe::filters::{remove_dc_offset, AllPassFilter, FIRLowPass, IIRLowPass};
use univibe::fixed::SCALE;

const SR_44100: i64 = 44100 * SCALE;

#[test]
fn allpass_new_is_silent() {
    let f = AllPassFilter::new(8);
    assert_eq!(f.delay_buffer.len(), 8);
    assert!(f.delay_buffer.iter().all(|&v| v == 0));
    assert_eq!(f.delay_index, 0);
    assert_eq!(f.feedback, 0);
}

#[test]
fn allpass_reset_keeps_capacity_and_feedback() {
    let mut f = AllPassFilter::new(4);
    f.set_feedback(12345);
    let mut g = f;
    g.delay_index = 3;
    g.reset();
    assert_eq!(g.delay_buffer.len(), 4);
    assert!(g.delay_buffer.iter().all(|&v| v == 0));
    assert_eq!(g.delay_index, 0);
    assert_eq!(g.feedback, 12345);
}

#[test]
fn iir_design_values() {
    let f = IIRLowPass::new(SR_44100, 1000 * SCALE);
    assert_eq!(f.b0, 62536);
    assert_eq!(f.a1, 59537);
    assert_eq!(f.y1, 0);
}

#[test]
fn iir_process_steps() {
    let mut f = IIRLowPass::new(SR_44100, 1000 * SCALE);
    let y1 = f.process(SCALE);
    assert_eq!(y1, 62536);
    assert_eq!(f.y1, 62536);
    let y2 = f.process(SCALE);
    assert_eq!(y2, 119347);
}

#[test]
fn iir_zero_cutoff_accumulates() {
    // At cutoff zero the coefficients degenerate to b0 = a1 = 1, so the
    // filter sums its input: the low-frequency limit of the recursion.
    let mut f = IIRLowPass::new(SR_44100, 0);
    assert_eq!(f.b0, SCALE);
    assert_eq!(f.a1, SCALE);
    assert_eq!(f.process(100), 100);
    assert_eq!(f.process(100), 200);
}

#[test]
fn iir_set_cutoff_clears_state() {
    let mut f = IIRLowPass::new(SR_44100, 1000 * SCALE);
    f.process(SCALE);
    assert!(f.y1 != 0);
    f.set_cutoff(2000 * SCALE);
    assert_eq!(f.y1, 0);
}

#[test]
fn fir_design_half_band() {
    // cutoff = Nyquist/2: normalized cutoff is exactly 0.5, and every
    // off-center tap vanishes with sin(m*pi).
    let f = FIRLowPass::new(11025 * SCALE, SR_44100, 4);
    assert_eq!(f.coefficients, vec![0, 0, SCALE / 2, 0, 0]);
    assert_eq!(f.history, vec![0, 0, 0, 0]);
}

#[test]
fn fir_impulse_response_matches_coefficients() {
    let mut f = FIRLowPass::new(11025 * SCALE, SR_44100, 4);
    let coeffs = f.coefficients.clone();
    let mut response = Vec::new();
    response.push(f.process(SCALE));
    for _ in 0..4 {
        response.push(f.process(0));
    }
    assert_eq!(response, coeffs);
}

#[test]
fn fir_invalid_cutoff_leaves_zero_taps() {
    // A normalized cutoff above 1 is rejected softly: all taps stay zero.
    let f = FIRLowPass::new(40000 * SCALE, SR_44100, 4);
    assert!(f.coefficients.iter().all(|&c| c == 0));
    let mut f = f;
    assert_eq!(f.process(SCALE), 0);
}

#[test]
fn fir_history_shifts_front() {
    let mut f = FIRLowPass::new(11025 * SCALE, SR_44100, 2);
    f.process(10);
    f.process(20);
    assert_eq!(f.history, vec![20, 10]);
}

#[test]
fn remove_dc_offset_balanced() {
    let input = vec![SCALE, -SCALE];
    assert_eq!(remove_dc_offset(&input), vec![SCALE, -SCALE]);
}

#[test]
fn remove_dc_offset_shifts_mean() {
    let input = vec![SCALE, 0];
    assert_eq!(remove_dc_offset(&input), vec![SCALE / 2, -SCALE / 2]);
}

#[test]
fn remove_dc_offset_truncates_toward_zero() {
    assert_eq!(remove_dc_offset(&vec![5, 0]), vec![3, -2]);
    assert_eq!(remove_dc_offset(&vec![-5, 0]), vec![-3, 2]);
}

#[test]
fn remove_dc_offset_empty() {
    let input: Vec<i64> = Vec::new();
    assert_eq!(remove_dc_offset(&input), Vec::<i64>::new());
}

#[test]
fn iir_high_cutoff_shrinks_b0() {
    // Past the useful band the tangent grows fast and b0 collapses.
    let f = IIRLowPass::new(SR_44100, 30000 * SCALE);
    assert_eq!(f.b0, 19109);
    assert_eq!(f.a1, -27316);
}

#[test]
fn iir_cutoff_past_nyquist_saturates() {
    // At 400 Hz a 3 kHz cutoff drives the bilinear argument past the series
    // cap; the tangent saturates and the design still comes out bounded.
    let f = IIRLowPass::new(400 * SCALE, 3000 * SCALE);
    assert_eq!(f.b0, 47);
    assert_eq!(f.a1, -65441);
    assert!(f.b0 >= 0 && f.b0 <= SCALE);
    assert!(f.a1.abs() <= SCALE);
}
