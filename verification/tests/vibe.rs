use univibe::effects::UniVibe;
use univibe::fixed::{HALF, SCALE};

const SR_44100: i64 = 44100 * SCALE;
const RATE_08: i64 = 52429;
const DEPTH_07: i64 = 45875;

#[test]
fn new_sizes_every_stage() {
    let v = UniVibe::new(SR_44100, 2);
    assert_eq!(v.lfo_phases.len(), 2);
    assert_eq!(v.allpass_filters.len(), 2);
    // 5 ms at 44100 Hz is 220 whole samples; 2 ms is 88.2, so the delay
    // line holds 220 + 176 samples.
    assert_eq!(v.base_delay_samples, 220);
    for f in &v.allpass_filters {
        assert_eq!(f.delay_buffer.len(), 396);
        assert!(f.delay_buffer.iter().all(|&s| s == 0));
    }
}

#[test]
fn first_sample_through_two_stages() {
    // With all buffers silent, each stage returns feedback times its input:
    // 0.5 after stage one, 0.25 after stage two.
    let mut v = UniVibe::new(SR_44100, 2);
    let out = v.process(SCALE, RATE_08, DEPTH_07, HALF, 2);
    assert_eq!(out, SCALE / 4);
}

#[test]
fn pure_delay_returns_impulse() {
    // Zero feedback and zero depth degenerate a stage to a fixed delay of
    // base_delay_samples: the impulse reads back with unit energy.
    let mut v = UniVibe::new(SR_44100, 1);
    let base = v.base_delay_samples;
    let mut out = v.process(SCALE, RATE_08, 0, 0, 1);
    assert_eq!(out, 0);
    for _ in 0..base - 1 {
        out = v.process(0, RATE_08, 0, 0, 1);
        assert_eq!(out, 0);
    }
    out = v.process(0, RATE_08, 0, 0, 1);
    assert_eq!(out, SCALE);
}

#[test]
fn reset_drops_all_energy() {
    let mut v = UniVibe::new(SR_44100, 2);
    for _ in 0..50 {
        v.process(SCALE, RATE_08, DEPTH_07, HALF, 2);
    }
    v.reset();
    for p in &v.lfo_phases {
        assert_eq!(*p, 0);
    }
    let out = v.process(0, RATE_08, DEPTH_07, HALF, 2);
    assert_eq!(out, 0);
}

#[test]
fn set_sample_rate_resizes_buffers() {
    let mut v = UniVibe::new(SR_44100, 2);
    for _ in 0..50 {
        v.process(SCALE, RATE_08, DEPTH_07, HALF, 2);
    }
    v.set_sample_rate(48000 * SCALE);
    assert_eq!(v.base_delay_samples, 240);
    for f in &v.allpass_filters {
        assert_eq!(f.delay_buffer.len(), 432);
        assert!(f.delay_buffer.iter().all(|&s| s == 0));
    }
    for p in &v.lfo_phases {
        assert_eq!(*p, 0);
    }
    let out = v.process(0, RATE_08, DEPTH_07, HALF, 2);
    assert_eq!(out, 0);
}

#[test]
fn fewer_stages_than_constructed() {
    let mut v = UniVibe::new(SR_44100, 4);
    let out = v.process(SCALE, RATE_08, DEPTH_07, HALF, 1);
    assert_eq!(out, HALF);
    // The stages past the first are untouched.
    for f in &v.allpass_filters[1..] {
        assert!(f.delay_buffer.iter().all(|&s| s == 0));
    }
}

#[test]
fn minimum_sample_rate_still_runs() {
    // At the 400 Hz floor the delay line shrinks to three samples and the
    // delay clamp keeps every read inside it.
    let mut v = UniVibe::new(400 * SCALE, 1);
    assert_eq!(v.base_delay_samples, 2);
    assert_eq!(v.allpass_filters[0].delay_buffer.len(), 3);
    for _ in 0..10 {
        let out = v.process(SCALE, 400 * SCALE, SCALE, HALF, 1);
        assert!(out.abs() <= 4294967296);
    }
}

#[test]
fn reset_keeps_feedback_and_capacity() {
    let mut v = UniVibe::new(SR_44100, 2);
    v.process(SCALE, RATE_08, DEPTH_07, HALF, 2);
    for f in &v.allpass_filters {
        assert_eq!(f.feedback, HALF);
    }
    v.reset();
    for f in &v.allpass_filters {
        assert_eq!(f.feedback, HALF);
        assert_eq!(f.delay_buffer.len(), 396);
    }
}

#[test]
fn set_sample_rate_keeps_feedback() {
    let mut v = UniVibe::new(SR_44100, 2);
    v.process(SCALE, RATE_08, DEPTH_07, HALF, 2);
    v.set_sample_rate(48000 * SCALE);
    for f in &v.allpass_filters {
        assert_eq!(f.feedback, HALF);
    }
}
