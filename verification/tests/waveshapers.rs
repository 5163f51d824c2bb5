use univibe::drives::{green_clipper, hard_clipper, red_clipper, sigmoid, C03};
use univibe::fixed::SCALE;

#[test]
fn hard_clipper_clamps_above() {
    assert_eq!(hard_clipper(200000, SCALE), SCALE);
}

#[test]
fn hard_clipper_clamps_below() {
    assert_eq!(hard_clipper(-200000, SCALE), -SCALE);
}

#[test]
fn hard_clipper_passes_inside() {
    assert_eq!(hard_clipper(30000, SCALE), 30000);
    assert_eq!(hard_clipper(-30000, SCALE), -30000);
}

#[test]
fn hard_clipper_zero_threshold() {
    assert_eq!(hard_clipper(12345, 0), 0);
    assert_eq!(hard_clipper(-12345, 0), 0);
}

#[test]
fn hard_clipper_output_in_range() {
    let t: i64 = 40000;
    for x in [i64::MIN + 1, -1000000, -40001, 0, 39999, 1000000, i64::MAX] {
        let r = hard_clipper(x, t);
        assert!(-t <= r && r <= t);
    }
}

#[test]
fn green_clipper_zero_is_zero() {
    assert_eq!(green_clipper(0), 0);
}

#[test]
fn green_clipper_positive_branch() {
    // ln(1 + 1) by the 16th-root method.
    assert_eq!(green_clipper(SCALE), 46416);
    assert_eq!(green_clipper(SCALE / 2), 26896);
}

#[test]
fn green_clipper_negative_branch() {
    // e^(-2.65) - 1 by the squared-binomial method.
    assert_eq!(green_clipper(-SCALE), -59892);
}

#[test]
fn green_clipper_monotone_samples() {
    let points: [i64; 9] = [
        -4294967296,
        -SCALE,
        -100,
        -1,
        0,
        1,
        100,
        SCALE,
        4294967296,
    ];
    let mut prev = green_clipper(points[0]);
    for &x in &points[1..] {
        let y = green_clipper(x);
        assert!(prev <= y);
        prev = y;
    }
}

#[test]
fn red_clipper_values() {
    assert_eq!(red_clipper(0), -SCALE);
    assert_eq!(red_clipper(SCALE), -35466);
    assert_eq!(red_clipper(-SCALE), -85524);
}

#[test]
fn sigmoid_values() {
    // The curve is centered at 0.3: it vanishes exactly there.
    assert_eq!(sigmoid(C03), 0);
    assert_eq!(sigmoid(SCALE), 44471);
    assert_eq!(sigmoid(0), -11183);
}
