//! A verified fixed-point audio DSP core: a multi-stage phase-modulation
//! ("vibe") effect built from modulated all-pass delay stages, single-pole IIR
//! and windowed-sinc FIR low-pass filters, and a set of nonlinear waveshapers.
//!
//! All signal values are Q16.16 fixed-point numbers on `i64` (see [`fixed`]);
//! every processing function carries an exact integer contract.

pub mod fixed;

pub mod math;

pub mod drives;

pub mod filters;

pub mod effects;
