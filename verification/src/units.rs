//! Number formats and tuning constants shared by every stage.

use vstd::prelude::*;

verus! {

/// Magnitude of a full-scale sample: a PCM value `x` stands for the real
/// amplitude `x / FULL_SCALE`.
pub const FULL_SCALE: u64 = 32_768;

/// A block is analysed only above a root-mean-square amplitude of
/// `1 / STRENGTH_RECIPROCAL` of full scale (0.001).
pub const STRENGTH_RECIPROCAL: u64 = 1_000;

/// Fixed-point representation of the correlation value `1.0`.
pub const UNIT: i32 = 1_000_000_000;

/// Lowest detectable frequency, in millihertz (20 Hz).
pub const MIN_FREQ: u32 = 20_000;

/// Highest detectable frequency, in millihertz (2 kHz).
pub const MAX_FREQ: u32 = 2_000_000;

/// A peak must exceed this normalized correlation (0.8) to be accepted.
pub const CORRELATION_THRESHOLD: i32 = 800_000_000;

/// A parabola whose curvature is below 1e-6 in magnitude is treated as
/// flat and its peak left unrefined. The limit is stated on twice the
/// curvature, in `UNIT`s.
pub const FLAT_CURVATURE: i64 = 2_000;

/// Number of accepted detections kept for smoothing.
pub const WINDOW: usize = 4;

/// Returned when a block carries no reliable pitch.
pub const NO_PITCH: u64 = 0;

} // verus!
