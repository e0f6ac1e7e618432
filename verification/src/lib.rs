//! Monophonic pitch estimation on fixed-size blocks of PCM samples.
//!
//! All arithmetic is exact integer or fixed-point arithmetic:
//! samples are signed 16-bit PCM, correlation values are expressed in
//! billionths of the strongest lag, and frequencies are in millihertz.

pub mod units;
pub mod autocorrelation;
pub mod strength;
pub mod peak;
pub mod smoothing;
pub mod detector;

pub use crate::detector::{PitchDetector, PitchError};
