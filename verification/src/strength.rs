//! Signal-strength check: blocks at or below the minimum root-mean-square
//! amplitude are rejected before any further work.

use vstd::prelude::*;
use crate::autocorrelation::{
    all_zero, autocorrelation_at, energy, lemma_energy_bound, lemma_energy_zero_iff_all_zero,
};
use crate::units::{FULL_SCALE, STRENGTH_RECIPROCAL};

verus! {

/// True when the root-mean-square amplitude of the block, `sqrt(energy / len)`
/// relative to full scale, is strictly above `1 / STRENGTH_RECIPROCAL`. Both
/// sides of that comparison are squared and cleared of fractions.
pub open spec fn signal_present(s: Seq<i16>) -> bool {
    energy(s) * (STRENGTH_RECIPROCAL * STRENGTH_RECIPROCAL) > s.len() * (FULL_SCALE * FULL_SCALE)
}

/// A block of zeros is never strong enough.
pub proof fn lemma_silence_is_rejected(s: Seq<i16>)
    requires
        all_zero(s),
    ensures
        !signal_present(s),
{
    lemma_energy_zero_iff_all_zero(s);
    assert(s.len() * (FULL_SCALE * FULL_SCALE) >= 0) by (nonlinear_arith);
}

/// Sum of the squared samples of a block.
pub fn signal_energy(samples: &[i16]) -> (total: u128)
    ensures
        total == energy(samples@),
{
    proof {
        lemma_energy_bound(samples@);
    }
    let total: i128 = autocorrelation_at(samples, 0);
    total as u128
}

/// Tells whether a block is strong enough to be analysed.
pub fn check_signal_strength(samples: &[i16]) -> (strong: bool)
    ensures
        strong == signal_present(samples@),
{
    proof {
        lemma_energy_bound(samples@);
    }
    let total: u128 = signal_energy(samples);
    let length: u128 = samples.len() as u128;
    assert(FULL_SCALE * FULL_SCALE == 0x4000_0000 && STRENGTH_RECIPROCAL * STRENGTH_RECIPROCAL
        == 1_000_000) by (nonlinear_arith)
        requires
            FULL_SCALE == 32_768,
            STRENGTH_RECIPROCAL == 1_000,
    ;
    total * 1_000_000 > length * 0x4000_0000
}

} // verus!
