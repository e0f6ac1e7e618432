//! The pitch detector: one instance per audio stream.

use vstd::prelude::*;
use vstd::slice::slice_to_vec;
use crate::autocorrelation::{all_zero, calculate_autocorrelation, normalized_autocorrelation};
use crate::peak::{
    find_fundamental_frequency, fundamental_frequency, lemma_fundamental_frequency_bounds,
};
use crate::smoothing::{
    get_median_frequency, latest, lemma_full_window_is_stable, lemma_latest_of_extended,
    lemma_median_is_member, lemma_pushed_keeps_latest, pushed, smoothed, update_moving_average,
    upper_median,
};
use crate::strength::{check_signal_strength, lemma_silence_is_rejected, signal_present};
use crate::units::{NO_PITCH, WINDOW};

verus! {

/// Why a call on the detector was refused.
#[derive(Debug, Clone, Copy, PartialEq, Eq, Structural)]
pub enum PitchError {
    /// The sample rate or the block length given at construction was zero.
    InvalidConstruction,
    /// The block handed to detection does not have the configured length.
    InputLengthMismatch,
}

/// The unsmoothed outcome of analysing one block: the frequency of its
/// accepted autocorrelation peak, or nothing when the block is too weak or
/// shows no sufficiently strong periodicity.
pub open spec fn detection(block: Seq<i16>, sample_rate: u32) -> Option<u64> {
    if signal_present(block) {
        fundamental_frequency(normalized_autocorrelation(block), sample_rate)
    } else {
        None
    }
}

/// The smoothing window after `block` was analysed: extended by an accepted
/// detection, untouched otherwise.
pub open spec fn next_window(window: Seq<u64>, block: Seq<i16>, sample_rate: u32) -> Seq<u64> {
    match detection(block, sample_rate) {
        Some(frequency) => pushed(window, frequency),
        None => window,
    }
}

/// The value reported for `block`: the smoothed frequency after an accepted
/// detection, no pitch otherwise.
pub open spec fn reported(window: Seq<u64>, block: Seq<i16>, sample_rate: u32) -> u64 {
    match detection(block, sample_rate) {
        Some(frequency) => smoothed(pushed(window, frequency)),
        None => NO_PITCH,
    }
}

/// The smoothing window after the blocks of `blocks` were analysed in turn,
/// starting from `window`.
pub open spec fn window_after(window: Seq<u64>, blocks: Seq<Seq<i16>>, sample_rate: u32) -> Seq<
    u64,
>
    decreases blocks.len(),
{
    if blocks.len() == 0 {
        window
    } else {
        next_window(window_after(window, blocks.drop_last(), sample_rate), blocks.last(), sample_rate)
    }
}

/// The frequencies of the accepted blocks among `blocks`, in their order;
/// rejected blocks leave no entry.
pub open spec fn accepted(blocks: Seq<Seq<i16>>, sample_rate: u32) -> Seq<u64>
    decreases blocks.len(),
{
    if blocks.len() == 0 {
        Seq::<u64>::empty()
    } else {
        let earlier = accepted(blocks.drop_last(), sample_rate);
        match detection(blocks.last(), sample_rate) {
            Some(frequency) => earlier.push(frequency),
            None => earlier,
        }
    }
}

/// A block at or below the minimum signal strength is rejected: no pitch
/// is reported and the smoothing window stays as it was.
pub proof fn lemma_weak_block_is_rejected(window: Seq<u64>, block: Seq<i16>, sample_rate: u32)
    requires
        !signal_present(block),
    ensures
        detection(block, sample_rate) is None,
        reported(window, block, sample_rate) == NO_PITCH,
        next_window(window, block, sample_rate) == window,
{
}

/// A silent block is rejected: no pitch is reported and the smoothing
/// window stays as it was.
pub proof fn lemma_silent_block_is_rejected(window: Seq<u64>, block: Seq<i16>, sample_rate: u32)
    requires
        all_zero(block),
    ensures
        detection(block, sample_rate) is None,
        reported(window, block, sample_rate) == NO_PITCH,
        next_window(window, block, sample_rate) == window,
{
    lemma_silence_is_rejected(block);
}

/// A rejected block never touches the smoothing window, and an accepted one
/// appends its own, positive frequency. The window never grows beyond
/// `WINDOW` entries, and never comes to hold the no-pitch sentinel.
pub proof fn lemma_window_step(window: Seq<u64>, block: Seq<i16>, sample_rate: u32)
    requires
        window.len() <= WINDOW,
    ensures
        detection(block, sample_rate) is None ==> next_window(window, block, sample_rate)
            == window,
        detection(block, sample_rate) matches Some(frequency) ==> {
            &&& 0 < frequency < 2 * sample_rate
            &&& next_window(window, block, sample_rate).last() == frequency
        },
        next_window(window, block, sample_rate).len() <= WINDOW,
        (forall|i: int| 0 <= i < window.len() ==> window[i] != NO_PITCH) ==> forall|i: int|
            0 <= i < next_window(window, block, sample_rate).len() ==> next_window(
                window,
                block,
                sample_rate,
            )[i] != NO_PITCH,
{
    if detection(block, sample_rate) is Some {
        lemma_fundamental_frequency_bounds(normalized_autocorrelation(block), sample_rate);
        lemma_pushed_keeps_latest(window, detection(block, sample_rate)->0);
    }
}

/// With only accepted detections in the window, the reported value is the
/// no-pitch sentinel exactly when the block is rejected.
pub proof fn lemma_sentinel_means_rejected(window: Seq<u64>, block: Seq<i16>, sample_rate: u32)
    requires
        window.len() <= WINDOW,
        forall|i: int| 0 <= i < window.len() ==> window[i] > 0,
    ensures
        reported(window, block, sample_rate) == NO_PITCH <==> detection(block, sample_rate)
            is None,
{
    if detection(block, sample_rate) is Some {
        let frequency = detection(block, sample_rate)->0;
        lemma_window_step(window, block, sample_rate);
        lemma_pushed_keeps_latest(window, frequency);
        let after = pushed(window, frequency);
        lemma_median_is_member(after);
    }
}

/// Whatever blocks are analysed, the window holds exactly the latest
/// `WINDOW` accepted detections: rejected blocks leave no trace in it.
pub proof fn lemma_window_holds_latest_accepted(
    window: Seq<u64>,
    blocks: Seq<Seq<i16>>,
    sample_rate: u32,
)
    requires
        window.len() <= WINDOW,
    ensures
        window_after(window, blocks, sample_rate) == latest(
            window + accepted(blocks, sample_rate),
        ),
        window_after(window, blocks, sample_rate).len() <= WINDOW,
    decreases blocks.len(),
{
    if blocks.len() == 0 {
        assert(window + accepted(blocks, sample_rate) =~= window);
    } else {
        let earlier = blocks.drop_last();
        lemma_window_holds_latest_accepted(window, earlier, sample_rate);
        let history = window + accepted(earlier, sample_rate);
        if detection(blocks.last(), sample_rate) is Some {
            let frequency = detection(blocks.last(), sample_rate)->0;
            lemma_latest_of_extended(history, frequency);
            lemma_pushed_keeps_latest(latest(history), frequency);
            assert(history.push(frequency) =~= window + accepted(blocks, sample_rate));
        }
    }
}

/// On a fresh detector, the value reported for an accepted block is the
/// upper median of the latest `WINDOW` accepted detections up to and
/// including that block, and of all of them while there are no more than
/// `WINDOW`.
pub proof fn lemma_reported_is_median_of_latest(blocks: Seq<Seq<i16>>, sample_rate: u32)
    requires
        blocks.len() > 0,
        detection(blocks.last(), sample_rate) is Some,
    ensures
        reported(
            window_after(Seq::<u64>::empty(), blocks.drop_last(), sample_rate),
            blocks.last(),
            sample_rate,
        ) == upper_median(latest(accepted(blocks, sample_rate))),
        accepted(blocks, sample_rate).len() <= WINDOW ==> latest(accepted(blocks, sample_rate))
            == accepted(blocks, sample_rate),
{
    let fresh = Seq::<u64>::empty();
    lemma_window_holds_latest_accepted(fresh, blocks, sample_rate);
    assert(fresh + accepted(blocks, sample_rate) =~= accepted(blocks, sample_rate));
}

/// Once the window holds `WINDOW` copies of the frequency that a block
/// yields, analysing that block again reports the same frequency and
/// leaves the window as it is.
pub proof fn lemma_repeated_block_is_stable(block: Seq<i16>, sample_rate: u32, frequency: u64)
    requires
        detection(block, sample_rate) == Some(frequency),
    ensures
        reported(seq![frequency, frequency, frequency, frequency], block, sample_rate)
            == frequency,
        next_window(seq![frequency, frequency, frequency, frequency], block, sample_rate)
            == seq![frequency, frequency, frequency, frequency],
{
    lemma_full_window_is_stable(frequency);
}

/// Estimates the fundamental frequency of successive blocks of one stream.
pub struct PitchDetector {
    buffer: Vec<i16>,
    sample_rate: u32,
    moving_average: Vec<u64>,
    buffer_size: usize,
}

impl PitchDetector {
    #[verifier::type_invariant]
    pub closed spec fn well_formed(&self) -> bool {
        &&& self.sample_rate > 0
        &&& self.buffer_size > 0
        &&& self.buffer@.len() == self.buffer_size
        &&& self.moving_average@.len() <= WINDOW
        &&& forall|i: int| 0 <= i < self.moving_average@.len() ==> self.moving_average@[i] > 0
    }

    /// Sample rate of the stream, in millihertz.
    pub closed spec fn sample_rate(&self) -> u32 {
        self.sample_rate
    }

    /// Configured block length.
    pub closed spec fn buffer_size(&self) -> usize {
        self.buffer_size
    }

    /// The most recent block handed to detection.
    pub closed spec fn block(&self) -> Seq<i16> {
        self.buffer@
    }

    /// The accepted detections kept for smoothing, oldest first.
    pub closed spec fn window(&self) -> Seq<u64> {
        self.moving_average@
    }

    /// Creates a detector for a stream sampled at `sample_rate` millihertz
    /// and delivered in blocks of `buffer_size` samples. The block starts
    /// out silent and the smoothing window empty.
    pub fn new(sample_rate: u32, buffer_size: usize) -> (result: Result<PitchDetector, PitchError>)
        ensures
            (sample_rate == 0 || buffer_size == 0) <==> result is Err,
            result is Err ==> result == Err::<PitchDetector, PitchError>(
                PitchError::InvalidConstruction,
            ),
            result matches Ok(detector) ==> {
                &&& detector.well_formed()
                &&& detector.sample_rate() == sample_rate
                &&& detector.buffer_size() == buffer_size
                &&& detector.block() == Seq::new(buffer_size as nat, |i: int| 0i16)
                &&& detector.window() == Seq::<u64>::empty()
            },
    {
        if sample_rate == 0 || buffer_size == 0 {
            return Err(PitchError::InvalidConstruction);
        }
        let buffer: Vec<i16> = vec![0i16; buffer_size];
        let detector = PitchDetector {
            buffer,
            sample_rate,
            moving_average: Vec::with_capacity(WINDOW),
            buffer_size,
        };
        assert(detector.buffer@ =~= Seq::new(buffer_size as nat, |i: int| 0i16));
        assert(detector.moving_average@ =~= Seq::<u64>::empty());
        Ok(detector)
    }

    /// The most recent block handed to detection.
    pub fn current_block(&self) -> (block: &[i16])
        ensures
            block@ == self.block(),
    {
        self.buffer.as_slice()
    }

    /// The accepted detections kept for smoothing, oldest first.
    pub fn recent_frequencies(&self) -> (recent: &[u64])
        ensures
            recent@ == self.window(),
            recent@.len() <= WINDOW,
            forall|i: int| 0 <= i < recent@.len() ==> recent@[i] != NO_PITCH,
    {
        proof {
            use_type_invariant(self);
        }
        self.moving_average.as_slice()
    }

    /// Analyses one block of the stream and reports its smoothed fundamental
    /// frequency in millihertz, or `NO_PITCH`.
    ///
    /// A block of the wrong length is refused and leaves the detector as it
    /// was. Otherwise the block replaces the previous one; the smoothing
    /// window changes only when a pitch is detected.
    pub fn detect_pitch(&mut self, input: &[i16]) -> (result: Result<u64, PitchError>)
        ensures
            final(self).sample_rate() == old(self).sample_rate(),
            final(self).buffer_size() == old(self).buffer_size(),
            input@.len() != old(self).buffer_size() ==> {
                &&& result == Err::<u64, PitchError>(PitchError::InputLengthMismatch)
                &&& final(self).block() == old(self).block()
                &&& final(self).window() == old(self).window()
            },
            input@.len() == old(self).buffer_size() ==> {
                &&& result == Ok::<u64, PitchError>(
                    reported(old(self).window(), input@, old(self).sample_rate()),
                )
                &&& final(self).block() == input@
                &&& final(self).window() == next_window(
                    old(self).window(),
                    input@,
                    old(self).sample_rate(),
                )
            },
            result == Ok::<u64, PitchError>(NO_PITCH) <==> input@.len() == old(self).buffer_size()
                && detection(input@, old(self).sample_rate()) is None,
    {
        proof {
            use_type_invariant(&*self);
            lemma_sentinel_means_rejected(self.moving_average@, input@, self.sample_rate);
            lemma_window_step(self.moving_average@, input@, self.sample_rate);
        }
        if input.len() != self.buffer_size {
            return Err(PitchError::InputLengthMismatch);
        }
        self.buffer = slice_to_vec(input);

        let strong: bool = check_signal_strength(self.buffer.as_slice());
        if !strong {
            return Ok(NO_PITCH);
        }
        let correlation: Vec<i32> = calculate_autocorrelation(self.buffer.as_slice());
        match find_fundamental_frequency(correlation.as_slice(), self.sample_rate) {
            Some(frequency) => {
                let mut window: Vec<u64> = slice_to_vec(self.moving_average.as_slice());
                update_moving_average(&mut window, frequency);
                let median: u64 = get_median_frequency(window.as_slice());
                self.moving_average = window;
                Ok(median)
            },
            None => Ok(NO_PITCH),
        }
    }
}

} // verus!
