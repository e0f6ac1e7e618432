//! Peak location in a normalized autocorrelation vector, sub-sample
//! refinement of the peak by a parabola through its neighbours, and the
//! conversion of the refined lag to a frequency.

use vstd::prelude::*;
use crate::units::{CORRELATION_THRESHOLD, FLAT_CURVATURE, MAX_FREQ, MIN_FREQ};

verus! {

/// A lag refined to sub-sample precision: the exact fraction
/// `numerator / denominator` of a sample period.
#[derive(Debug, Clone, Copy, PartialEq, Eq, Structural)]
pub struct RefinedLag {
    pub numerator: i128,
    pub denominator: i128,
}

/// Twice the curvature `a` of the parabola through the three points
/// around `i`: `y0 + y2 - 2 * y1`.
pub open spec fn curvature(data: Seq<i32>, i: int) -> int {
    data[i - 1] + data[i + 1] - 2 * data[i]
}

/// Twice the slope `b` of the parabola through the three points around
/// `i`: `y2 - y0`.
pub open spec fn slope(data: Seq<i32>, i: int) -> int {
    data[i + 1] - data[i - 1]
}

/// The vertex `i - b / (2 * a)` of the parabola through the points around
/// `i`, as a fraction with a positive denominator. An index without two
/// neighbours, or a curvature below the flatness limit, leaves `i` as it is.
pub open spec fn refined_lag(data: Seq<i32>, i: int) -> (int, int) {
    if i <= 0 || i >= data.len() - 1 {
        (i, 1)
    } else {
        let a2 = curvature(data, i);
        let b2 = slope(data, i);
        if -FLAT_CURVATURE < a2 < FLAT_CURVATURE {
            (i, 1)
        } else if a2 < 0 {
            (2 * i * (-a2) + b2, 2 * (-a2))
        } else {
            (2 * i * a2 - b2, 2 * a2)
        }
    }
}

/// Shortest lag searched: the period of the highest detectable frequency,
/// in whole samples.
pub open spec fn min_lag(sample_rate: u32) -> int {
    sample_rate as int / MAX_FREQ as int
}

/// Longest lag searched: the period of the lowest detectable frequency,
/// in whole samples, clipped so that a peak keeps a neighbour on each side
/// within a vector of `len` values.
pub open spec fn max_lag(sample_rate: u32, len: int) -> int {
    let longest = sample_rate as int / MIN_FREQ as int;
    if longest <= len - 3 {
        longest
    } else {
        len - 3
    }
}

/// True when lag `i` lies in the searched band.
pub open spec fn in_band(sample_rate: u32, len: int, i: int) -> bool {
    min_lag(sample_rate) <= i <= max_lag(sample_rate, len)
}

/// True when `data[i]` has two neighbours and is strictly above both.
pub open spec fn is_strict_peak(data: Seq<i32>, i: int) -> bool {
    &&& 0 < i < data.len() - 1
    &&& data[i] > data[i - 1]
    &&& data[i] > data[i + 1]
}

/// True when `i` is the first lag of the band that holds the highest strict
/// local maximum of the band.
pub open spec fn is_best_peak(data: Seq<i32>, sample_rate: u32, i: int) -> bool {
    &&& in_band(sample_rate, data.len() as int, i)
    &&& is_strict_peak(data, i)
    &&& forall|j: int|
        in_band(sample_rate, data.len() as int, j) && #[trigger] is_strict_peak(data, j)
            ==> data[j] <= data[i]
    &&& forall|j: int|
        in_band(sample_rate, data.len() as int, j) && j < i && #[trigger] is_strict_peak(data, j)
            ==> data[j] < data[i]
}

/// True when `i` is the best peak of the band and strong enough to be
/// accepted as the period of the signal.
pub open spec fn is_accepted_peak(data: Seq<i32>, sample_rate: u32, i: int) -> bool {
    is_best_peak(data, sample_rate, i) && data[i] > CORRELATION_THRESHOLD
}

/// The lag of the accepted peak, if the band holds one.
pub open spec fn accepted_peak(data: Seq<i32>, sample_rate: u32) -> Option<int> {
    if exists|i: int| is_accepted_peak(data, sample_rate, i) {
        Some(choose|i: int| is_accepted_peak(data, sample_rate, i))
    } else {
        None
    }
}

/// Frequency, in millihertz and rounded down, of a period of
/// `numerator / denominator` samples at `sample_rate` millihertz.
pub open spec fn lag_frequency(sample_rate: u32, numerator: int, denominator: int) -> int {
    (sample_rate * denominator) / numerator
}

/// Frequency that the refined peak at lag `i` stands for.
pub open spec fn peak_frequency(data: Seq<i32>, sample_rate: u32, i: int) -> int {
    lag_frequency(sample_rate, refined_lag(data, i).0, refined_lag(data, i).1)
}

/// The fundamental frequency read from a normalized autocorrelation
/// vector: that of its accepted peak, or nothing without one.
pub open spec fn fundamental_frequency(data: Seq<i32>, sample_rate: u32) -> Option<u64> {
    match accepted_peak(data, sample_rate) {
        Some(i) => Some(peak_frequency(data, sample_rate, i) as u64),
        None => None,
    }
}

/// At most one lag is the best peak of a band.
pub proof fn lemma_best_peak_unique(data: Seq<i32>, sample_rate: u32, i: int, j: int)
    requires
        is_best_peak(data, sample_rate, i),
        is_best_peak(data, sample_rate, j),
    ensures
        i == j,
{
    if i < j {
        assert(is_strict_peak(data, i));
        assert(data[i] < data[j]);
        assert(is_strict_peak(data, j));
        assert(data[j] <= data[i]);
    } else if j < i {
        assert(is_strict_peak(data, j));
        assert(data[j] < data[i]);
        assert(is_strict_peak(data, i));
        assert(data[i] <= data[j]);
    }
}

/// The refined lag of a strict peak lies less than half a sample away from
/// the peak itself.
pub proof fn lemma_refined_lag_near_peak(data: Seq<i32>, i: int)
    requires
        is_strict_peak(data, i),
    ensures
        refined_lag(data, i).1 > 0,
        (2 * i - 1) * refined_lag(data, i).1 < 2 * refined_lag(data, i).0,
        2 * refined_lag(data, i).0 < (2 * i + 1) * refined_lag(data, i).1,
{
    let a2 = curvature(data, i);
    let b2 = slope(data, i);
    let depth = -a2;
    assert(depth > 0);
    assert(-depth < b2 < depth);
    if !(-FLAT_CURVATURE < a2 < FLAT_CURVATURE) {
        assert((2 * i - 1) * (2 * depth) < 2 * (2 * i * depth + b2) && 2 * (2 * i * depth + b2) < (2
            * i + 1) * (2 * depth)) by (nonlinear_arith)
            requires
                -depth < b2 < depth,
        ;
    }
}

/// The frequency of a strict peak inside the band is positive and below
/// twice the sample rate.
pub proof fn lemma_peak_frequency_bounds(data: Seq<i32>, sample_rate: u32, i: int)
    requires
        is_strict_peak(data, i),
        in_band(sample_rate, data.len() as int, i),
    ensures
        0 < peak_frequency(data, sample_rate, i) < 2 * sample_rate,
{
    lemma_refined_lag_near_peak(data, i);
    let n = refined_lag(data, i).0;
    let d = refined_lag(data, i).1;
    let rate = sample_rate as int;
    assert(i <= rate / 20_000);
    assert(i < rate);
    assert(0 < n <= rate * d && rate * d < 2 * rate * n) by (nonlinear_arith)
        requires
            1 <= i < rate,
            d > 0,
            (2 * i - 1) * d < 2 * n,
            2 * n < (2 * i + 1) * d,
    ;
    assert(0 < (rate * d) / n < 2 * rate) by (nonlinear_arith)
        requires
            0 < n <= rate * d,
            rate * d < 2 * rate * n,
    ;
}

/// Every lag that the search may report keeps both neighbours, and the one
/// after them, inside the vector, wherever in the band it lies.
pub proof fn lemma_accepted_peak_in_bounds(data: Seq<i32>, sample_rate: u32, i: int)
    requires
        is_accepted_peak(data, sample_rate, i),
    ensures
        1 <= i <= data.len() - 3,
        0 <= i - 1 && i + 1 < data.len(),
        min_lag(sample_rate) <= i <= sample_rate as int / MIN_FREQ as int,
{
}

/// A detected frequency is exactly the rounded-down frequency of the
/// accepted peak; it is positive and below twice the sample rate.
pub proof fn lemma_fundamental_frequency_bounds(data: Seq<i32>, sample_rate: u32)
    requires
        fundamental_frequency(data, sample_rate) is Some,
    ensures
        accepted_peak(data, sample_rate) is Some,
        is_accepted_peak(data, sample_rate, accepted_peak(data, sample_rate)->0),
        fundamental_frequency(data, sample_rate)->0 == peak_frequency(
            data,
            sample_rate,
            accepted_peak(data, sample_rate)->0,
        ),
        0 < fundamental_frequency(data, sample_rate)->0 < 2 * sample_rate,
{
    let i = accepted_peak(data, sample_rate)->0;
    lemma_peak_frequency_bounds(data, sample_rate, i);
}

/// Refines the integer index of a peak to the vertex of the parabola
/// through the peak and its two neighbours.
pub fn interpolate_peak(data: &[i32], peak_index: usize) -> (lag: RefinedLag)
    ensures
        lag.numerator == refined_lag(data@, peak_index as int).0,
        lag.denominator == refined_lag(data@, peak_index as int).1,
        lag.denominator > 0,
{
    let unrefined = RefinedLag { numerator: peak_index as i128, denominator: 1 };
    if peak_index == 0 || data.len() < 2 || peak_index >= data.len() - 1 {
        return unrefined;
    }
    let y0: i64 = data[peak_index - 1] as i64;
    let y1: i64 = data[peak_index] as i64;
    let y2: i64 = data[peak_index + 1] as i64;
    let a2: i64 = y0 + y2 - 2 * y1;
    let b2: i64 = y2 - y0;
    if -FLAT_CURVATURE < a2 && a2 < FLAT_CURVATURE {
        return unrefined;
    }
    let index: i128 = peak_index as i128;
    let magnitude: i128 = if a2 < 0 { -(a2 as i128) } else { a2 as i128 };
    assert(0 <= 2 * index * magnitude <= 2 * 0xffff_ffff_ffff_ffff * 0x2_0000_0000)
        by (nonlinear_arith)
        requires
            0 <= index <= 0xffff_ffff_ffff_ffff,
            0 <= magnitude <= 0x2_0000_0000,
    ;
    let scaled: i128 = 2 * index * magnitude;
    if a2 < 0 {
        RefinedLag { numerator: scaled + b2 as i128, denominator: 2 * magnitude }
    } else {
        RefinedLag { numerator: scaled - b2 as i128, denominator: 2 * magnitude }
    }
}

/// Searches the band of lags that `sample_rate` allows for the strongest
/// strict local maximum of `correlation` and converts it to a frequency in
/// millihertz. Nothing is returned unless that peak exceeds the
/// correlation threshold.
pub fn find_fundamental_frequency(correlation: &[i32], sample_rate: u32) -> (found: Option<u64>)
    ensures
        found == fundamental_frequency(correlation@, sample_rate),
        found matches Some(frequency) ==> 0 < frequency < 2 * sample_rate,
{
    let len: usize = correlation.len();
    let shortest: usize = (sample_rate / MAX_FREQ) as usize;
    let longest: usize = (sample_rate / MIN_FREQ) as usize;
    if len < 3 {
        assert(forall|i: int| !is_accepted_peak(correlation@, sample_rate, i));
        return None;
    }
    let last: usize = if longest <= len - 3 { longest } else { len - 3 };
    let first: usize = if shortest == 0 { 1 } else { shortest };
    if first > last {
        assert(forall|i: int| !is_accepted_peak(correlation@, sample_rate, i));
        return None;
    }
    let mut max_correlation: i32 = 0;
    let mut peak_index: usize = 0;
    let mut i: usize = first;
    while i <= last
        invariant
            1 <= first <= i <= last + 1,
            last <= len - 3,
            len == correlation@.len(),
            max_correlation >= 0,
            forall|j: int| first <= j < i && #[trigger] is_strict_peak(correlation@, j)
                ==> correlation@[j] <= max_correlation,
            max_correlation > 0 ==> {
                &&& first <= peak_index < i
                &&& is_strict_peak(correlation@, peak_index as int)
                &&& correlation@[peak_index as int] == max_correlation
                &&& forall|j: int| first <= j < peak_index && #[trigger] is_strict_peak(correlation@, j)
                    ==> correlation@[j] < max_correlation
            },
        decreases last + 1 - i,
    {
        let current: i32 = correlation[i];
        let prev: i32 = correlation[i - 1];
        let next: i32 = correlation[i + 1];
        if current > max_correlation && current > prev && current > next {
            max_correlation = current;
            peak_index = i;
        }
        i = i + 1;
    }
    assert(first == if min_lag(sample_rate) == 0 { 1 } else { min_lag(sample_rate) });
    assert(last == max_lag(sample_rate, len as int));
    if max_correlation > CORRELATION_THRESHOLD {
        proof {
            let best = peak_index as int;
            assert(is_accepted_peak(correlation@, sample_rate, best));
            let chosen = choose|k: int| is_accepted_peak(correlation@, sample_rate, k);
            lemma_best_peak_unique(correlation@, sample_rate, best, chosen);
            lemma_refined_lag_near_peak(correlation@, best);
            lemma_peak_frequency_bounds(correlation@, sample_rate, best);
        }
        let lag: RefinedLag = interpolate_peak(correlation, peak_index);
        assert(0 < lag.denominator <= 0x4_0000_0000 && lag.numerator > 0);
        assert(0 <= sample_rate * lag.denominator <= 0xffff_ffff * 0x4_0000_0000) by (nonlinear_arith)
            requires
                0 < lag.denominator <= 0x4_0000_0000,
        ;
        let scaled: u128 = (sample_rate as u128) * (lag.denominator as u128);
        let frequency: u128 = scaled / (lag.numerator as u128);
        Some(frequency as u64)
    } else {
        assert forall|k: int| !is_accepted_peak(correlation@, sample_rate, k) by {
            if is_accepted_peak(correlation@, sample_rate, k) {
                assert(is_strict_peak(correlation@, k));
                assert(first <= k < i);
            }
        }
        None
    }
}

} // verus!
