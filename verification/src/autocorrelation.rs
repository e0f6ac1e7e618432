//! Biased autocorrelation of a sample block and its global normalization.

use vstd::prelude::*;
use vstd::arithmetic::div_mod::{lemma_div_is_ordered, lemma_div_multiples_vanish, lemma_div_pos_is_pos};
use crate::units::UNIT;

verus! {

/// Sum of the first `n` lagged products: `s[0]*s[lag] + ... + s[n-1]*s[n-1+lag]`.
pub open spec fn lag_sum(s: Seq<i16>, lag: int, n: int) -> int
    decreases n,
{
    if n <= 0 {
        0
    } else {
        lag_sum(s, lag, n - 1) + s[n - 1] * s[n - 1 + lag]
    }
}

/// Biased autocorrelation at `lag`: the lagged products over the shrinking
/// support `0..len - lag`, with no compensation for the shorter support.
pub open spec fn raw_autocorrelation(s: Seq<i16>, lag: int) -> int {
    lag_sum(s, lag, s.len() - lag)
}

/// Total energy of the block: the sum of its squared samples.
pub open spec fn energy(s: Seq<i16>) -> int {
    raw_autocorrelation(s, 0)
}

/// One lagged product is bounded by the square of full scale.
pub proof fn lemma_product_bound(a: i16, b: i16)
    ensures
        -0x4000_0000 <= a * b <= 0x4000_0000,
{
    assert(-0x4000_0000 <= a * b <= 0x4000_0000) by (nonlinear_arith)
        requires
            -0x8000 <= a <= 0x7fff,
            -0x8000 <= b <= 0x7fff,
    ;
}

/// A partial lag sum of `n` terms stays within `n` squared full scales.
pub proof fn lemma_lag_sum_bound(s: Seq<i16>, lag: int, n: int)
    requires
        0 <= n,
    ensures
        -0x4000_0000 * n <= lag_sum(s, lag, n) <= 0x4000_0000 * n,
    decreases n,
{
    if n > 0 {
        lemma_lag_sum_bound(s, lag, n - 1);
        lemma_product_bound(s[n - 1], s[n - 1 + lag]);
    }
}

/// Largest biased autocorrelation among the lags below `lags` (lag zero
/// alone when `lags` is at most one).
pub open spec fn max_raw(s: Seq<i16>, lags: int) -> int
    decreases lags,
{
    if lags <= 1 {
        raw_autocorrelation(s, 0)
    } else {
        let rest = max_raw(s, lags - 1);
        let last = raw_autocorrelation(s, lags - 1);
        if last > rest {
            last
        } else {
            rest
        }
    }
}

/// The single divisor used for normalization: the maximum of the whole
/// autocorrelation vector.
pub open spec fn strongest(s: Seq<i16>) -> int {
    max_raw(s, s.len() as int)
}

/// `value / divisor` expressed in `UNIT`s and rounded toward zero; a
/// non-positive divisor leaves the value as it is.
pub open spec fn scale_to_unit(value: int, divisor: int) -> int {
    if divisor <= 0 {
        value
    } else if value >= 0 {
        (value * UNIT) / divisor
    } else {
        -(((-value) * UNIT) / divisor)
    }
}

/// The autocorrelation vector after global normalization by its maximum.
pub open spec fn normalized_autocorrelation(s: Seq<i16>) -> Seq<i32> {
    Seq::new(s.len(), |lag: int| scale_to_unit(raw_autocorrelation(s, lag), strongest(s)) as i32)
}

/// True when every sample of the block is zero.
pub open spec fn all_zero(s: Seq<i16>) -> bool {
    forall|i: int| 0 <= i < s.len() ==> s[i] == 0
}

/// Energy accumulated over a prefix is non-negative and never shrinks as
/// the prefix grows.
pub proof fn lemma_prefix_energy_monotone(s: Seq<i16>, n: int, m: int)
    requires
        n <= m,
    ensures
        0 <= lag_sum(s, 0, n) <= lag_sum(s, 0, m),
    decreases m,
{
    if m > 0 {
        let k = if n < m { n } else { m - 1 };
        lemma_prefix_energy_monotone(s, k, m - 1);
        let a = s[m - 1] as int;
        assert(a * a >= 0) by (nonlinear_arith);
    }
}

/// Twice a lagged sum, with either sign, is at most the energy of the two
/// stretches of samples that it multiplies together.
pub proof fn lemma_lag_sum_dominated(s: Seq<i16>, lag: int, n: int)
    requires
        0 <= lag,
        0 <= n,
    ensures
        2 * lag_sum(s, lag, n) <= lag_sum(s, 0, n) + lag_sum(s, 0, lag + n) - lag_sum(s, 0, lag),
        -2 * lag_sum(s, lag, n) <= lag_sum(s, 0, n) + lag_sum(s, 0, lag + n) - lag_sum(s, 0, lag),
    decreases n,
{
    if n > 0 {
        lemma_lag_sum_dominated(s, lag, n - 1);
        let a = s[n - 1] as int;
        let b = s[n - 1 + lag] as int;
        assert(2 * (a * b) <= a * a + b * b && -2 * (a * b) <= a * a + b * b)
            by (nonlinear_arith);
        assert(lag_sum(s, 0, n) == lag_sum(s, 0, n - 1) + a * a);
        assert(lag_sum(s, 0, lag + n) == lag_sum(s, 0, lag + n - 1) + b * b);
    }
}

/// No lag correlates more strongly than lag zero: every autocorrelation
/// value lies between minus the energy and the energy.
pub proof fn lemma_lag_zero_dominates(s: Seq<i16>, lag: int)
    requires
        0 <= lag <= s.len(),
    ensures
        -energy(s) <= raw_autocorrelation(s, lag) <= energy(s),
        0 <= energy(s),
{
    let len = s.len() as int;
    lemma_lag_sum_dominated(s, lag, len - lag);
    lemma_prefix_energy_monotone(s, len - lag, len);
    lemma_prefix_energy_monotone(s, 0, lag);
    lemma_prefix_energy_monotone(s, 0, len);
}

/// The maximum over any number of leading lags is the energy itself.
pub proof fn lemma_max_raw_is_energy(s: Seq<i16>, lags: int)
    requires
        lags <= s.len(),
    ensures
        max_raw(s, lags) == energy(s),
    decreases lags,
{
    if lags > 1 {
        lemma_max_raw_is_energy(s, lags - 1);
        lemma_lag_zero_dominates(s, lags - 1);
    }
}

/// The energy is bounded by the block length times the square of full scale.
pub proof fn lemma_energy_bound(s: Seq<i16>)
    ensures
        0 <= energy(s) <= 0x4000_0000 * s.len(),
{
    lemma_lag_sum_bound(s, 0, s.len() as int);
    lemma_prefix_energy_monotone(s, 0, s.len() as int);
}

/// A prefix without energy holds only zeros, and a prefix of zeros has no
/// energy.
pub proof fn lemma_prefix_energy_zero(s: Seq<i16>, n: int)
    requires
        0 <= n <= s.len(),
    ensures
        lag_sum(s, 0, n) == 0 <==> (forall|i: int| 0 <= i < n ==> s[i] == 0),
    decreases n,
{
    if n > 0 {
        lemma_prefix_energy_zero(s, n - 1);
        lemma_prefix_energy_monotone(s, 0, n - 1);
        let a = s[n - 1] as int;
        assert(a * a >= 0 && (a * a == 0 <==> a == 0)) by (nonlinear_arith);
        if lag_sum(s, 0, n) == 0 {
            assert forall|i: int| 0 <= i < n implies s[i] == 0 by {
                if i < n - 1 {
                } else {
                    assert(s[n - 1] == 0);
                }
            }
        }
    }
}

/// A block has zero energy exactly when all of its samples are zero.
pub proof fn lemma_energy_zero_iff_all_zero(s: Seq<i16>)
    ensures
        energy(s) == 0 <==> all_zero(s),
{
    lemma_prefix_energy_zero(s, s.len() as int);
}

/// After normalization the vector peaks at exactly one unit, reached at lag
/// zero, whenever the block is not all zero; a block of zeros gives a
/// vector of zeros. No value ever leaves the range of one unit either way.
pub proof fn lemma_normalized_maximum(s: Seq<i16>)
    ensures
        normalized_autocorrelation(s).len() == s.len(),
        forall|lag: int|
            0 <= lag < s.len() ==> -UNIT <= #[trigger] normalized_autocorrelation(s)[lag] <= UNIT,
        s.len() > 0 && !all_zero(s) ==> normalized_autocorrelation(s)[0] == UNIT,
        all_zero(s) ==> forall|lag: int|
            0 <= lag < s.len() ==> #[trigger] normalized_autocorrelation(s)[lag] == 0,
{
    let len = s.len() as int;
    lemma_max_raw_is_energy(s, len);
    lemma_energy_zero_iff_all_zero(s);
    assert forall|lag: int| 0 <= lag < len implies {
        &&& -UNIT <= #[trigger] normalized_autocorrelation(s)[lag] <= UNIT
        &&& all_zero(s) ==> normalized_autocorrelation(s)[lag] == 0
    } by {
        lemma_lag_zero_dominates(s, lag);
        if energy(s) > 0 {
            lemma_scale_to_unit_bound(raw_autocorrelation(s, lag), energy(s));
        }
    }
    if len > 0 && !all_zero(s) {
        lemma_lag_zero_dominates(s, 0);
        lemma_scale_to_unit_bound(energy(s), energy(s));
    }
}

/// Computes the biased autocorrelation of `samples` at one lag; beyond the
/// end of the block there is nothing to correlate and the result is zero.
pub fn autocorrelation_at(samples: &[i16], lag: usize) -> (sum: i128)
    ensures
        sum == raw_autocorrelation(samples@, lag as int),
{
    if lag >= samples.len() {
        return 0;
    }
    let span: usize = samples.len() - lag;
    let mut sum: i128 = 0;
    let mut i: usize = 0;
    while i < span
        invariant
            0 <= i <= span,
            span == samples.len() - lag,
            lag <= samples.len(),
            sum == lag_sum(samples@, lag as int, i as int),
        decreases span - i,
    {
        proof {
            lemma_lag_sum_bound(samples@, lag as int, i as int);
            lemma_product_bound(samples[i as int], samples[i + lag]);
        }
        let a: i64 = samples[i] as i64;
        let b: i64 = samples[i + lag] as i64;
        sum = sum + (a * b) as i128;
        i = i + 1;
    }
    sum
}

/// Every normalized value stays within one unit, and the cast to `i32`
/// loses nothing.
pub proof fn lemma_scale_to_unit_bound(value: int, divisor: int)
    requires
        0 < divisor,
        -divisor <= value <= divisor,
    ensures
        -UNIT <= scale_to_unit(value, divisor) <= UNIT,
        value == divisor ==> scale_to_unit(value, divisor) == UNIT,
        value == 0 ==> scale_to_unit(value, divisor) == 0,
{
    let magnitude = if value >= 0 { value } else { -value };
    assert(0 <= magnitude * UNIT <= divisor * UNIT) by (nonlinear_arith)
        requires
            0 <= magnitude <= divisor,
    ;
    lemma_div_is_ordered(magnitude * UNIT, divisor * UNIT, divisor);
    lemma_div_pos_is_pos(magnitude * UNIT, divisor);
    assert(divisor * UNIT == UNIT * divisor) by (nonlinear_arith);
    lemma_div_multiples_vanish(UNIT as int, divisor);
    assert(0 * UNIT == 0);
}

/// Expresses `value / divisor` in `UNIT`s, rounding toward zero.
pub(crate) fn scale_value(value: i128, divisor: i128) -> (scaled: i32)
    requires
        0 < divisor <= 0x4000_0000 * 0xffff_ffff_ffff_ffff,
        -divisor <= value <= divisor,
    ensures
        scaled == scale_to_unit(value as int, divisor as int),
        -UNIT <= scaled <= UNIT,
{
    proof {
        lemma_scale_to_unit_bound(value as int, divisor as int);
    }
    let d: u128 = divisor as u128;
    if value >= 0 {
        let v: u128 = value as u128;
        let q: u128 = (v * 1_000_000_000) / d;
        q as i32
    } else {
        let v: u128 = (-value) as u128;
        let q: u128 = (v * 1_000_000_000) / d;
        -(q as i32)
    }
}

/// Computes the biased autocorrelation of a block at every
/// lag and normalizes the whole vector by its maximum.
pub fn calculate_autocorrelation(samples: &[i16]) -> (result: Vec<i32>)
    ensures
        result@ == normalized_autocorrelation(samples@),
        forall|lag: int| 0 <= lag < result@.len() ==> -UNIT <= #[trigger] result@[lag] <= UNIT,
{
    let length: usize = samples.len();
    if length == 0 {
        let empty: Vec<i32> = Vec::new();
        assert(empty@ =~= normalized_autocorrelation(samples@));
        return empty;
    }
    let mut raw: Vec<i128> = Vec::with_capacity(length);
    let mut lag: usize = 0;
    while lag < length
        invariant
            lag <= length,
            length == samples@.len(),
            raw@.len() == lag,
            forall|j: int| 0 <= j < lag ==> #[trigger] raw@[j] == raw_autocorrelation(samples@, j),
        decreases length - lag,
    {
        let value: i128 = autocorrelation_at(samples, lag);
        raw.push(value);
        lag = lag + 1;
    }

    let mut max_value: i128 = raw[0];
    let mut seen: usize = 1;
    while seen < length
        invariant
            1 <= seen <= length,
            length == samples@.len(),
            raw@.len() == length,
            forall|j: int| 0 <= j < length ==> #[trigger] raw@[j] == raw_autocorrelation(samples@, j),
            max_value == max_raw(samples@, seen as int),
        decreases length - seen,
    {
        if raw[seen] > max_value {
            max_value = raw[seen];
        }
        seen = seen + 1;
    }

    proof {
        lemma_max_raw_is_energy(samples@, length as int);
        lemma_energy_bound(samples@);
    }
    let mut result: Vec<i32> = Vec::with_capacity(length);
    let mut done: usize = 0;
    while done < length
        invariant
            done <= length,
            length == samples@.len(),
            raw@.len() == length,
            forall|j: int| 0 <= j < length ==> #[trigger] raw@[j] == raw_autocorrelation(samples@, j),
            max_value == strongest(samples@),
            max_value == energy(samples@),
            0 <= max_value <= 0x4000_0000 * length,
            result@.len() == done,
            forall|j: int| 0 <= j < done ==> #[trigger] result@[j] == scale_to_unit(
                raw_autocorrelation(samples@, j),
                strongest(samples@),
            ),
            forall|j: int| 0 <= j < done ==> -UNIT <= #[trigger] result@[j] <= UNIT,
        decreases length - done,
    {
        proof {
            lemma_lag_zero_dominates(samples@, done as int);
        }
        let value: i128 = raw[done];
        if max_value > 0 {
            result.push(scale_value(value, max_value));
        } else {
            result.push(value as i32);
        }
        done = done + 1;
    }
    assert(result@ =~= normalized_autocorrelation(samples@));
    result
}

} // verus!
