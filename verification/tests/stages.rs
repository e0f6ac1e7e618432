use pitch_detector::autocorrelation::{autocorrelation_at, calculate_autocorrelation};
use pitch_detector::peak::{find_fundamental_frequency, interpolate_peak, RefinedLag};
use pitch_detector::smoothing::{get_median_frequency, sorted_copy, update_moving_average};
use pitch_detector::strength::{check_signal_strength, signal_energy};
use pitch_detector::units::{
    CORRELATION_THRESHOLD, FLAT_CURVATURE, FULL_SCALE, STRENGTH_RECIPROCAL, MAX_FREQ, MIN_FREQ,
    NO_PITCH, UNIT, WINDOW,
};

const RATE: u32 = 44_100_000;

fn flat_with(len: usize, peaks: &[(usize, i32)]) -> Vec<i32> {
    let mut data = vec![0i32; len];
    for &(at, value) in peaks {
        data[at] = value;
    }
    data
}

#[test]
fn constants_have_their_documented_values() {
    assert_eq!(FULL_SCALE, 32_768);
    assert_eq!(STRENGTH_RECIPROCAL, 1_000);
    assert_eq!(UNIT, 1_000_000_000);
    assert_eq!(MIN_FREQ, 20_000);
    assert_eq!(MAX_FREQ, 2_000_000);
    assert_eq!(CORRELATION_THRESHOLD, 800_000_000);
    assert_eq!(FLAT_CURVATURE, 2_000);
    assert_eq!(WINDOW, 4);
    assert_eq!(NO_PITCH, 0);
}

#[test]
fn energy_is_the_sum_of_squares() {
    assert_eq!(signal_energy(&[1, 2, 3, 4]), 30);
    assert_eq!(signal_energy(&[-3, 4]), 25);
    assert_eq!(signal_energy(&[]), 0);
    assert_eq!(signal_energy(&[i16::MIN, i16::MIN, i16::MAX]), 2 * 1_073_741_824 + 1_073_676_289);
}

#[test]
fn strength_check_passes_strictly_above_a_thousandth_of_full_scale() {
    // 0.001 of full scale is 32.768 steps.
    assert!(!check_signal_strength(&[32]));
    assert!(check_signal_strength(&[33]));
    assert!(!check_signal_strength(&[-32, 32, -32, 32]));
    assert!(check_signal_strength(&[-33, 33, -33, 33]));
    // One loud sample among many silent ones: 1000^2 over 1000 samples is
    // a mean square of 1000, below 32.768^2.
    let mut block = vec![0i16; 1000];
    block[0] = 1000;
    assert!(!check_signal_strength(&block));
    block[0] = 1037;
    assert!(check_signal_strength(&block));
    block[0] = 1036;
    assert!(!check_signal_strength(&block));
}

#[test]
fn strength_check_rejects_silence_and_empty_blocks() {
    assert!(!check_signal_strength(&[0; 64]));
    assert!(!check_signal_strength(&[]));
}

#[test]
fn raw_autocorrelation_uses_the_shrinking_support() {
    let block = [1i16, 2, 3, 4];
    assert_eq!(autocorrelation_at(&block, 0), 30);
    assert_eq!(autocorrelation_at(&block, 1), 20);
    assert_eq!(autocorrelation_at(&block, 2), 11);
    assert_eq!(autocorrelation_at(&block, 3), 4);
    assert_eq!(autocorrelation_at(&block, 4), 0);
}

#[test]
fn raw_autocorrelation_handles_extreme_samples() {
    let block = [i16::MIN; 3];
    assert_eq!(autocorrelation_at(&block, 0), 3_221_225_472);
    assert_eq!(autocorrelation_at(&block, 1), 2_147_483_648);
    assert_eq!(autocorrelation_at(&block, 2), 1_073_741_824);
    assert_eq!(autocorrelation_at(&[i16::MIN, i16::MAX], 1), -1_073_709_056);
}

#[test]
fn normalization_divides_by_the_single_maximum() {
    assert_eq!(
        calculate_autocorrelation(&[1, 2, 3, 4]),
        vec![1_000_000_000, 666_666_666, 366_666_666, 133_333_333]
    );
    assert_eq!(calculate_autocorrelation(&[i16::MIN, i16::MIN]), vec![UNIT, 500_000_000]);
}

#[test]
fn normalization_rounds_negative_values_toward_zero() {
    assert_eq!(
        calculate_autocorrelation(&[1, -1, 1]),
        vec![1_000_000_000, -666_666_666, 333_333_333]
    );
    assert_eq!(calculate_autocorrelation(&[5, -5]), vec![UNIT, -500_000_000]);
}

#[test]
fn normalization_is_independent_of_amplitude() {
    let quiet = [10i16, -20, 30, -40, 50, 20, -10];
    let loud: Vec<i16> = quiet.iter().map(|x| x * 100).collect();
    assert_eq!(calculate_autocorrelation(&quiet), calculate_autocorrelation(&loud));
}

#[test]
fn normalized_maximum_is_exactly_one_unit() {
    let block: Vec<i16> = (0..257).map(|k| ((k * 7919) % 2001 - 1000) as i16).collect();
    let normalized = calculate_autocorrelation(&block);
    assert_eq!(normalized.len(), block.len());
    assert_eq!(normalized[0], UNIT);
    assert_eq!(normalized.iter().copied().max(), Some(UNIT));
    assert!(normalized.iter().all(|&v| -UNIT <= v && v <= UNIT));
}

#[test]
fn normalization_of_silence_is_all_zero() {
    assert_eq!(calculate_autocorrelation(&[0; 5]), vec![0; 5]);
    assert_eq!(calculate_autocorrelation(&[]), Vec::<i32>::new());
}

#[test]
fn interpolation_of_a_symmetric_peak_keeps_the_index() {
    let data = [0, 500_000_000, 1_000_000_000, 500_000_000, 0];
    let lag = interpolate_peak(&data, 2);
    assert_eq!(lag, RefinedLag { numerator: 4_000_000_000, denominator: 2_000_000_000 });
}

#[test]
fn interpolation_leans_toward_the_higher_neighbour() {
    let mut data = vec![0i32; 100];
    data[49] = 600_000_000;
    data[50] = 900_000_000;
    data[51] = 800_000_000;
    let lag = interpolate_peak(&data, 50);
    assert_eq!(lag, RefinedLag { numerator: 40_200_000_000, denominator: 800_000_000 });
    // 50.25 samples
    assert_eq!(lag.numerator * 4, lag.denominator * 201);

    data[49] = 800_000_000;
    data[51] = 600_000_000;
    let lag = interpolate_peak(&data, 50);
    assert_eq!(lag, RefinedLag { numerator: 39_800_000_000, denominator: 800_000_000 });
}

#[test]
fn interpolation_without_two_neighbours_is_unrefined() {
    let data = [900_000_000, 100, 200, 950_000_000];
    assert_eq!(interpolate_peak(&data, 0), RefinedLag { numerator: 0, denominator: 1 });
    assert_eq!(interpolate_peak(&data, 3), RefinedLag { numerator: 3, denominator: 1 });
    assert_eq!(interpolate_peak(&data, 9), RefinedLag { numerator: 9, denominator: 1 });
    assert_eq!(interpolate_peak(&[], 0), RefinedLag { numerator: 0, denominator: 1 });
    assert_eq!(interpolate_peak(&[5], 0), RefinedLag { numerator: 0, denominator: 1 });
}

#[test]
fn interpolation_of_a_flat_peak_is_unrefined() {
    // twice the curvature is -1500: below the limit of 2000
    let data = [899_999_000, 900_000_000, 899_999_500];
    assert_eq!(interpolate_peak(&data, 1), RefinedLag { numerator: 1, denominator: 1 });
    // -1999 is still flat, -2000 is not
    let data = [0, 1_000, 1];
    assert_eq!(interpolate_peak(&data, 1), RefinedLag { numerator: 1, denominator: 1 });
    let data = [0, 1_000, 0];
    assert_eq!(interpolate_peak(&data, 1), RefinedLag { numerator: 4_000, denominator: 4_000 });
}

#[test]
fn interpolation_follows_the_parabola_at_a_minimum_too() {
    let data = [10_000, 0, 30_000];
    // a = 20000, b = 10000: vertex at 1 - 10000 / 40000
    assert_eq!(interpolate_peak(&data, 1), RefinedLag { numerator: 60_000, denominator: 80_000 });
}

#[test]
fn interpolation_handles_extreme_values() {
    let data = [i32::MIN, i32::MAX, i32::MIN];
    let lag = interpolate_peak(&data, 1);
    assert_eq!(lag.denominator, 2 * (2 * (i32::MAX as i128) - 2 * (i32::MIN as i128)));
    assert_eq!(lag.numerator, lag.denominator);
}

#[test]
fn search_converts_the_peak_lag_to_a_frequency() {
    let data = flat_with(100, &[(49, 700_000_000), (50, 900_000_000), (51, 700_000_000)]);
    assert_eq!(find_fundamental_frequency(&data, RATE), Some(882_000));
    let data = flat_with(100, &[(49, 600_000_000), (50, 900_000_000), (51, 800_000_000)]);
    // 44100 Hz / 50.25 samples, rounded down to the millihertz
    assert_eq!(find_fundamental_frequency(&data, RATE), Some(877_611));
}

#[test]
fn search_requires_a_peak_above_the_threshold() {
    let data = flat_with(100, &[(30, 800_000_000)]);
    assert_eq!(find_fundamental_frequency(&data, RATE), None);
    let data = flat_with(100, &[(30, 800_000_001)]);
    assert_eq!(find_fundamental_frequency(&data, RATE), Some(1_470_000));
    assert_eq!(find_fundamental_frequency(&vec![0; 100], RATE), None);
}

#[test]
fn search_requires_a_strict_local_maximum() {
    // a plateau of two equal values is no peak
    let data = flat_with(100, &[(40, 900_000_000), (41, 900_000_000)]);
    assert_eq!(find_fundamental_frequency(&data, RATE), None);
    // a ramp has no peak inside the band
    let ramp: Vec<i32> = (0..100).map(|k| 900_000_000 + k).collect();
    assert_eq!(find_fundamental_frequency(&ramp, RATE), None);
}

#[test]
fn search_prefers_the_highest_peak_and_the_first_among_equals() {
    let data = flat_with(100, &[(30, 900_000_000), (60, 900_000_000)]);
    assert_eq!(find_fundamental_frequency(&data, RATE), Some(1_470_000));
    let data = flat_with(100, &[(30, 850_000_000), (60, 950_000_000)]);
    assert_eq!(find_fundamental_frequency(&data, RATE), Some(735_000));
    let data = flat_with(100, &[(30, 950_000_000), (60, 850_000_000)]);
    assert_eq!(find_fundamental_frequency(&data, RATE), Some(1_470_000));
}

#[test]
fn search_stays_inside_the_band() {
    // 44100 Hz: lags 22 to 2205, clipped to len - 3
    let data = flat_with(100, &[(21, 900_000_000)]);
    assert_eq!(find_fundamental_frequency(&data, RATE), None);
    let data = flat_with(100, &[(22, 900_000_000)]);
    assert_eq!(find_fundamental_frequency(&data, RATE), Some(2_004_545));
    let data = flat_with(100, &[(97, 900_000_000)]);
    assert_eq!(find_fundamental_frequency(&data, RATE), Some(454_639));
    let data = flat_with(100, &[(98, 900_000_000)]);
    assert_eq!(find_fundamental_frequency(&data, RATE), None);
    // a long vector: the band ends at the period of 20 Hz
    let data = flat_with(3000, &[(2205, 900_000_000)]);
    assert_eq!(find_fundamental_frequency(&data, RATE), Some(20_000));
    let data = flat_with(3000, &[(2206, 900_000_000)]);
    assert_eq!(find_fundamental_frequency(&data, RATE), None);
}

#[test]
fn search_is_safe_on_short_vectors_and_low_rates() {
    assert_eq!(find_fundamental_frequency(&[], RATE), None);
    assert_eq!(find_fundamental_frequency(&[UNIT], RATE), None);
    assert_eq!(find_fundamental_frequency(&[0, UNIT], RATE), None);
    assert_eq!(find_fundamental_frequency(&[0, UNIT, 0], RATE), None);
    // below 2 kHz the shortest lag would be zero: lag zero is never a peak
    let data = [0, 900_000_000, 0, 0, 0];
    assert_eq!(find_fundamental_frequency(&data, 1_000_000), Some(1_000_000));
    assert_eq!(find_fundamental_frequency(&data, 20_000), Some(20_000));
    assert_eq!(find_fundamental_frequency(&data, 19_999), None);
    assert_eq!(find_fundamental_frequency(&data, 0), None);
    let data = [UNIT, 0, 0, 0, 0];
    assert_eq!(find_fundamental_frequency(&data, 1_000_000), None);
}

#[test]
fn search_leaves_a_flat_peak_unrefined() {
    let data = [899_999_000, 900_000_000, 899_999_500, 0, 0, 0];
    assert_eq!(find_fundamental_frequency(&data, 1_000_000), Some(1_000_000));
}

#[test]
fn window_keeps_the_four_latest_values() {
    let mut window: Vec<u64> = Vec::new();
    update_moving_average(&mut window, 10);
    assert_eq!(window, vec![10]);
    update_moving_average(&mut window, 20);
    update_moving_average(&mut window, 30);
    update_moving_average(&mut window, 40);
    assert_eq!(window, vec![10, 20, 30, 40]);
    update_moving_average(&mut window, 50);
    assert_eq!(window, vec![20, 30, 40, 50]);
    update_moving_average(&mut window, 5);
    assert_eq!(window, vec![30, 40, 50, 5]);
}

#[test]
fn median_of_an_even_window_is_the_upper_central_value() {
    assert_eq!(get_median_frequency(&[]), NO_PITCH);
    assert_eq!(get_median_frequency(&[7]), 7);
    assert_eq!(get_median_frequency(&[7, 3]), 7);
    assert_eq!(get_median_frequency(&[3, 7]), 7);
    assert_eq!(get_median_frequency(&[9, 1, 5]), 5);
    assert_eq!(get_median_frequency(&[4, 1, 3, 2]), 3);
    assert_eq!(get_median_frequency(&[100, 400, 200, 300]), 300);
    assert_eq!(get_median_frequency(&[5, 5, 5, 5]), 5);
    assert_eq!(get_median_frequency(&[1, 2, 2, 9]), 2);
}

#[test]
fn sorted_copy_is_ascending_and_keeps_duplicates() {
    assert_eq!(sorted_copy(&[]), Vec::<u64>::new());
    assert_eq!(sorted_copy(&[3, 1, 2]), vec![1, 2, 3]);
    assert_eq!(sorted_copy(&[2, 2, 1, 2, 0, u64::MAX, 0]), vec![0, 0, 1, 2, 2, 2, u64::MAX]);
    let source = [9u64, 8, 7, 6];
    let sorted = sorted_copy(&source);
    assert_eq!(sorted, vec![6, 7, 8, 9]);
    assert_eq!(source, [9, 8, 7, 6]);
}
