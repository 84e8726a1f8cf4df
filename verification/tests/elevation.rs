use curvematch::matching::elevation::correlation::{
    calculate_correlation, gradient_profile_similarity, resample_gradients,
};
use curvematch::matching::elevation::dtw::elevation_profile_dtw;
use curvematch::matching::elevation::gradients::{
    calculate_gradient_linear_regression, calculate_rolling_gradients, grade_from_slope,
};
use curvematch::matching::elevation::{
    elevation_similarity, rolling_gradient_elevation_similarity, segmented_elevation_similarity,
};

const PROFILE_A: [i32; 6] = [10_000, 10_500, 11_000, 10_800, 10_500, 10_000];
const DISTANCES_A: [u32; 6] = [0, 87_570, 152_648, 217_724, 305_282, 416_477];
const PROFILE_B: [i32; 6] = [9_500, 9_800, 10_000, 9_900, 9_700, 9_500];
const DISTANCES_B: [u32; 6] = [0, 87_582, 175_158, 240_238, 327_808, 444_036];

#[test]
fn grade_is_slope_in_hundredths_of_a_percent() {
    assert_eq!(grade_from_slope(1, 20), 500);
    assert_eq!(grade_from_slope(-1, 20), -500);
    assert_eq!(grade_from_slope(1, 3), 3_333);
    assert_eq!(grade_from_slope(-1, 3), -3_333);
    assert_eq!(grade_from_slope(5, 0), 0);
    assert_eq!(grade_from_slope(40_000, 1), 32_767);
    assert_eq!(grade_from_slope(-40_000, 1), -32_767);
}

#[test]
fn regression_fits_a_line() {
    assert_eq!(calculate_gradient_linear_regression(&[(0, 0), (10_000, 500), (20_000, 1_000)]), 500);
    assert_eq!(calculate_gradient_linear_regression(&[(0, 0), (10_000, 500), (20_000, 400)]), 200);
}

#[test]
fn regression_of_degenerate_windows_is_zero() {
    assert_eq!(calculate_gradient_linear_regression(&[]), 0);
    assert_eq!(calculate_gradient_linear_regression(&[(0, 0)]), 0);
    assert_eq!(calculate_gradient_linear_regression(&[(5, 1), (5, 9)]), 0);
}

#[test]
fn regression_saturates() {
    assert_eq!(calculate_gradient_linear_regression(&[(0, 0), (1, 40_000)]), 32_767);
    assert_eq!(calculate_gradient_linear_regression(&[(0, 0), (1, -40_000)]), -32_767);
}

#[test]
fn rolling_gradients_over_windows() {
    assert_eq!(
        calculate_rolling_gradients(&PROFILE_A, &DISTANCES_A, 10_000),
        vec![0, 57, 76, -30, -34, -44]
    );
    assert_eq!(
        calculate_rolling_gradients(&PROFILE_A, &DISTANCES_A, 200_000),
        vec![57, 65, 23, -32, -34, -44]
    );
    assert_eq!(
        calculate_rolling_gradients(&PROFILE_B, &DISTANCES_B, 10_000),
        vec![0, 34, 22, -15, -22, -17]
    );
}

#[test]
fn rolling_gradients_fall_back_to_the_previous_sample() {
    assert_eq!(
        calculate_rolling_gradients(&PROFILE_A, &DISTANCES_A, 0),
        vec![0, 57, 76, -30, -34, -44]
    );
    assert_eq!(calculate_rolling_gradients(&[0, 100, 300], &[0, 1_000, 1_000], 0), vec![0, 0, 0]);
    assert_eq!(calculate_rolling_gradients(&[0, 100, 300], &[0, 1_000, 500], 0), vec![0, 1_000, 0]);
}

#[test]
fn rolling_gradients_of_mismatched_inputs_are_empty() {
    assert_eq!(calculate_rolling_gradients(&[], &[], 5), Vec::<i16>::new());
    assert_eq!(calculate_rolling_gradients(&PROFILE_A, &DISTANCES_A[..5], 100), Vec::<i16>::new());
    assert_eq!(calculate_rolling_gradients(&[], &DISTANCES_A, 100), Vec::<i16>::new());
}

#[test]
fn wide_window_gives_the_global_slope_everywhere() {
    let whole: Vec<(u32, i32)> =
        DISTANCES_A.iter().copied().zip(PROFILE_A.iter().copied()).collect();
    let global = calculate_gradient_linear_regression(&whole);
    assert_eq!(global, -2);
    assert_eq!(calculate_rolling_gradients(&PROFILE_A, &DISTANCES_A, 1_000_000), vec![global; 6]);
    assert_eq!(calculate_rolling_gradients(&PROFILE_A, &DISTANCES_A, u64::MAX), vec![global; 6]);
}

#[test]
fn resample_interpolates() {
    assert_eq!(resample_gradients(&[0, 100, 200], 5), vec![0, 50, 100, 150, 200]);
    assert_eq!(resample_gradients(&[10, 20, 40, 80], 2), vec![10, 80]);
    assert_eq!(resample_gradients(&[-100, 101], 4), vec![-100, -33, 34, 101]);
    assert_eq!(resample_gradients(&[7], 4), vec![7, 7, 7, 7]);
}

#[test]
fn resample_to_the_same_length_is_the_identity() {
    let series = vec![3, -7, 12, 12, 0, i16::MIN, i16::MAX];
    assert_eq!(resample_gradients(&series, series.len()), series);
    assert_eq!(resample_gradients(&[], 0), Vec::<i16>::new());
}

#[test]
fn resample_of_degenerate_inputs() {
    assert_eq!(resample_gradients(&[], 3), Vec::<i16>::new());
    assert_eq!(resample_gradients(&[5, 9], 1), vec![5]);
    assert_eq!(resample_gradients(&[0, 10], 0), Vec::<i16>::new());
}

#[test]
fn correlation_of_a_series_with_itself_is_one() {
    assert_eq!(calculate_correlation(&[1, 2, 3, 4], &[1, 2, 3, 4]), 1_000_000);
    assert_eq!(calculate_correlation(&[-30, 7, 7, 250], &[-30, 7, 7, 250]), 1_000_000);
    assert_eq!(calculate_correlation(&[i16::MIN, i16::MAX], &[i16::MIN, i16::MAX]), 1_000_000);
}

#[test]
fn correlation_with_the_reversal_of_a_monotonic_series() {
    assert_eq!(calculate_correlation(&[1, 2, 3, 4], &[4, 3, 2, 1]), -1_000_000);
    assert_eq!(calculate_correlation(&[1, 2, 4], &[4, 2, 1]), -928_571);
}

#[test]
fn correlation_values() {
    assert_eq!(calculate_correlation(&[1, 2, 3, 4], &[2, 1, 4, 3]), 600_000);
    assert_eq!(calculate_correlation(&[100, -200, 300, 50], &[10, 20, -30, 5]), -899_079);
}

#[test]
fn correlation_without_variance_is_zero() {
    assert_eq!(calculate_correlation(&[5, 5, 5], &[1, 2, 3]), 0);
    assert_eq!(calculate_correlation(&[1, 2, 3], &[5, 5, 5]), 0);
    assert_eq!(calculate_correlation(&[1, 2], &[1, 2, 3]), 0);
    assert_eq!(calculate_correlation(&[], &[]), 0);
}

#[test]
fn gradient_profile_similarity_values() {
    assert_eq!(gradient_profile_similarity(&[1, 2, 3, 4], &[1, 2, 3, 4]), 1_000_000);
    assert_eq!(gradient_profile_similarity(&[1, 2, 3, 4], &[4, 3, 2, 1]), 0);
    assert_eq!(gradient_profile_similarity(&[0, 100, 200], &[0, 50, 100, 150, 200]), 1_000_000);
    assert_eq!(gradient_profile_similarity(&[100, -200, 300, 50], &[10, 20, -30]), 391_946);
    assert_eq!(gradient_profile_similarity(&[5, 5, 5], &[1, 2, 3]), 500_000);
    assert_eq!(gradient_profile_similarity(&[1, 2, 3], &[]), 0);
    assert_eq!(gradient_profile_similarity(&[], &[1, 2, 3]), 0);
}

#[test]
fn rolling_gradient_similarity_values() {
    assert_eq!(
        rolling_gradient_elevation_similarity(
            &PROFILE_A,
            &PROFILE_B,
            &DISTANCES_A,
            &DISTANCES_B,
            10_000
        ),
        975_324
    );
    assert_eq!(
        rolling_gradient_elevation_similarity(
            &PROFILE_A,
            &PROFILE_A,
            &DISTANCES_A,
            &DISTANCES_A,
            10_000
        ),
        1_000_000
    );
    assert_eq!(
        rolling_gradient_elevation_similarity(&PROFILE_A, &[], &DISTANCES_A, &[], 10_000),
        0
    );
}

#[test]
fn segmented_similarity_takes_kilometres() {
    assert_eq!(
        segmented_elevation_similarity(&PROFILE_A, &PROFILE_B, &DISTANCES_A, &DISTANCES_B, 2),
        990_022
    );
    assert_eq!(
        segmented_elevation_similarity(&PROFILE_A, &PROFILE_B, &DISTANCES_A, &DISTANCES_B, 2),
        rolling_gradient_elevation_similarity(
            &PROFILE_A,
            &PROFILE_B,
            &DISTANCES_A,
            &DISTANCES_B,
            200_000
        )
    );
}

#[test]
fn dtw_similarity_values() {
    assert_eq!(elevation_profile_dtw(&PROFILE_A, &PROFILE_A, 50), 1_000_000);
    assert_eq!(elevation_profile_dtw(&PROFILE_A, &PROFILE_B, 50), 731_707);
    assert_eq!(elevation_profile_dtw(&PROFILE_A, &PROFILE_B, 0), 731_707);
    assert_eq!(elevation_profile_dtw(&[100], &[400], 0), 869_565);
    assert_eq!(elevation_profile_dtw(&[0, 500, 1_000], &[0, 1_000], 1), 909_090);
}

#[test]
fn dtw_band_too_narrow_gives_zero() {
    assert_eq!(elevation_profile_dtw(&[0, 1_000], &[0, 1_000, 2_000, 3_000], 1), 0);
    assert_eq!(elevation_profile_dtw(&[0, 1_000], &[0, 1_000, 2_000, 3_000], 2), 666_666);
    assert_eq!(elevation_profile_dtw(&[0, 1_000], &[0, 1_000, 2_000, 3_000], usize::MAX), 666_666);
}

#[test]
fn dtw_of_empty_profiles_is_zero() {
    assert_eq!(elevation_profile_dtw(&[], &[1], 3), 0);
    assert_eq!(elevation_profile_dtw(&[1], &[], 3), 0);
}

#[test]
fn elevation_similarity_is_dtw_over_fifty_samples() {
    assert_eq!(elevation_similarity(&PROFILE_A, &PROFILE_B, 20), 731_707);
    assert_eq!(
        elevation_similarity(&PROFILE_A, &PROFILE_B, 0),
        elevation_profile_dtw(&PROFILE_A, &PROFILE_B, 50)
    );
}
