use ta_indicators::error::IndicatorError;
use ta_indicators::series::{abs_diff, defined_part, undefined, widen};
use ta_indicators::window::{
    beats, highest_lowest, max_in_window, min_in_window, sliding_extreme, sliding_max, sliding_min,
    sliding_sum, sliding_sum_sq,
};

fn sample(seed: u64, len: usize, spread: i64) -> Vec<i64> {
    let mut state = seed;
    let mut out = Vec::with_capacity(len);
    for _ in 0..len {
        state = state.wrapping_mul(6364136223846793005).wrapping_add(1442695040888963407);
        out.push(((state >> 33) as i64) % spread - spread / 2);
    }
    out
}

#[test]
fn sliding_max_matches_the_scan_of_every_window() {
    for seed in 0..40u64 {
        let len = 1 + (seed as usize * 7) % 60;
        let spread = if seed % 3 == 0 { 4 } else { 1000 };
        let data = sample(seed, len, spread);
        for period in 1..=len {
            let out = sliding_max(&data, period).unwrap();
            assert_eq!(out.len(), len - period + 1);
            for k in 0..out.len() {
                assert_eq!(out[k], *data[k..k + period].iter().max().unwrap());
            }
        }
    }
}

#[test]
fn sliding_min_matches_the_scan_of_every_window() {
    for seed in 100..140u64 {
        let len = 1 + (seed as usize * 5) % 60;
        let spread = if seed % 3 == 0 { 4 } else { 1000 };
        let data = sample(seed, len, spread);
        for period in 1..=len {
            let out = sliding_min(&data, period).unwrap();
            assert_eq!(out.len(), len - period + 1);
            for k in 0..out.len() {
                assert_eq!(out[k], *data[k..k + period].iter().min().unwrap());
            }
        }
    }
}

#[test]
fn sliding_extremes_on_a_small_series() {
    let data: Vec<i64> = vec![1, 3, -1, -3, 5, 3, 6, 7];
    assert_eq!(sliding_max(&data, 3), Ok(vec![3, 3, 5, 5, 6, 7]));
    assert_eq!(sliding_min(&data, 3), Ok(vec![-1, -3, -3, -3, 3, 3]));
    assert_eq!(sliding_max(&data, 1), Ok(data.clone()));
    assert_eq!(sliding_min(&data, 8), Ok(vec![-3]));
    assert_eq!(sliding_extreme(&data, 2, true), vec![3, 3, -1, 5, 5, 6, 7]);
    assert_eq!(sliding_extreme(&data, 2, false), vec![1, -1, -3, -3, 3, 3, 6]);
}

#[test]
fn sliding_extremes_with_equal_samples() {
    let data: Vec<i64> = vec![2, 2, 2, 1, 2, 2];
    assert_eq!(sliding_max(&data, 2), Ok(vec![2, 2, 2, 2, 2]));
    assert_eq!(sliding_min(&data, 2), Ok(vec![2, 2, 1, 1, 2]));
    let limits: Vec<i64> = vec![i64::MIN, i64::MAX, i64::MIN];
    assert_eq!(sliding_max(&limits, 2), Ok(vec![i64::MAX, i64::MAX]));
    assert_eq!(sliding_min(&limits, 2), Ok(vec![i64::MIN, i64::MIN]));
}

#[test]
fn sliding_windows_reject_a_bad_period() {
    let data: Vec<i64> = vec![1, 2, 3];
    let empty: Vec<i64> = vec![];
    assert_eq!(sliding_max(&data, 0), Err(IndicatorError::InvalidPeriod));
    assert_eq!(sliding_max(&data, 4), Err(IndicatorError::InvalidPeriod));
    assert_eq!(sliding_min(&data, 0), Err(IndicatorError::InvalidPeriod));
    assert_eq!(sliding_min(&data, 4), Err(IndicatorError::InvalidPeriod));
    assert_eq!(sliding_min(&empty, 1), Err(IndicatorError::InvalidPeriod));
    assert_eq!(sliding_sum(&data, 0), Err(IndicatorError::InvalidPeriod));
    assert_eq!(sliding_sum(&data, 4), Err(IndicatorError::InvalidPeriod));
    assert_eq!(sliding_sum_sq(&data, 0), Err(IndicatorError::InvalidPeriod));
    assert_eq!(sliding_sum_sq(&data, 4), Err(IndicatorError::InvalidPeriod));
}

#[test]
fn sliding_sums_follow_the_window() {
    let data: Vec<i64> = vec![1, -2, 3, 4, -5, 6];
    assert_eq!(sliding_sum(&data, 1), Ok(vec![1, -2, 3, 4, -5, 6]));
    assert_eq!(sliding_sum(&data, 3), Ok(vec![2, 5, 2, 5]));
    assert_eq!(sliding_sum(&data, 6), Ok(vec![7]));
    assert_eq!(sliding_sum_sq(&data, 3), Ok(vec![14, 29, 50, 77]));
    assert_eq!(sliding_sum_sq(&data, 6), Ok(vec![91]));
    let wide: Vec<i64> = vec![i64::MAX, i64::MAX, i64::MIN];
    assert_eq!(
        sliding_sum(&wide, 2),
        Ok(vec![2 * (i64::MAX as i128), -1])
    );
    let prices: Vec<i64> = vec![i32::MIN as i64, i32::MAX as i64];
    assert_eq!(
        sliding_sum_sq(&prices, 2),
        Ok(vec![(1i128 << 62) + ((1i128 << 31) - 1) * ((1i128 << 31) - 1)])
    );
}

#[test]
fn windows_without_an_error_type() {
    let data: Vec<i64> = vec![4, 9, 2, 7];
    assert_eq!(max_in_window(&data, 2), vec![9, 9, 7]);
    assert_eq!(min_in_window(&data, 2), vec![4, 2, 2]);
    assert_eq!(max_in_window(&data, 5), Vec::<i64>::new());
    assert_eq!(min_in_window(&data, 5), Vec::<i64>::new());
    assert_eq!(highest_lowest(&data, 3, 3), (9, 2));
    assert_eq!(highest_lowest(&data, 1, 0), (4, 4));
    assert_eq!(highest_lowest(&data, 4, 3), (9, 2));
    assert_eq!(highest_lowest(&data, 2, 1), (9, 4));
}

#[test]
fn beats_decides_by_the_wanted_extreme() {
    assert!(beats(true, 3, 3));
    assert!(beats(true, 4, 3));
    assert!(!beats(true, 2, 3));
    assert!(beats(false, 3, 3));
    assert!(beats(false, 2, 3));
    assert!(!beats(false, 4, 3));
}

#[test]
fn series_helpers() {
    let prices: Vec<i32> = vec![i32::MIN, -1, 0, i32::MAX];
    assert_eq!(widen(&prices), vec![i32::MIN as i64, -1, 0, i32::MAX as i64]);
    assert_eq!(undefined(3), vec![None, None, None]);
    assert_eq!(undefined(0), Vec::<Option<i64>>::new());
    let series: Vec<Option<i64>> = vec![None, None, Some(5), Some(-6)];
    assert_eq!(defined_part(&series, 2), vec![5, -6]);
    assert_eq!(defined_part(&series, 4), Vec::<i64>::new());
    assert_eq!(defined_part(&series, 9), Vec::<i64>::new());
    let a: Vec<i64> = vec![5, -5, i64::MIN, 0];
    let b: Vec<i64> = vec![2, 5, i64::MAX];
    assert_eq!(abs_diff(&a, &b), vec![3, 10, u64::MAX]);
}
