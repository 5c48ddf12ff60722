use ta_indicators::error::IndicatorError;
use ta_indicators::moving_average::{exponential_moving_average, simple_moving_average};
use ta_indicators::smoothing::{
    blend_step, calculate_ema, calculate_sma, double_ema, smooth, smooth_recursive, wilder_smooth,
};

#[test]
fn test_invalid_period_zero() {
    let data: Vec<i32> = vec![1, 2, 3];
    let result = simple_moving_average(&data, 0);
    assert_eq!(result, Err(IndicatorError::InvalidPeriod));
}

#[test]
fn test_empty_data() {
    let data: Vec<i32> = vec![];
    let result = simple_moving_average(&data, 2);
    assert_eq!(result, Err(IndicatorError::EmptyInput));
}

#[test]
fn test_data_length_less_than_period() {
    let data: Vec<i32> = vec![1, 2];
    let result = simple_moving_average(&data, 3);
    assert_eq!(result, Err(IndicatorError::InvalidPeriod));
}

#[test]
fn test_valid_input() {
    let data: Vec<i32> = vec![1, 2, 3, 4, 5];
    let result = simple_moving_average(&data, 3).unwrap();
    assert_eq!(result.len(), 5);
    assert_eq!(result[0], None);
    assert_eq!(result[1], None);
    let defined: Vec<i64> = result.into_iter().flatten().collect();
    assert_eq!(defined, vec![2, 3, 4]);
}

#[test]
fn sma_is_the_mean_of_each_window() {
    let data: Vec<i64> = vec![4, 8, 15, 16, 23, 42, -7, 0, 9];
    for period in 1..=data.len() {
        let out = calculate_sma(&data, period).unwrap();
        assert_eq!(out.len(), data.len());
        for i in 0..data.len() {
            if i + 1 < period {
                assert_eq!(out[i], None);
            } else {
                let sum: i64 = data[i + 1 - period..=i].iter().sum();
                assert_eq!(out[i], Some(sum.div_euclid(period as i64)));
            }
        }
    }
}

#[test]
fn sma_rounds_towards_negative_infinity() {
    let data: Vec<i64> = vec![-1, -2, 4, 3];
    assert_eq!(calculate_sma(&data, 2).unwrap(), vec![None, Some(-2), Some(1), Some(3)]);
}

#[test]
fn sma_of_extreme_samples_does_not_overflow() {
    let data: Vec<i64> = vec![i64::MAX, i64::MAX, i64::MIN, i64::MIN];
    assert_eq!(
        calculate_sma(&data, 2).unwrap(),
        vec![None, Some(i64::MAX), Some(-1), Some(i64::MIN)]
    );
}

#[test]
fn calculate_sma_rejections() {
    let data: Vec<i64> = vec![1, 2, 3];
    let empty: Vec<i64> = vec![];
    assert_eq!(calculate_sma(&data, 0), Err(IndicatorError::InvalidPeriod));
    assert_eq!(calculate_sma(&empty, 0), Err(IndicatorError::InvalidPeriod));
    assert_eq!(calculate_sma(&empty, 1), Err(IndicatorError::EmptyInput));
    assert_eq!(calculate_sma(&data, 4), Err(IndicatorError::InvalidPeriod));
    assert_eq!(calculate_sma(&data, 3), Ok(vec![None, None, Some(2)]));
}

#[test]
fn smooth_is_undefined_on_a_short_series() {
    let data: Vec<i64> = vec![5, 7];
    assert_eq!(smooth(&data, 3), vec![None, None]);
    assert_eq!(smooth(&data, 2), vec![None, Some(6)]);
    assert_eq!(smooth(&data, 1), vec![Some(5), Some(7)]);
}

#[test]
fn ema_with_period_one_is_the_identity() {
    let data: Vec<i64> = vec![3, -9, 27, 0, i64::MAX, i64::MIN, 81];
    let expected: Vec<Option<i64>> = data.iter().map(|x| Some(*x)).collect();
    assert_eq!(calculate_ema(&data, 1), expected);
    let prices: Vec<i32> = vec![7, 7, -3, 12];
    assert_eq!(
        exponential_moving_average(&prices, 1).unwrap(),
        vec![Some(7), Some(7), Some(-3), Some(12)]
    );
}

#[test]
fn ema_is_seeded_with_the_mean_of_the_first_window() {
    let data: Vec<i64> = vec![100, 102, 101, 105, 107, 106, 110, 108, 111, 115, 113, 117];
    assert_eq!(calculate_ema(&data, 3), vec![None, None, Some(101), Some(103), Some(105), Some(105), Some(107), Some(107), Some(109), Some(112), Some(112), Some(114)]);
}

#[test]
fn ema_of_a_short_series_is_undefined_everywhere() {
    let data: Vec<i64> = vec![1, 2, 3];
    assert_eq!(calculate_ema(&data, 4), vec![None, None, None]);
    let none: Vec<i64> = vec![];
    assert_eq!(calculate_ema(&none, 4), Vec::<Option<i64>>::new());
}

#[test]
fn ema_of_a_constant_series_is_constant() {
    let data: Vec<i64> = vec![-40; 9];
    let out = calculate_ema(&data, 4);
    for i in 0..9 {
        assert_eq!(out[i], if i < 3 { None } else { Some(-40) });
    }
}

#[test]
fn exponential_moving_average_rejections() {
    let empty: Vec<i32> = vec![];
    let data: Vec<i32> = vec![1, 2, 3];
    assert_eq!(exponential_moving_average(&empty, 3), Err(IndicatorError::EmptyInput));
    assert_eq!(exponential_moving_average(&empty, 0), Err(IndicatorError::EmptyInput));
    assert_eq!(exponential_moving_average(&data, 0), Err(IndicatorError::InvalidPeriod));
    assert_eq!(exponential_moving_average(&data, 5), Ok(vec![None, None, None]));
    assert_eq!(exponential_moving_average(&data, 2), Ok(vec![None, Some(1), Some(2)]));
}

#[test]
fn wilder_uses_the_factor_one_over_period() {
    let data: Vec<i64> = vec![100, 102, 101, 105, 107, 106, 110, 108, 111, 115, 113, 117];
    assert_eq!(wilder_smooth(&data, 3), vec![None, None, Some(101), Some(102), Some(103), Some(104), Some(106), Some(106), Some(107), Some(109), Some(110), Some(112)]);
}

#[test]
fn blend_step_is_a_weighted_mean_rounded_down() {
    assert_eq!(blend_step(2, 4, 105, 101), 103);
    assert_eq!(blend_step(1, 3, 10, 1), 4);
    assert_eq!(blend_step(1, 3, -10, -1), -4);
    assert_eq!(blend_step(1, 2, -3, 0), -2);
    assert_eq!(blend_step(5, 5, 9, 100), 9);
    assert_eq!(blend_step(0, 5, 9, 100), 100);
    assert_eq!(blend_step(2, 3, i64::MAX, i64::MAX), i64::MAX);
    assert_eq!(blend_step(2, 3, i64::MIN, i64::MIN), i64::MIN);
}

#[test]
fn smooth_recursive_agrees_with_its_two_named_forms() {
    let data: Vec<i64> = vec![50, 53, 51, 48, 52, 57, 55, 54, 58, 53, 49, 51];
    assert_eq!(smooth_recursive(&data, 4, 2, 5), calculate_ema(&data, 4));
    assert_eq!(smooth_recursive(&data, 4, 1, 4), wilder_smooth(&data, 4));
}

#[test]
fn double_ema_smooths_the_defined_part_again() {
    let data: Vec<i64> = vec![100, 102, 101, 105, 107, 106, 110, 108, 111, 115, 113, 117];
    assert_eq!(double_ema(&data, 2, 3), vec![None, None, None, Some(101), Some(103), Some(104), Some(106), Some(107), Some(108), Some(110), Some(111), Some(113)]);
    assert_eq!(double_ema(&data, 1, 1), data.iter().map(|x| Some(*x)).collect::<Vec<_>>());
    let short: Vec<i64> = vec![1, 2];
    assert_eq!(double_ema(&short, 3, 2), vec![None, None]);
    assert_eq!(double_ema(&short, 2, 2), vec![None, None]);
}
