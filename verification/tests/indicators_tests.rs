use ta_indicators::bollinger_bands::{bollinger_bands, calculate_std, compute_bollinger_bands};
use ta_indicators::directional_movement_index::{
    directional_index_of, directional_movement, directional_movement_index, true_range,
};
use ta_indicators::error::IndicatorError;
use ta_indicators::moving_average_convergence_divergence::{
    macd_lines, MovingAverageConvergenceDivergence,
};
use ta_indicators::relative_strength_index::{
    gains_and_losses, relative_strength_index, strength_index,
};
use ta_indicators::stochastic_momentum_index::stochastic_momentum_index;
use ta_indicators::stochastic_oscillator::{position_of, stochastic_oscillator};
use ta_indicators::trends_meter::{trends_meter, vote_of};

fn prices() -> Vec<i32> {
    vec![5000, 5300, 5100, 4800, 5200, 5700, 5500, 5400, 5800, 5300, 4900, 5100, 5600, 6000, 5900, 6100]
}

fn highs() -> Vec<i32> {
    vec![1200, 1400, 1300, 1600, 1800, 1700, 2000, 1900, 2200, 2400, 2300, 2600, 2500, 2100, 1900, 2200]
}

fn lows() -> Vec<i32> {
    vec![900, 1000, 1100, 1200, 1400, 1500, 1600, 1600, 1800, 2000, 2100, 2200, 2000, 1700, 1500, 1800]
}

fn closes() -> Vec<i32> {
    vec![1000, 1300, 1200, 1500, 1700, 1600, 1900, 1700, 2100, 2300, 2200, 2500, 2100, 1800, 1800, 2100]
}

#[test]
fn bollinger_bands_are_symmetric_around_the_mean() {
    for period in 1..=prices().len() {
        for multiplier in [1u32, 5_000, 20_000, 33_333, u32::MAX] {
            let bands = compute_bollinger_bands(&prices(), period, multiplier);
            assert_eq!(bands.middle.len(), prices().len() - period + 1);
            assert_eq!(bands.upper.len(), bands.middle.len());
            assert_eq!(bands.lower.len(), bands.middle.len());
            for k in 0..bands.middle.len() {
                assert_eq!(bands.upper[k] - bands.middle[k], bands.middle[k] - bands.lower[k]);
                assert!(bands.upper[k] >= bands.middle[k]);
            }
        }
    }
}

#[test]
fn bollinger_bands_use_the_population_deviation() {
    let data: Vec<i32> = vec![10, 12, 14, 16, 18, 20];
    let bands = compute_bollinger_bands(&data, 3, 20_000);
    assert_eq!(bands.middle, vec![12, 14, 16, 18]);
    assert_eq!(bands.upper, vec![15, 17, 19, 21]);
    assert_eq!(bands.lower, vec![9, 11, 13, 15]);
    let units: Vec<i32> = vec![100, 200, 300, 400, 500];
    let bands = compute_bollinger_bands(&units, 3, 20_000);
    assert_eq!(bands.middle, vec![200, 300, 400]);
    assert_eq!(bands.upper, vec![363, 463, 563]);
    assert_eq!(bands.lower, vec![37, 137, 237]);
    let bands = bollinger_bands(&prices(), Some(4), Some(20_000)).unwrap();
    assert_eq!(bands.middle, vec![5050, 5100, 5200, 5300, 5450, 5600, 5500, 5350, 5275, 5225, 5400, 5650, 5900]);
    assert_eq!(bands.upper, vec![5410, 5474, 5848, 5978, 5810, 5916, 5874, 5990, 5943, 5742, 6260, 6350, 6274]);
    assert_eq!(bands.lower, vec![4690, 4726, 4552, 4622, 5090, 5284, 5126, 4710, 4607, 4708, 4540, 4950, 5526]);
    let bands = bollinger_bands(&prices(), Some(5), Some(15_000)).unwrap();
    assert_eq!(bands.middle, vec![5080, 5220, 5260, 5320, 5520, 5540, 5380, 5300, 5340, 5380, 5500, 5740]);
    assert_eq!(bands.upper, vec![5338, 5658, 5730, 5778, 5840, 5818, 5818, 5754, 5829, 5960, 6150, 6281]);
    assert_eq!(bands.lower, vec![4822, 4782, 4790, 4862, 5200, 5262, 4942, 4846, 4851, 4800, 4850, 5199]);
}

#[test]
fn standard_deviation_in_fine_units() {
    assert_eq!(calculate_std(600, 140_000, 3), 816_496);
    assert_eq!(calculate_std(0, 0, 1), 0);
    assert_eq!(calculate_std(-21, 147, 3), 0);
    assert_eq!(calculate_std(1, 1, 2), 5_000);
    assert_eq!(calculate_std(-1, 1, 2), 5_000);
    assert_eq!(calculate_std(0, 2, 2), 10_000);
    let low = i32::MIN as i128;
    let high = i32::MAX as i128;
    assert_eq!(calculate_std(low + high, low * low + high * high, 2), 21_474_836_475_000);
}

#[test]
fn bollinger_bands_of_a_constant_series_coincide() {
    let data: Vec<i32> = vec![-700; 8];
    let bands = compute_bollinger_bands(&data, 3, 20_000);
    assert_eq!(bands.middle, vec![-700; 6]);
    assert_eq!(bands.upper, vec![-700; 6]);
    assert_eq!(bands.lower, vec![-700; 6]);
    let wide: Vec<i32> = vec![i32::MIN, i32::MAX, i32::MIN, i32::MAX];
    let bands = compute_bollinger_bands(&wide, 2, 10_000);
    assert_eq!(bands.middle, vec![-1, -1, -1]);
    assert_eq!(bands.upper, vec![(1 << 31) - 2, (1 << 31) - 2, (1 << 31) - 2]);
}

#[test]
fn bollinger_bands_take_their_defaults() {
    let data: Vec<i32> = (0..25).map(|i| 100 + (i * 7) % 13).collect();
    let by_default = bollinger_bands(&data, None, None).unwrap();
    let spelled = bollinger_bands(&data, Some(20), Some(20_000)).unwrap();
    assert_eq!(by_default.middle, spelled.middle);
    assert_eq!(by_default.upper, spelled.upper);
    assert_eq!(by_default.lower, spelled.lower);
    assert_eq!(by_default.middle.len(), 6);
}

#[test]
fn bollinger_bands_rejections() {
    let data: Vec<i32> = vec![1, 2, 3];
    let empty: Vec<i32> = vec![];
    assert_eq!(bollinger_bands(&data, Some(0), Some(0)).err(), Some(IndicatorError::InvalidPeriod));
    assert_eq!(bollinger_bands(&data, Some(2), Some(0)).err(), Some(IndicatorError::InvalidParameter));
    assert_eq!(bollinger_bands(&empty, Some(2), Some(0)).err(), Some(IndicatorError::InvalidParameter));
    assert_eq!(bollinger_bands(&empty, Some(2), None).err(), Some(IndicatorError::EmptyInput));
    assert_eq!(bollinger_bands(&data, Some(4), None).err(), Some(IndicatorError::InvalidPeriod));
    assert_eq!(bollinger_bands(&data, None, None).err(), Some(IndicatorError::InvalidPeriod));
    assert!(bollinger_bands(&data, Some(3), Some(1)).is_ok());
}

#[test]
fn rsi_stays_between_nothing_and_one() {
    for period in 1..prices().len() {
        let out = relative_strength_index(&prices(), period).unwrap();
        assert_eq!(out.len(), prices().len() - period);
        for v in out {
            assert!(0 <= v && v <= 10_000);
        }
    }
}

#[test]
fn rsi_is_one_exactly_without_losses() {
    let rising: Vec<i32> = vec![1, 2, 3, 4, 5, 6];
    assert_eq!(relative_strength_index(&rising, 2), Ok(vec![10_000; 4]));
    let falling: Vec<i32> = vec![6, 5, 4, 3, 2, 1];
    assert_eq!(relative_strength_index(&falling, 2), Ok(vec![0; 4]));
    let flat: Vec<i32> = vec![4, 4, 4, 4];
    assert_eq!(relative_strength_index(&flat, 2), Ok(vec![10_000; 2]));
    let one_small_loss: Vec<i32> = vec![3, 3, 3, 2];
    assert_eq!(relative_strength_index(&one_small_loss, 3), Ok(vec![0]));
    let mut long_ago: Vec<i32> = vec![1_000, 999];
    long_ago.extend((0..400).map(|i| 1_000 + i));
    let out = relative_strength_index(&long_ago, 3).unwrap();
    for v in &out {
        assert!(*v < 10_000);
    }
    assert_eq!(out[out.len() - 1], 9_998);
    let last_move_only = relative_strength_index(&long_ago, 1).unwrap();
    assert_eq!(last_move_only[0], 0);
    assert_eq!(last_move_only[1], 10_000);
    assert_eq!(strength_index(0, 0), 10_000);
    assert_eq!(strength_index(5, 0), 10_000);
    assert_eq!(strength_index(0, 5), 0);
    assert_eq!(strength_index(1_000_000, 1), 9_999);
    assert_eq!(strength_index(1 << 32, 1 << 32), 5_000);
    assert_eq!(strength_index(1, 2), 3_333);
}

#[test]
fn rsi_follows_wilders_averages() {
    assert_eq!(relative_strength_index(&prices(), 3), Ok(vec![3749, 6428, 8019, 6328, 5463, 7506, 4069, 2626, 4175, 6742, 7869, 6965, 7742]));
    assert_eq!(relative_strength_index(&prices(), 5), Ok(vec![7058, 6153, 5697, 6861, 4822, 3717, 4504, 6050, 6917, 6473, 6961]));
}

#[test]
fn rsi_edge_cases() {
    let data: Vec<i32> = vec![1, 2, 3];
    let empty: Vec<i32> = vec![];
    assert_eq!(relative_strength_index(&data, 0), Err(IndicatorError::InvalidPeriod));
    assert_eq!(relative_strength_index(&empty, 0), Err(IndicatorError::InvalidPeriod));
    assert_eq!(relative_strength_index(&data, 3), Ok(vec![]));
    assert_eq!(relative_strength_index(&data, 9), Ok(vec![]));
    assert_eq!(relative_strength_index(&empty, 1), Ok(vec![]));
    assert_eq!(relative_strength_index(&data, 2), Ok(vec![10_000]));
    let wide: Vec<i64> = vec![i32::MIN as i64, i32::MAX as i64, 0];
    assert_eq!(
        gains_and_losses(&wide),
        (vec![10_000 * ((1 << 32) - 1), 0], vec![0, -10_000 * ((1 << 31) - 1)])
    );
}

#[test]
fn macd_lines_on_a_short_series() {
    let lines = macd_lines(&prices(), 3, 6, 4).unwrap();
    assert_eq!(lines.macd_line, vec![None, None, None, None, None, Some(2083333), Some(1720238), Some(1130527), Some(1615556), Some(486558), Some(-843307), Some(-769215), Some(438564), Some(1664404), Some(1650147), Some(1837891)]);
    assert_eq!(lines.signal_line, vec![None, None, None, None, None, None, None, None, Some(1637413), Some(1177071), Some(368919), Some(-86335), Some(123624), Some(739936), Some(1104020), Some(1397568)]);
    assert_eq!(lines.histogram, vec![None, None, None, None, None, None, None, None, Some(-21857), Some(-690513), Some(-1212226), Some(-682880), Some(314940), Some(924468), Some(546127), Some(440323)]);
    for i in 0..prices().len() {
        match (lines.macd_line[i], lines.signal_line[i], lines.histogram[i]) {
            (Some(m), Some(s), Some(h)) => assert_eq!(h, m - s),
            (_, None, None) => {}
            other => panic!("lines out of step at {}: {:?}", i, other),
        }
    }
}

#[test]
fn macd_through_the_indicator_object() {
    let mut indicator = MovingAverageConvergenceDivergence::new(prices());
    let first = indicator.period(3, 6, 4).unwrap();
    let again = indicator.period(3, 6, 4).unwrap();
    let direct = macd_lines(&prices(), 3, 6, 4).unwrap();
    assert_eq!(first.macd_line, direct.macd_line);
    assert_eq!(first.signal_line, direct.signal_line);
    assert_eq!(first.histogram, direct.histogram);
    assert_eq!(again.histogram, direct.histogram);
    let swapped = indicator.period(6, 3, 4).unwrap();
    for i in 0..prices().len() {
        assert_eq!(swapped.macd_line[i], direct.macd_line[i].map(|v| -v));
    }
}

#[test]
fn macd_with_equal_periods_is_flat() {
    let lines = macd_lines(&prices(), 4, 4, 1).unwrap();
    for i in 0..prices().len() {
        let expected = if i < 3 { None } else { Some(0) };
        assert_eq!(lines.macd_line[i], expected);
        assert_eq!(lines.signal_line[i], expected);
        assert_eq!(lines.histogram[i], expected);
    }
}

#[test]
fn macd_rejections() {
    let data: Vec<i32> = vec![1, 2, 3, 4];
    assert_eq!(macd_lines(&data, 0, 2, 2).err(), Some(IndicatorError::InvalidPeriod));
    assert_eq!(macd_lines(&data, 2, 0, 2).err(), Some(IndicatorError::InvalidPeriod));
    assert_eq!(macd_lines(&data, 2, 3, 0).err(), Some(IndicatorError::InvalidPeriod));
    assert_eq!(macd_lines(&data, 5, 2, 2).err(), Some(IndicatorError::InvalidPeriod));
    assert_eq!(macd_lines(&data, 2, 5, 2).err(), Some(IndicatorError::InvalidPeriod));
    assert_eq!(macd_lines(&data, 2, 3, 5).err(), Some(IndicatorError::InvalidPeriod));
    let lines = macd_lines(&data, 2, 4, 4).unwrap();
    assert_eq!(lines.macd_line, vec![None, None, None, Some(10_000)]);
    assert_eq!(lines.signal_line, vec![None, None, None, None]);
    assert_eq!(lines.histogram, vec![None, None, None, None]);
}

#[test]
fn true_range_and_directional_movement() {
    let high: Vec<i32> = vec![10, 14, 11, 11];
    let low: Vec<i32> = vec![8, 9, 7, 10];
    let close: Vec<i32> = vec![9, 13, 20, 1];
    assert_eq!(true_range(&high, &low, &close, 1), 5);
    assert_eq!(true_range(&high, &low, &close, 2), 6);
    assert_eq!(true_range(&high, &low, &close, 3), 10);
    assert_eq!(directional_movement(&high, &low, 1), (4, 0));
    assert_eq!(directional_movement(&high, &low, 2), (0, 2));
    assert_eq!(directional_movement(&high, &low, 3), (0, 0));
    let equal_high: Vec<i32> = vec![10, 12];
    let equal_low: Vec<i32> = vec![8, 6];
    assert_eq!(directional_movement(&equal_high, &equal_low, 1), (0, 0));
    let limits_high: Vec<i32> = vec![i32::MIN, i32::MAX];
    let limits_low: Vec<i32> = vec![i32::MAX, i32::MIN];
    assert_eq!(directional_movement(&limits_high, &limits_low, 1), (0, 0));
    assert_eq!(true_range(&limits_high, &limits_low, &limits_low, 1), (1 << 32) - 1);
}

#[test]
fn directional_index_guards_against_empty_denominators() {
    assert_eq!(directional_index_of(5, 3, 0), 0);
    assert_eq!(directional_index_of(0, 0, 7), 0);
    assert_eq!(directional_index_of(5, 0, 10), 10_000);
    assert_eq!(directional_index_of(0, 5, 10), 10_000);
    assert_eq!(directional_index_of(5, 5, 10), 0);
    assert_eq!(directional_index_of(3, 1, 4), 5_000);
    assert_eq!(directional_index_of(1, 2, 3), 3_333);
}

#[test]
fn adx_follows_wilders_averages() {
    assert_eq!(directional_movement_index(&highs(), &lows(), &closes(), 3), Ok(vec![None, None, None, None, None, Some(10000), Some(10000), Some(10000), Some(10000), Some(10000), Some(10000), Some(10000), Some(7643), Some(6028), Some(5689), Some(4167)]));
    assert_eq!(directional_movement_index(&highs(), &lows(), &closes(), 5), Ok(vec![None, None, None, None, None, None, None, None, None, Some(10000), Some(10000), Some(10000), Some(9102), Some(7464), Some(6220), Some(5335)]));
    let level: Vec<i32> = vec![5, 5, 6, 7];
    assert_eq!(
        directional_movement_index(&level, &level, &level, 2),
        Ok(vec![None, None, None, Some(10_000)])
    );
    let out = directional_movement_index(&highs(), &lows(), &closes(), 1).unwrap();
    assert_eq!(out[0], None);
    for v in &out[1..] {
        let v = v.unwrap();
        assert!(0 <= v && v <= 10_000);
    }
}

#[test]
fn adx_rejections() {
    let two: Vec<i32> = vec![1, 2];
    let one: Vec<i32> = vec![1];
    let none: Vec<i32> = vec![];
    assert_eq!(directional_movement_index(&two, &one, &two, 0), Err(IndicatorError::InvalidPeriod));
    assert_eq!(directional_movement_index(&two, &one, &two, 1), Err(IndicatorError::MismatchedLengths));
    assert_eq!(directional_movement_index(&two, &two, &one, 1), Err(IndicatorError::MismatchedLengths));
    assert_eq!(directional_movement_index(&two, &two, &two, 3), Err(IndicatorError::InvalidPeriod));
    assert_eq!(directional_movement_index(&none, &none, &none, 1), Err(IndicatorError::InvalidPeriod));
    assert_eq!(directional_movement_index(&two, &two, &two, 2), Ok(vec![None, None]));
    assert_eq!(directional_movement_index(&one, &one, &one, 1), Ok(vec![None]));
}

#[test]
fn stochastic_lines() {
    let lines = stochastic_oscillator(&highs(), &lows(), &closes(), 3, 2).unwrap();
    assert_eq!(lines.percent_k, vec![None, None, Some(6000), Some(8333), Some(8571), Some(6666), Some(8333), Some(4000), Some(8333), Some(8750), Some(6666), Some(8333), Some(1666), Some(1111), Some(3000), Some(8571)]);
    assert_eq!(lines.percent_d, vec![None, None, None, Some(7166), Some(8452), Some(7618), Some(7499), Some(6166), Some(6166), Some(8541), Some(7708), Some(7499), Some(4999), Some(1388), Some(2055), Some(5785)]);
    let lines = stochastic_oscillator(&highs(), &lows(), &closes(), 1, 1).unwrap();
    assert_eq!(lines.percent_k, lines.percent_d);
}

#[test]
fn stochastic_position_in_a_range() {
    assert_eq!(position_of(15, 10, 20), 5_000);
    assert_eq!(position_of(10, 10, 20), 0);
    assert_eq!(position_of(20, 10, 20), 10_000);
    assert_eq!(position_of(25, 10, 20), 15_000);
    assert_eq!(position_of(5, 10, 20), -5_000);
    assert_eq!(position_of(15, 10, 10), 0);
    assert_eq!(position_of(15, 20, 10), 0);
    assert_eq!(position_of(11, 10, 13), 3_333);
    assert_eq!(position_of(9, 10, 13), -3_334);
}

#[test]
fn stochastic_of_a_flat_series_is_nothing() {
    let flat: Vec<i32> = vec![5, 5, 5, 5];
    let lines = stochastic_oscillator(&flat, &flat, &flat, 2, 2).unwrap();
    assert_eq!(lines.percent_k, vec![None, Some(0), Some(0), Some(0)]);
    assert_eq!(lines.percent_d, vec![None, None, Some(0), Some(0)]);
    let lines = stochastic_oscillator(&flat, &flat, &flat, 4, 3).unwrap();
    assert_eq!(lines.percent_k, vec![None, None, None, Some(0)]);
    assert_eq!(lines.percent_d, vec![None, None, None, None]);
}

#[test]
fn stochastic_rejections() {
    let two: Vec<i32> = vec![1, 2];
    let one: Vec<i32> = vec![1];
    let none: Vec<i32> = vec![];
    assert_eq!(stochastic_oscillator(&two, &one, &two, 0, 1).err(), Some(IndicatorError::InvalidPeriod));
    assert_eq!(stochastic_oscillator(&two, &two, &two, 1, 0).err(), Some(IndicatorError::InvalidPeriod));
    assert_eq!(
        stochastic_oscillator(&two, &one, &two, 1, 1).err(),
        Some(IndicatorError::MismatchedLengths)
    );
    assert_eq!(
        stochastic_oscillator(&two, &two, &none, 1, 1).err(),
        Some(IndicatorError::MismatchedLengths)
    );
    assert_eq!(stochastic_oscillator(&none, &none, &none, 1, 1).err(), Some(IndicatorError::EmptyInput));
    assert_eq!(stochastic_oscillator(&two, &two, &two, 3, 1).err(), Some(IndicatorError::InvalidPeriod));
}

#[test]
fn stochastic_momentum_index_values() {
    assert_eq!(
        stochastic_momentum_index(&highs(), &lows(), &closes(), Some(2), Some(2)),
        Ok(vec![None, None, None, Some(4285), Some(5664), Some(3711), Some(4526), Some(829), Some(3489), Some(5246), Some(3555), Some(4452), Some(-970), Some(-4936), Some(-3267), Some(1757)])
    );
    assert_eq!(
        stochastic_momentum_index(&highs(), &lows(), &closes(), Some(3), Some(4)),
        Ok(vec![None, None, None, None, None, None, None, Some(4468), Some(4477), Some(5254), Some(5104), Some(5358), Some(3113), Some(-419), Some(-2237), Some(-1008)])
    );
    assert_eq!(
        stochastic_momentum_index(&highs(), &lows(), &closes(), Some(1), Some(1)),
        Ok(vec![Some(-3334), Some(5000), Some(0), Some(5000), Some(5000), Some(0), Some(5000), Some(-3334), Some(5000), Some(5000), Some(0), Some(5000), Some(-6000), Some(-5000), Some(5000), Some(5000)])
    );
}

#[test]
fn stochastic_momentum_index_stays_within_one() {
    let high: Vec<i32> = vec![10, 10, 9];
    let low: Vec<i32> = vec![10, 9, 8];
    let close: Vec<i32> = vec![10, 9, 8];
    assert_eq!(
        stochastic_momentum_index(&high, &low, &close, Some(2), Some(1)),
        Ok(vec![None, None, Some(-10_000)])
    );
    for lookback in 1..6 {
        for smoothing in 1..5 {
            let out = stochastic_momentum_index(
                &highs(),
                &lows(),
                &closes(),
                Some(lookback),
                Some(smoothing),
            )
            .unwrap();
            for v in out.into_iter().flatten() {
                assert!(-10_000 <= v && v <= 10_000);
            }
        }
    }
}

#[test]
fn stochastic_momentum_index_edge_cases() {
    let short: Vec<i32> = vec![1, 2, 3];
    let one: Vec<i32> = vec![1];
    assert_eq!(
        stochastic_momentum_index(&short, &short, &short, None, None),
        Ok(vec![None, None, None])
    );
    assert_eq!(
        stochastic_momentum_index(&highs(), &lows(), &closes(), None, None),
        stochastic_momentum_index(&highs(), &lows(), &closes(), Some(14), Some(3))
    );
    assert_eq!(
        stochastic_momentum_index(&short, &short, &short, Some(0), None),
        Err(IndicatorError::InvalidPeriod)
    );
    assert_eq!(
        stochastic_momentum_index(&short, &short, &short, None, Some(0)),
        Err(IndicatorError::InvalidPeriod)
    );
    assert_eq!(
        stochastic_momentum_index(&short, &one, &short, None, None),
        Err(IndicatorError::MismatchedLengths)
    );
    assert_eq!(
        stochastic_momentum_index(&short, &short, &one, Some(9), None),
        Err(IndicatorError::MismatchedLengths)
    );
}

#[test]
fn trend_meter_on_a_rising_and_a_falling_series() {
    let rising: Vec<i32> = vec![1000, 1073, 1031, 1104, 1062, 1020, 1093, 1051, 1124, 1082, 1040, 1113, 1071, 1144, 1102, 1060, 1133, 1091, 1164, 1122, 1080, 1153, 1111, 1069, 1142, 1100, 1173, 1131, 1089, 1162, 1120, 1193, 1151, 1109, 1182, 1140, 1213, 1171, 1129, 1202, 1160, 1233, 1191, 1149, 1222];
    assert_eq!(trends_meter(&rising, Some(14)), Ok(vec![None, None, None, None, None, None, None, None, None, None, None, None, None, None, None, None, None, None, None, None, None, None, None, None, None, None, None, None, None, None, None, None, None, Some(-3287), Some(3692), Some(-3180), Some(3786), Some(3578), Some(-3290), Some(3689), Some(-3182), Some(3784), Some(3575), Some(-3292), Some(3687)]));
    assert_eq!(trends_meter(&rising, None), trends_meter(&rising, Some(14)));
    let falling: Vec<i32> = vec![2000, 1912, 1957, 1869, 1914, 1959, 1871, 1916, 1961, 1873, 1918, 1830, 1875, 1920, 1832, 1877, 1922, 1834, 1879, 1924, 1836, 1881, 1793, 1838, 1883, 1795, 1840, 1885, 1797, 1842, 1754, 1799, 1844, 1756, 1801, 1846, 1758, 1803, 1848, 1760, 1805, 1717, 1762, 1807, 1719];
    assert_eq!(trends_meter(&falling, Some(5)), Ok(vec![None, None, None, None, None, None, None, None, None, None, None, None, None, None, None, None, None, None, None, None, None, None, None, None, None, None, None, None, None, None, None, None, None, Some(-4051), Some(-3446), Some(3764), Some(-3949), Some(-20), Some(3845), Some(-563), Some(28), Some(-4214), Some(-3594), Some(298), Some(-4036)]));
    assert_eq!(trends_meter(&rising, Some(40)), Ok(vec![None, None, None, None, None, None, None, None, None, None, None, None, None, None, None, None, None, None, None, None, None, None, None, None, None, None, None, None, None, None, None, None, None, None, None, None, None, None, None, None, Some(244), Some(3680), Some(3610), Some(206), Some(3644)]));
    for v in trends_meter(&falling, Some(3)).unwrap().into_iter().flatten() {
        assert!(-10_000 <= v && v <= 10_000);
    }
}

#[test]
fn trend_meter_edge_cases() {
    let data: Vec<i32> = vec![1, 2, 3, 4];
    assert_eq!(trends_meter(&data, Some(0)), Err(IndicatorError::InvalidPeriod));
    assert_eq!(trends_meter(&data, Some(1)), Err(IndicatorError::InvalidPeriod));
    assert_eq!(trends_meter(&data, Some(5)), Err(IndicatorError::InvalidPeriod));
    assert_eq!(trends_meter(&data, None), Err(IndicatorError::InvalidPeriod));
    assert_eq!(trends_meter(&data, Some(2)), Ok(vec![None, None, None, None]));
    let steady: Vec<i32> = (0..40).map(|i| 10 * i).collect();
    let out = trends_meter(&steady, Some(2)).unwrap();
    assert_eq!(out[32], None);
    assert_eq!(out[33], Some(5000));
    assert_eq!(vote_of(3, 2), 5_000);
    assert_eq!(vote_of(2, 3), -5_000);
    assert_eq!(vote_of(2, 2), 0);
    assert_eq!(vote_of(i64::MIN, i64::MAX), -5_000);
}
