use ta_indicators::error::IndicatorError;
use ta_indicators::kagi::{kagi_advance, kagi_chart, Direction, KagiState};
use ta_indicators::parabolic_sar::{
    apply_boundaries, compute_new_sar, parabolic_sar, sar_advance, update_ep_and_af, SarState,
};
use ta_indicators::renko::{compute_brick_count, renko_advance, renko_chart, RenkoState, Trend};

#[test]
fn kagi_flips_on_each_reversal() {
    let prices: Vec<i32> = vec![100, 103, 99, 105];
    let chart = kagi_chart(&prices, 3).unwrap();
    assert_eq!(chart.prices, vec![103, 99, 105]);
    assert_eq!(chart.directions, vec![Direction::Yang, Direction::Yin, Direction::Yang]);
}

#[test]
fn kagi_ignores_moves_smaller_than_the_reversal() {
    let prices: Vec<i32> = vec![100, 103, 101, 102, 104, 102];
    let chart = kagi_chart(&prices, 3).unwrap();
    assert_eq!(chart.prices, vec![104]);
    assert_eq!(chart.directions, vec![Direction::Yang]);
    let falling: Vec<i32> = vec![100, 97, 98, 95, 96, 90];
    let chart = kagi_chart(&falling, 3).unwrap();
    assert_eq!(chart.prices, vec![100, 90]);
    assert_eq!(chart.directions, vec![Direction::Yang, Direction::Yin]);
}

#[test]
fn kagi_of_one_price_is_one_rising_line() {
    let prices: Vec<i32> = vec![42];
    let chart = kagi_chart(&prices, 1).unwrap();
    assert_eq!(chart.prices, vec![42]);
    assert_eq!(chart.directions, vec![Direction::Yang]);
}

#[test]
fn kagi_at_the_limits_of_a_price() {
    let prices: Vec<i32> = vec![i32::MAX, i32::MIN, i32::MAX];
    let chart = kagi_chart(&prices, i64::MAX).unwrap();
    assert_eq!(chart.prices, vec![i32::MAX]);
    let chart = kagi_chart(&prices, (1 << 32) - 1).unwrap();
    assert_eq!(chart.prices, vec![i32::MAX, i32::MIN, i32::MAX]);
}

#[test]
fn kagi_rejections() {
    let prices: Vec<i32> = vec![100, 103];
    let empty: Vec<i32> = vec![];
    assert_eq!(kagi_chart(&prices, 0).err(), Some(IndicatorError::InvalidParameter));
    assert_eq!(kagi_chart(&prices, -3).err(), Some(IndicatorError::InvalidParameter));
    assert_eq!(kagi_chart(&empty, 0).err(), Some(IndicatorError::InvalidParameter));
    assert_eq!(kagi_chart(&empty, 3).err(), Some(IndicatorError::EmptyInput));
}

#[test]
fn kagi_advance_is_one_step_of_the_walk() {
    let yang = KagiState { direction: Direction::Yang, reference: 100 };
    let (next, line) = kagi_advance(yang, 105, 3);
    assert_eq!(next, KagiState { direction: Direction::Yang, reference: 105 });
    assert_eq!(line, None);
    let (next, line) = kagi_advance(yang, 98, 3);
    assert_eq!(next, yang);
    assert_eq!(line, None);
    let (next, line) = kagi_advance(yang, 97, 3);
    assert_eq!(next, KagiState { direction: Direction::Yin, reference: 97 });
    assert_eq!(line, Some(yang));
    let yin = KagiState { direction: Direction::Yin, reference: 97 };
    let (next, line) = kagi_advance(yin, 99, 3);
    assert_eq!(next, yin);
    assert_eq!(line, None);
    let (next, line) = kagi_advance(yin, 90, 3);
    assert_eq!(next, KagiState { direction: Direction::Yin, reference: 90 });
    assert_eq!(line, None);
    let (next, line) = kagi_advance(yin, 100, 3);
    assert_eq!(next, KagiState { direction: Direction::Yang, reference: 100 });
    assert_eq!(line, Some(yin));
}

#[test]
fn renko_steps_by_whole_bricks() {
    let prices: Vec<i32> = vec![0, 25, 25, -10];
    assert_eq!(renko_chart(&prices, 10), Ok(vec![0, 10, 20, 10, 0, -10]));
    let whole: Vec<i32> = vec![0, 2, 2, -1];
    assert_eq!(renko_chart(&whole, 1), Ok(vec![0, 1, 2, 1, 0, -1]));
}

#[test]
fn renko_reverses_at_the_same_threshold() {
    let prices: Vec<i32> = vec![100, 109, 110, 119, 101, 100, 95, 90];
    assert_eq!(renko_chart(&prices, 10), Ok(vec![100, 110, 100, 90]));
    let one: Vec<i32> = vec![7];
    assert_eq!(renko_chart(&one, 10), Ok(vec![7]));
    let far: Vec<i32> = vec![i32::MIN, i32::MAX];
    assert_eq!(
        renko_chart(&far, 1 << 31),
        Ok(vec![i32::MIN as i64, 0])
    );
    assert_eq!(renko_chart(&far, i64::MAX), Ok(vec![i32::MIN as i64]));
}

#[test]
fn renko_rejections() {
    let prices: Vec<i32> = vec![1, 2];
    let empty: Vec<i32> = vec![];
    assert_eq!(renko_chart(&prices, 0), Err(IndicatorError::InvalidParameter));
    assert_eq!(renko_chart(&prices, -1), Err(IndicatorError::InvalidParameter));
    assert_eq!(renko_chart(&empty, -1), Err(IndicatorError::InvalidParameter));
    assert_eq!(renko_chart(&empty, 1), Err(IndicatorError::EmptyInput));
}

#[test]
fn brick_count_is_a_floor() {
    assert_eq!(compute_brick_count(25, 10), 2);
    assert_eq!(compute_brick_count(-25, 10), 2);
    assert_eq!(compute_brick_count(-35, 10), 3);
    assert_eq!(compute_brick_count(9, 10), 0);
    assert_eq!(compute_brick_count(10, 10), 1);
    assert_eq!(compute_brick_count(0, 1), 0);
    assert_eq!(compute_brick_count(i64::MAX, 1), i64::MAX as u64);
}

#[test]
fn sar_on_a_rising_series_never_reverses() {
    let highs: Vec<i32> = vec![1000, 1200, 1400, 1600, 1800, 2000, 2200, 2400, 2600, 2800, 3000, 3200];
    let lows: Vec<i32> = vec![800, 1000, 1200, 1400, 1600, 1800, 2000, 2200, 2400, 2600, 2800, 3000];
    let closes: Vec<i32> = vec![900, 1100, 1300, 1500, 1700, 1900, 2100, 2300, 2500, 2700, 2900, 3100];
    let out = parabolic_sar(&highs, &lows, &closes, Some(200), Some(200), Some(2000)).unwrap();
    assert_eq!(out, vec![900, 800, 800, 836, 897, 987, 1108, 1260, 1442, 1650, 1880, 2104]);
    for i in 1..out.len() {
        assert!(out[i] <= lows[i] as i64);
    }
    let mut st = SarState {
        sar: closes[0] as i64,
        is_uptrend: true,
        extreme_point: highs[0] as i64,
        acceleration_factor: 200,
    };
    for i in 1..highs.len() {
        st = sar_advance(st, &highs, &lows, i, 200, 200, 2000);
        assert!(st.is_uptrend);
        assert_eq!(st.extreme_point, highs[i] as i64);
        assert_eq!(st.acceleration_factor as usize, (200 + 200 * i).min(2000));
        assert_eq!(st.sar, out[i]);
    }
}

#[test]
fn sar_reverses_when_a_bar_crosses_the_stop() {
    let highs: Vec<i32> = vec![1000, 1100, 1200, 1150, 1050, 950, 900, 1000, 1150, 1250];
    let lows: Vec<i32> = vec![900, 1000, 1100, 1000, 900, 800, 780, 850, 1000, 1100];
    let closes: Vec<i32> = vec![950, 1050, 1150, 1050, 950, 850, 800, 950, 1100, 1200];
    assert_eq!(parabolic_sar(&highs, &lows, &closes, None, None, None), Ok(vec![950, 900, 900, 918, 1200, 1194, 1178, 1154, 780, 787]));
    assert_eq!(
        parabolic_sar(&highs, &lows, &closes, Some(500), Some(1000), Some(1200)),
        Ok(vec![950, 900, 900, 936, 1200, 1185, 1138, 1095, 780, 798])
    );
}

#[test]
fn sar_rejections() {
    let two: Vec<i32> = vec![10, 11];
    let one: Vec<i32> = vec![10];
    let none: Vec<i32> = vec![];
    assert_eq!(
        parabolic_sar(&two, &two, &two, Some(0), None, None),
        Err(IndicatorError::InvalidParameter)
    );
    assert_eq!(
        parabolic_sar(&two, &two, &two, Some(300), None, Some(200)),
        Err(IndicatorError::InvalidParameter)
    );
    assert_eq!(parabolic_sar(&two, &two, &two, None, None, Some(10_001)), Ok(vec![10, 10]));
    assert_eq!(
        parabolic_sar(&two, &one, &two, Some(0), None, None),
        Err(IndicatorError::InvalidParameter)
    );
    assert_eq!(
        parabolic_sar(&two, &one, &two, None, None, None),
        Err(IndicatorError::MismatchedLengths)
    );
    assert_eq!(
        parabolic_sar(&two, &two, &one, None, None, None),
        Err(IndicatorError::MismatchedLengths)
    );
    assert_eq!(parabolic_sar(&none, &none, &none, None, None, None), Err(IndicatorError::EmptyInput));
    assert_eq!(
        parabolic_sar(&one, &one, &one, None, None, None),
        Err(IndicatorError::InsufficientData)
    );
    assert_eq!(
        parabolic_sar(&two, &two, &two, Some(10_000), Some(0), Some(10_000)),
        Ok(vec![10, 10])
    );
}

#[test]
fn sar_accepts_a_cap_above_one() {
    let two: Vec<i32> = vec![10, 11];
    assert_eq!(parabolic_sar(&two, &two, &two, Some(5_000), None, Some(20_000)), Ok(vec![10, 10]));
    let highs: Vec<i32> = vec![1000, 1100, 1200, 1150, 1050, 950, 900, 1000, 1150, 1250];
    let lows: Vec<i32> = vec![900, 1000, 1100, 1000, 900, 800, 780, 850, 1000, 1100];
    let closes: Vec<i32> = vec![950, 1050, 1150, 1050, 950, 850, 800, 950, 1100, 1200];
    assert_eq!(
        parabolic_sar(&highs, &lows, &closes, Some(5_000), Some(10_000), Some(30_000)),
        Ok(vec![950, 900, 900, 1000, 1200, 1150, 1050, 780, 780, 850])
    );
    assert_eq!(
        parabolic_sar(&highs, &lows, &closes, Some(u32::MAX), Some(0), Some(u32::MAX)),
        Ok(vec![950, 900, 900, 1000, 1200, 1150, 1050, 780, 780, 850])
    );
    let crossed: Vec<i32> = vec![i32::MIN, i32::MIN, i32::MIN];
    let top: Vec<i32> = vec![i32::MAX, i32::MAX, i32::MAX];
    assert_eq!(
        parabolic_sar(&crossed, &crossed, &top, Some(u32::MAX), None, Some(u32::MAX)),
        Ok(vec![2147483647, -1844672259028315, -2147483648])
    );
}

#[test]
fn renko_advance_lays_bricks_and_sets_the_trend() {
    let mut chart: Vec<i64> = vec![0];
    let start = RenkoState { last_brick_level: 0, trend: Trend::Flat };
    let st = renko_advance(start, 9, 10, &mut chart);
    assert_eq!(st, start);
    assert_eq!(chart, vec![0]);
    let st = renko_advance(st, 25, 10, &mut chart);
    assert_eq!(st, RenkoState { last_brick_level: 20, trend: Trend::Up });
    assert_eq!(chart, vec![0, 10, 20]);
    let st = renko_advance(st, 11, 10, &mut chart);
    assert_eq!(st, RenkoState { last_brick_level: 20, trend: Trend::Up });
    assert_eq!(chart, vec![0, 10, 20]);
    let st = renko_advance(st, 10, 10, &mut chart);
    assert_eq!(st, RenkoState { last_brick_level: 10, trend: Trend::Down });
    assert_eq!(chart, vec![0, 10, 20, 10]);
    let st = renko_advance(st, -10, 10, &mut chart);
    assert_eq!(st, RenkoState { last_brick_level: -10, trend: Trend::Down });
    assert_eq!(chart, vec![0, 10, 20, 10, 0, -10]);
    let st = renko_advance(st, -10, 10, &mut chart);
    assert_eq!(st, RenkoState { last_brick_level: -10, trend: Trend::Down });
    assert_eq!(chart.len(), 6);
}

#[test]
fn sar_steps_one_by_one() {
    assert_eq!(compute_new_sar(900, 1000, 200), 902);
    assert_eq!(compute_new_sar(1000, 900, 200), 998);
    assert_eq!(compute_new_sar(1000, 999, 200), 999);
    assert_eq!(compute_new_sar(900, 1000, 10_000), 1000);
    assert_eq!(compute_new_sar(900, 1000, 0), 900);
    assert_eq!(compute_new_sar(i32::MIN as i64, i32::MAX as i64, 10_000), i32::MAX as i128);
    assert_eq!(compute_new_sar(900, 1000, 20_000), 1100);
    assert_eq!(compute_new_sar(1000, 900, 25_000), 750);
    assert_eq!(
        compute_new_sar(i32::MAX as i64, i32::MIN as i64, u32::MAX),
        i32::MAX as i128 - 1_844_674_406_511_962
    );
    let highs: Vec<i32> = vec![10, 12, 11];
    let lows: Vec<i32> = vec![8, 9, 7];
    assert_eq!(apply_boundaries(true, 10, &highs, &lows, 1), 8);
    assert_eq!(apply_boundaries(true, 7, &highs, &lows, 1), 7);
    assert_eq!(apply_boundaries(true, 10, &highs, &lows, 2), 8);
    assert_eq!(apply_boundaries(true, 10, &highs, &lows, 3), 7);
    assert_eq!(apply_boundaries(false, 9, &highs, &lows, 1), 10);
    assert_eq!(apply_boundaries(false, 9, &highs, &lows, 2), 12);
    assert_eq!(apply_boundaries(false, 13, &highs, &lows, 3), 13);
    assert_eq!(update_ep_and_af(true, 100, 200, 101, 90, 200, 2000), (101, 400));
    assert_eq!(update_ep_and_af(true, 100, 200, 100, 90, 200, 2000), (100, 200));
    assert_eq!(update_ep_and_af(true, 100, 1900, 101, 90, 200, 2000), (101, 2000));
    assert_eq!(update_ep_and_af(false, 100, 200, 120, 99, 200, 2000), (99, 400));
    assert_eq!(update_ep_and_af(false, 100, 200, 120, 100, 200, 2000), (100, 200));
    assert_eq!(update_ep_and_af(false, 100, u32::MAX, 120, 99, u32::MAX, u32::MAX), (99, u32::MAX));
}
