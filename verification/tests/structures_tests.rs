use ta_indicators::entry_exit_signals::{
    calculate_atr, entry_exit_signals, is_entry_signal, is_exit_signal, Signal, ENTRY, EXIT,
};
use ta_indicators::error::IndicatorError;
use ta_indicators::extract_important_levels::{
    extract_important_levels, greatest_of, is_turning_point, least_of, mean_value, DataEntry,
};
use ta_indicators::ichimoku::{
    all_defined, average_series, calculate_ichimoku_values, calculate_midline, ichimoku,
    shift_backward, shift_forward, validate_market_data, IchimokuError, IchimokuParams,
};
use ta_indicators::market_data::{process_market_data, MarketData};
use ta_indicators::pivot_points::{calculate_pivot_point, pivot_points, PivotLevels};
use ta_indicators::support_resistance::SupportResistance;

fn highs() -> Vec<i32> {
    vec![1200, 1400, 1300, 1600, 1800, 1700, 2000, 1900, 2200, 2400, 2300, 2600, 2500, 2100, 1900, 2200]
}

fn lows() -> Vec<i32> {
    vec![900, 1000, 1100, 1200, 1400, 1500, 1600, 1600, 1800, 2000, 2100, 2200, 2000, 1700, 1500, 1800]
}

fn closes() -> Vec<i32> {
    vec![1000, 1300, 1200, 1500, 1700, 1600, 1900, 1700, 2100, 2300, 2200, 2500, 2100, 1800, 1800, 2100]
}

#[test]
fn test_ichimoku_params_validation() {
    assert!(IchimokuParams::new(Some(0), Some(26), Some(52)).is_err());
    assert!(IchimokuParams::new(Some(9), Some(0), Some(52)).is_err());
    assert!(IchimokuParams::new(Some(9), Some(26), Some(0)).is_err());

    let valid_params = IchimokuParams::new(Some(9), Some(26), Some(52));
    assert!(valid_params.is_ok());
}

#[test]
fn ichimoku_params_take_their_defaults() {
    let params = IchimokuParams::new(None, None, None).unwrap();
    assert_eq!((params.period_tenkan, params.period_kijun, params.period_senkou), (9, 26, 52));
    let params = IchimokuParams::default();
    assert_eq!((params.period_tenkan, params.period_kijun, params.period_senkou), (9, 26, 52));
    let params = IchimokuParams::new(Some(1), None, Some(3)).unwrap();
    assert_eq!((params.period_tenkan, params.period_kijun, params.period_senkou), (1, 26, 3));
    assert_eq!(
        IchimokuParams::new(None, Some(0), None).err(),
        Some(IchimokuError::InvalidInput(IndicatorError::InvalidPeriod))
    );
}

#[test]
fn midline_is_the_middle_of_the_window_range() {
    assert_eq!(calculate_midline(&highs(), &lows(), 2), vec![None, Some(1150), Some(1200), Some(1350), Some(1500), Some(1600), Some(1750), Some(1800), Some(1900), Some(2100), Some(2200), Some(2350), Some(2300), Some(2100), Some(1800), Some(1850)]);
    assert_eq!(calculate_midline(&highs(), &lows(), 4), vec![None, None, None, Some(1250), Some(1400), Some(1450), Some(1600), Some(1700), Some(1850), Some(2000), Some(2000), Some(2200), Some(2300), Some(2150), Some(2050), Some(2000)]);
    let odd_high: Vec<i32> = vec![4, -4];
    let odd_low: Vec<i32> = vec![3, -7];
    assert_eq!(calculate_midline(&odd_high, &odd_low, 1), vec![Some(3), Some(-6)]);
    assert_eq!(calculate_midline(&odd_high, &odd_low, 2), vec![None, Some(-2)]);
    assert_eq!(calculate_midline(&odd_high, &odd_low, 3), vec![None, None]);
    assert_eq!(calculate_midline(&odd_high, &odd_low, 0), Vec::<Option<i64>>::new());
    let none: Vec<i32> = vec![];
    assert_eq!(calculate_midline(&none, &none, 2), Vec::<Option<i64>>::new());
}

#[test]
fn series_are_averaged_and_shifted() {
    let a: Vec<Option<i64>> = vec![None, Some(1), Some(4), Some(-3), Some(i64::MAX)];
    let b: Vec<Option<i64>> = vec![Some(9), Some(2), None, Some(-4)];
    assert_eq!(average_series(&a, &b), vec![None, Some(1), None, Some(-4)]);
    assert_eq!(
        average_series(&a[4..], &a[4..]),
        vec![Some(i64::MAX)]
    );
    assert_eq!(shift_forward(&b, 0), b);
    assert_eq!(shift_forward(&b, 1), vec![None, Some(9), Some(2), None]);
    assert_eq!(shift_forward(&b, 4), vec![None, None, None, None]);
    assert_eq!(shift_forward(&b, 6), vec![None, None, None, None, None, None]);
    assert_eq!(shift_backward(&b, 0), b);
    assert_eq!(shift_backward(&b, 1), vec![Some(2), None, Some(-4), None]);
    assert_eq!(shift_backward(&b, 4), vec![None, None, None, None]);
    let prices: Vec<i32> = vec![i32::MIN, 7];
    assert_eq!(all_defined(&prices), vec![Some(i32::MIN as i64), Some(7)]);
}

#[test]
fn ichimoku_cloud_lines() {
    let cloud = ichimoku(&highs(), &lows(), &closes(), Some(2), Some(4), Some(6)).unwrap();
    assert_eq!(cloud.tenkan_sen, vec![None, Some(1150), Some(1200), Some(1350), Some(1500), Some(1600), Some(1750), Some(1800), Some(1900), Some(2100), Some(2200), Some(2350), Some(2300), Some(2100), Some(1800), Some(1850)]);
    assert_eq!(cloud.kijun_sen, vec![None, None, None, Some(1250), Some(1400), Some(1450), Some(1600), Some(1700), Some(1850), Some(2000), Some(2000), Some(2200), Some(2300), Some(2150), Some(2050), Some(2000)]);
    assert_eq!(cloud.senkou_span_a, vec![None, None, None, None, None, None, None, Some(1300), Some(1450), Some(1525), Some(1675), Some(1750), Some(1875), Some(2050), Some(2100), Some(2275)]);
    assert_eq!(cloud.senkou_span_b, vec![None, None, None, None, None, None, None, None, None, Some(1350), Some(1500), Some(1550), Some(1700), Some(1900), Some(1950), Some(2100)]);
    assert_eq!(cloud.chikou_span, vec![Some(1700), Some(1600), Some(1900), Some(1700), Some(2100), Some(2300), Some(2200), Some(2500), Some(2100), Some(1800), Some(1800), Some(2100), None, None, None, None]);
    let params = IchimokuParams::new(Some(2), Some(4), Some(6)).unwrap();
    assert_eq!(validate_market_data(&highs(), &lows(), &closes(), &params), Ok(()));
    let direct = calculate_ichimoku_values(&highs(), &lows(), &closes(), &params);
    assert_eq!(direct.senkou_span_a, cloud.senkou_span_a);
    assert_eq!(direct.chikou_span, cloud.chikou_span);
}

#[test]
fn ichimoku_rejections() {
    let two: Vec<i32> = vec![1, 2];
    let one: Vec<i32> = vec![1];
    let none: Vec<i32> = vec![];
    let input = |e| Some(IchimokuError::InvalidInput(e));
    assert_eq!(
        ichimoku(&two, &one, &two, Some(0), Some(1), Some(1)).err(),
        input(IndicatorError::InvalidPeriod)
    );
    assert_eq!(
        ichimoku(&two, &one, &two, Some(1), Some(1), Some(1)).err(),
        input(IndicatorError::MismatchedLengths)
    );
    assert_eq!(
        ichimoku(&two, &two, &one, Some(1), Some(1), Some(1)).err(),
        input(IndicatorError::MismatchedLengths)
    );
    assert_eq!(
        ichimoku(&none, &none, &none, Some(1), Some(1), Some(1)).err(),
        input(IndicatorError::EmptyInput)
    );
    assert_eq!(
        ichimoku(&two, &two, &two, Some(1), Some(1), Some(3)).err(),
        input(IndicatorError::InsufficientData)
    );
    assert_eq!(
        ichimoku(&two, &two, &two, Some(1), Some(3), Some(1)).err(),
        input(IndicatorError::InsufficientData)
    );
    assert_eq!(
        ichimoku(&highs(), &lows(), &closes(), None, None, None).err(),
        input(IndicatorError::InsufficientData)
    );
    let cloud = ichimoku(&two, &two, &two, Some(3), Some(2), Some(2)).unwrap();
    assert_eq!(cloud.tenkan_sen, vec![None, None]);
    assert_eq!(cloud.kijun_sen, vec![None, Some(1)]);
    assert_eq!(cloud.senkou_span_a, vec![None, None]);
    assert_eq!(cloud.chikou_span, vec![None, None]);
}

#[test]
fn pivot_levels_of_one_bar() {
    let levels = PivotLevels::new(10, 8, 9);
    assert_eq!(levels.pivot_point, 9);
    assert_eq!(levels.resistance1, 10);
    assert_eq!(levels.support1, 8);
    assert_eq!(levels.resistance2, 11);
    assert_eq!(levels.support2, 7);
    assert_eq!(calculate_pivot_point(10, 8, 9), 9);
    assert_eq!(calculate_pivot_point(10, 8, 10), 9);
    assert_eq!(calculate_pivot_point(-10, -8, -10), -10);
    assert_eq!(calculate_pivot_point(i32::MAX, i32::MAX, i32::MAX), i32::MAX as i64);
    assert_eq!(calculate_pivot_point(i32::MIN, i32::MIN, i32::MIN), i32::MIN as i64);
    let wide = PivotLevels::new(i32::MAX, i32::MIN, 0);
    assert_eq!(wide.pivot_point, -1);
    assert_eq!(wide.resistance1, (1 << 31) - 1);
    assert_eq!(wide.resistance2, (1 << 32) - 2);
    assert_eq!(wide.support1, -(1 << 31));
    let thirds = PivotLevels::new(1_000, 800, 950);
    assert_eq!(
        (thirds.pivot_point, thirds.resistance1, thirds.resistance2, thirds.support1, thirds.support2),
        (916, 1_033, 1_116, 833, 716)
    );
    assert_eq!(wide.support2, -(1 << 32));
}

#[test]
fn pivot_points_of_a_bar_series() {
    let high: Vec<i32> = vec![10, 1000, -5];
    let low: Vec<i32> = vec![8, 900, -9];
    let close: Vec<i32> = vec![9, 950, -6];
    assert_eq!(
        pivot_points(&high, &low, &close),
        Ok(vec![9, 10, 11, 8, 7, 950, 1000, 1050, 900, 850, -7, -5, -3, -9, -11])
    );
    let none: Vec<i32> = vec![];
    assert_eq!(pivot_points(&none, &none, &none), Ok(vec![]));
    assert_eq!(pivot_points(&high, &low[..2], &close), Err(IndicatorError::MismatchedLengths));
    assert_eq!(pivot_points(&high, &low, &none), Err(IndicatorError::MismatchedLengths));
}

#[test]
fn support_and_resistance_levels_in_order_of_first_touch() {
    let finder = SupportResistance::new(vec![105, 100, 105, 110, 100, 105, 99, 110]);
    let pairs = |threshold: usize| -> Vec<(i32, usize)> {
        finder.calculate(threshold).iter().map(|l| (l.price(), l.occurrences())).collect()
    };
    assert_eq!(pairs(0), vec![(105, 3), (100, 2), (110, 2), (99, 1)]);
    assert_eq!(pairs(1), vec![(105, 3), (100, 2), (110, 2), (99, 1)]);
    assert_eq!(pairs(2), vec![(105, 3), (100, 2), (110, 2)]);
    assert_eq!(pairs(3), vec![(105, 3)]);
    assert_eq!(pairs(4), vec![]);
    let empty = SupportResistance::new(vec![]);
    assert_eq!(empty.calculate(0).len(), 0);
    let limits = SupportResistance::new(vec![i32::MIN, i32::MAX, i32::MIN]);
    let found = limits.calculate(2);
    assert_eq!(found.len(), 1);
    assert_eq!((found[0].price(), found[0].occurrences()), (i32::MIN, 2));
}

#[test]
fn average_true_range_of_a_price_series() {
    let prices: Vec<i32> = vec![100, 104, 101, 108, 103, 110];
    assert_eq!(calculate_atr(&prices, 2), vec![None, None, Some(35000), Some(52500), Some(51250), Some(60625)]);
    assert_eq!(
        calculate_atr(&prices, 1),
        vec![None, Some(40_000), Some(30_000), Some(70_000), Some(50_000), Some(70_000)]
    );
    assert_eq!(calculate_atr(&prices, 5), vec![None, None, None, None, None, Some(52_000)]);
    assert_eq!(calculate_atr(&prices, 6), vec![None; 6]);
    let one: Vec<i32> = vec![5];
    assert_eq!(calculate_atr(&one, 1), vec![None]);
    let none: Vec<i32> = vec![];
    assert_eq!(calculate_atr(&none, 1), Vec::<Option<i64>>::new());
}

#[test]
fn signals_alternate_between_entry_and_exit() {
    let prices: Vec<i32> = vec![100, 100, 100, 100, 100, 100, 130, 131, 132, 90, 80, 70, 150, 160, 40];
    let found: Vec<(u8, i32, usize)> = entry_exit_signals(&prices, 3, 2, 2, 10_000)
        .unwrap()
        .iter()
        .map(|s| (s.signal_type(), s.price(), s.index()))
        .collect();
    assert_eq!(found, vec![(0, 130, 6), (1, 90, 9), (0, 150, 12), (1, 40, 14)]);
    assert_eq!(found[0].0, ENTRY);
    assert_eq!(found[1].0, EXIT);
    let found: Vec<(u8, i32, usize)> = entry_exit_signals(&prices, 2, 1, 3, 0)
        .unwrap()
        .iter()
        .map(|s| (s.signal_type(), s.price(), s.index()))
        .collect();
    assert_eq!(found, vec![(0, 130, 6), (1, 90, 9), (0, 150, 12), (1, 40, 14)]);
}

#[test]
fn signals_edge_cases() {
    let prices: Vec<i32> = vec![1, 2, 3, 4, 5, 6];
    assert_eq!(entry_exit_signals(&prices, 0, 1, 1, 5).err(), Some(IndicatorError::InvalidPeriod));
    assert_eq!(entry_exit_signals(&prices, 1, 0, 1, 5).err(), Some(IndicatorError::InvalidPeriod));
    assert_eq!(entry_exit_signals(&prices, 1, 1, 0, 5).err(), Some(IndicatorError::InvalidPeriod));
    assert_eq!(entry_exit_signals(&prices, 3, 3, 1, 5).unwrap().len(), 0);
    assert_eq!(entry_exit_signals(&prices, usize::MAX, usize::MAX, 1, 5).unwrap().len(), 0);
    let flat: Vec<i32> = vec![7; 12];
    assert_eq!(entry_exit_signals(&flat, 2, 2, 2, 0).unwrap().len(), 0);
    assert!(is_entry_signal(11, 10, false));
    assert!(!is_entry_signal(10, 10, false));
    assert!(!is_entry_signal(11, 10, true));
    assert!(is_exit_signal(9, 10, true));
    assert!(!is_exit_signal(10, 10, true));
    assert!(!is_exit_signal(9, 10, false));
    let signal = Signal::new(EXIT, -5, 3);
    assert_eq!((signal.signal_type(), signal.price(), signal.index()), (1, -5, 3));
}

#[test]
fn important_levels_of_a_series_with_one_peak_and_one_trough() {
    let data: Vec<i32> = vec![5, 6, 7, 8, 9, 20, 9, 8, 7, 6, 5, 4, 3, 2, 1, 0, 1, 2, 3, 4, 5, 6];
    let levels = extract_important_levels(&data).unwrap();
    assert_eq!(levels.resistances, vec![20]);
    assert_eq!(levels.supports, vec![0]);
    assert_eq!(levels.highest_resistance, 20);
    assert_eq!(levels.lowest_support, 0);
    assert_eq!(levels.average_pivot, 10);
    assert!(is_turning_point(&data, 5, true));
    assert!(!is_turning_point(&data, 5, false));
    assert!(is_turning_point(&data, 15, false));
    assert!(!is_turning_point(&data, 4, true));
    assert!(!is_turning_point(&data, 21, true));
    assert!(!is_turning_point(&data, 99, true));
}

#[test]
fn important_levels_fall_back_to_the_prices() {
    let short: Vec<i32> = vec![4, -9, 7, 1];
    let levels = extract_important_levels(&short).unwrap();
    assert_eq!(levels.resistances, Vec::<i32>::new());
    assert_eq!(levels.supports, Vec::<i32>::new());
    assert_eq!(levels.highest_resistance, 7);
    assert_eq!(levels.lowest_support, -9);
    assert_eq!(levels.average_pivot, 0);
    let flat: Vec<i32> = vec![3; 12];
    let levels = extract_important_levels(&flat).unwrap();
    assert_eq!(levels.resistances, vec![3, 3]);
    assert_eq!(levels.supports, vec![3, 3]);
    assert_eq!(levels.average_pivot, 3);
    let other: Vec<i32> = vec![10, 9, 8, 7, 6, 1, 6, 7, 8, 9, 10, 30, 10, 9, 8, 7, 6, 5, 4, 3];
    let levels = extract_important_levels(&other).unwrap();
    assert_eq!(
        (levels.highest_resistance, levels.lowest_support, levels.average_pivot),
        (30, 1, 15)
    );
    assert_eq!(levels.supports, vec![1]);
    assert_eq!(levels.resistances, vec![30]);
    let none: Vec<i32> = vec![];
    assert_eq!(extract_important_levels(&none).err(), Some(IndicatorError::EmptyInput));
}

#[test]
fn extremes_and_means_of_plain_values() {
    let values: Vec<i32> = vec![3, -8, 3, 11, -8];
    assert_eq!(greatest_of(&values), 11);
    assert_eq!(least_of(&values), -8);
    assert_eq!(mean_value(&values), 0);
    let negative: Vec<i32> = vec![-1, -2];
    assert_eq!(mean_value(&negative), -2);
    let limits: Vec<i32> = vec![i32::MAX, i32::MAX, i32::MIN];
    assert_eq!(mean_value(&limits), 715_827_882);
    let entry = DataEntry::new(1, 2, 3, 4, 5);
    assert_eq!(
        entry,
        DataEntry { pivot_point: 1, resistance1: 2, resistance2: 3, support1: 4, support2: 5 }
    );
}

#[test]
fn market_data_is_split_into_columns() {
    let bars = vec![
        MarketData { low: 8, high: 10, open: 9, close: 9, volume: 1_000, date: "2024-01-02".to_string() },
        MarketData { low: 7, high: 12, open: 9, close: 11, volume: 5_000_000_000, date: "2024-01-03".to_string() },
    ];
    let columns = process_market_data(bars);
    assert_eq!(columns.lows, vec![8, 7]);
    assert_eq!(columns.highs, vec![10, 12]);
    assert_eq!(columns.opens, vec![9, 9]);
    assert_eq!(columns.closes, vec![9, 11]);
    assert_eq!(columns.volumes, vec![1_000, 5_000_000_000]);
    assert_eq!(columns.dates, vec!["2024-01-02".to_string(), "2024-01-03".to_string()]);
    let columns = process_market_data(vec![]);
    assert_eq!(columns.lows.len(), 0);
    assert_eq!(columns.dates.len(), 0);
}
