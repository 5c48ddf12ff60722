use vstd::prelude::*;
use crate::error::IndicatorError;
use crate::fixed::floor_div;
use crate::series::{all_prices, undefined, widen, widened};
use crate::window::{
    lemma_window_extreme_is_price,
    max_in_window,
    min_in_window,
    window_max,
    window_min,
};

verus! {

/// The conversion-line period when none is given.
pub const DEFAULT_TENKAN: usize = 9;

/// The base-line period, and the displacement of the spans, when none is
/// given.
pub const DEFAULT_KIJUN: usize = 26;

/// The period of the second leading span when none is given.
pub const DEFAULT_SENKOU: usize = 52;

/// Why a cloud could not be computed.
#[derive(Clone, Copy, Debug, PartialEq, Eq, Structural)]
pub enum IchimokuError {
    /// The periods or the bars were rejected, for the reason given.
    InvalidInput(IndicatorError),
    /// The bars could not be brought into parallel series.
    ProcessingError,
    /// A value could not be passed across the caller's boundary.
    SerializationError,
}

/// The three periods of a cloud, none of them zero.
#[derive(Clone, Copy, Debug)]
pub struct IchimokuParams {
    pub period_tenkan: usize,
    pub period_kijun: usize,
    pub period_senkou: usize,
}

/// The five lines of a cloud.
#[derive(Debug)]
pub struct IchimokuResult {
    pub tenkan_sen: Vec<Option<i64>>,
    pub kijun_sen: Vec<Option<i64>>,
    pub senkou_span_a: Vec<Option<i64>>,
    pub senkou_span_b: Vec<Option<i64>>,
    pub chikou_span: Vec<Option<i64>>,
}

/// The midpoint between the highest high and the lowest low of the `period`
/// bars that end at `i`, rounded down.
pub open spec fn midline_at(highs: Seq<i32>, lows: Seq<i32>, period: int, i: int) -> int {
    (window_max(widened(highs), i + 1 - period, i) + window_min(widened(lows), i + 1 - period, i))
        / 2
}

/// The midline over `period` bars, aligned with the bars: undefined before
/// `period - 1`. It is empty where there is no bar or the period is zero.
pub open spec fn midline(highs: Seq<i32>, lows: Seq<i32>, period: int) -> Seq<Option<i64>> {
    if highs.len() == 0 || lows.len() == 0 || period == 0 {
        Seq::empty()
    } else {
        Seq::new(
            highs.len(),
            |i: int|
                if i >= period - 1 {
                    Some(midline_at(highs, lows, period, i) as i64)
                } else {
                    None
                },
        )
    }
}

/// The mean of two positions, rounded down; undefined where either is.
pub open spec fn average_of(a: Option<i64>, b: Option<i64>) -> Option<i64> {
    match (a, b) {
        (Some(x), Some(y)) => Some(((x + y) / 2) as i64),
        _ => None,
    }
}

/// The position-wise mean of two series, as long as the shorter of them.
pub open spec fn averaged(a: Seq<Option<i64>>, b: Seq<Option<i64>>) -> Seq<Option<i64>> {
    Seq::new(
        if a.len() <= b.len() {
            a.len()
        } else {
            b.len()
        },
        |i: int| average_of(a[i], b[i]),
    )
}

/// The series moved `shift` positions towards the future: `shift` undefined
/// positions, then the series without its last `shift` positions.
pub open spec fn shifted_forward(s: Seq<Option<i64>>, shift: int) -> Seq<Option<i64>> {
    Seq::new(
        if s.len() >= shift {
            s.len()
        } else {
            shift as nat
        },
        |i: int|
            if i < shift {
                None
            } else {
                s[i - shift]
            },
    )
}

/// The series moved `shift` positions towards the past: the series without its
/// first `shift` positions, then `shift` undefined positions.
pub open spec fn shifted_backward(s: Seq<Option<i64>>, shift: int) -> Seq<Option<i64>> {
    Seq::new(
        s.len(),
        |i: int|
            if i < s.len() - shift {
                s[i + shift]
            } else {
                None
            },
    )
}

/// A price series with every position defined.
pub open spec fn defined(prices: Seq<i32>) -> Seq<Option<i64>> {
    Seq::new(prices.len(), |i: int| Some(prices[i] as i64))
}

/// Why [`IchimokuParams::new`] rejects the periods, if it does.
pub open spec fn params_rejection(tenkan: int, kijun: int, senkou: int) -> Option<IchimokuError> {
    if tenkan == 0 || kijun == 0 || senkou == 0 {
        Some(IchimokuError::InvalidInput(IndicatorError::InvalidPeriod))
    } else {
        None
    }
}

/// Why [`validate_market_data`] rejects the bars, if it does.
pub open spec fn bars_rejection(highs: int, lows: int, closes: int, params: IchimokuParams) -> Option<
    IchimokuError,
> {
    if highs != lows || highs != closes {
        Some(IchimokuError::InvalidInput(IndicatorError::MismatchedLengths))
    } else if highs == 0 {
        Some(IchimokuError::InvalidInput(IndicatorError::EmptyInput))
    } else if highs < params.period_senkou || highs < params.period_kijun {
        Some(IchimokuError::InvalidInput(IndicatorError::InsufficientData))
    } else {
        None
    }
}

/// Whether `cloud` holds the five lines of the bars: the conversion and base
/// lines are midlines, the first leading span their mean and the second a
/// midline, both moved forward by the base period, and the lagging span the
/// closes moved back by it.
pub open spec fn is_cloud(
    cloud: IchimokuResult,
    highs: Seq<i32>,
    lows: Seq<i32>,
    closes: Seq<i32>,
    params: IchimokuParams,
) -> bool {
    let tenkan = midline(highs, lows, params.period_tenkan as int);
    let kijun = midline(highs, lows, params.period_kijun as int);
    &&& cloud.tenkan_sen@ == tenkan
    &&& cloud.kijun_sen@ == kijun
    &&& cloud.senkou_span_a@ == shifted_forward(averaged(tenkan, kijun), params.period_kijun as int)
    &&& cloud.senkou_span_b@ == shifted_forward(
        midline(highs, lows, params.period_senkou as int),
        params.period_kijun as int,
    )
    &&& cloud.chikou_span@ == shifted_backward(defined(closes), params.period_kijun as int)
}

impl Default for IchimokuParams {
    fn default() -> (r: Self)
        ensures
            r.period_tenkan == DEFAULT_TENKAN,
            r.period_kijun == DEFAULT_KIJUN,
            r.period_senkou == DEFAULT_SENKOU,
    {
        IchimokuParams {
            period_tenkan: DEFAULT_TENKAN,
            period_kijun: DEFAULT_KIJUN,
            period_senkou: DEFAULT_SENKOU,
        }
    }
}

impl IchimokuParams {
    /// The periods of a cloud; one left out takes its default. A period of
    /// zero is rejected.
    pub fn new(
        period_tenkan: Option<usize>,
        period_kijun: Option<usize>,
        period_senkou: Option<usize>,
    ) -> (r: Result<Self, IchimokuError>)
        ensures
            ({
                let t = period_tenkan.unwrap_or(DEFAULT_TENKAN);
                let k = period_kijun.unwrap_or(DEFAULT_KIJUN);
                let s = period_senkou.unwrap_or(DEFAULT_SENKOU);
                match r {
                    Ok(p) => params_rejection(t as int, k as int, s as int) is None
                        && p.period_tenkan == t && p.period_kijun == k && p.period_senkou == s,
                    Err(e) => params_rejection(t as int, k as int, s as int) == Some(e),
                }
            }),
    {
        let params = IchimokuParams {
            period_tenkan: match period_tenkan {
                Some(v) => v,
                None => DEFAULT_TENKAN,
            },
            period_kijun: match period_kijun {
                Some(v) => v,
                None => DEFAULT_KIJUN,
            },
            period_senkou: match period_senkou {
                Some(v) => v,
                None => DEFAULT_SENKOU,
            },
        };
        if params.period_tenkan == 0 || params.period_kijun == 0 || params.period_senkou == 0 {
            return Err(IchimokuError::InvalidInput(IndicatorError::InvalidPeriod));
        }
        Ok(params)
    }
}

/// The midline of a bar series, see [`midline`]. Every defined position holds
/// [`midline_at`] of its index.
pub fn calculate_midline(highs: &[i32], lows: &[i32], period: usize) -> (out: Vec<Option<i64>>)
    requires
        highs.len() == lows.len(),
    ensures
        out@ == midline(highs@, lows@, period as int),
        forall|i: int|
            0 <= i && period - 1 <= i < out@.len() ==> crate::series::holds(
                #[trigger] out@[i],
                midline_at(highs@, lows@, period as int, i),
            ),
{
    if highs.len() == 0 || lows.len() == 0 || period == 0 {
        let out: Vec<Option<i64>> = Vec::new();
        assert(out@.len() == 0);
        return out;
    }
    let n: usize = highs.len();
    if n < period {
        let out = undefined(n);
        assert(out@ =~= midline(highs@, lows@, period as int));
        return out;
    }
    let wide_highs: Vec<i64> = widen(highs);
    let wide_lows: Vec<i64> = widen(lows);
    let highest: Vec<i64> = max_in_window(wide_highs.as_slice(), period);
    let lowest: Vec<i64> = min_in_window(wide_lows.as_slice(), period);
    let mut out: Vec<Option<i64>> = undefined(period - 1);
    let mut k: usize = 0;
    while k < highest.len()
        invariant
            1 <= period <= n,
            n == highs.len(),
            n == lows.len(),
            wide_highs@ == widened(highs@),
            wide_lows@ == widened(lows@),
            all_prices(wide_highs@),
            all_prices(wide_lows@),
            highest@.len() == n - period + 1,
            lowest@.len() == n - period + 1,
            forall|j: int|
                0 <= j < highest@.len() ==> #[trigger] highest@[j] == window_max(
                    wide_highs@,
                    j,
                    j + period - 1,
                ),
            forall|j: int|
                0 <= j < lowest@.len() ==> #[trigger] lowest@[j] == window_min(
                    wide_lows@,
                    j,
                    j + period - 1,
                ),
            k <= highest@.len(),
            out@.len() == period - 1 + k,
            forall|i: int| 0 <= i < period - 1 ==> #[trigger] out@[i] == None::<i64>,
            forall|i: int|
                period - 1 <= i < out@.len() ==> crate::series::holds(
                    #[trigger] out@[i],
                    midline_at(highs@, lows@, period as int, i),
                ),
        decreases highest@.len() - k,
    {
        proof {
            lemma_window_extreme_is_price(true, wide_highs@, k as int, k + period - 1);
            lemma_window_extreme_is_price(false, wide_lows@, k as int, k + period - 1);
            assert(highest@[k as int] == window_max(wide_highs@, k as int, k + period - 1));
            assert(lowest@[k as int] == window_min(wide_lows@, k as int, k + period - 1));
        }
        let total: i64 = highest[k] + lowest[k];
        out.push(Some(floor_div(total as i128, 2) as i64));
        k = k + 1;
    }
    assert(out@ =~= midline(highs@, lows@, period as int));
    out
}

/// The position-wise mean of two series, see [`averaged`].
pub fn average_series(series1: &[Option<i64>], series2: &[Option<i64>]) -> (out: Vec<Option<i64>>)
    ensures
        out@ == averaged(series1@, series2@),
{
    let min_len: usize = if series1.len() <= series2.len() {
        series1.len()
    } else {
        series2.len()
    };
    let mut out: Vec<Option<i64>> = Vec::new();
    let mut i: usize = 0;
    while i < min_len
        invariant
            i <= min_len,
            min_len <= series1.len(),
            min_len <= series2.len(),
            out@.len() == i,
            forall|j: int| 0 <= j < i ==> #[trigger] out@[j] == average_of(series1@[j], series2@[j]),
        decreases min_len - i,
    {
        let mean: Option<i64> = match (series1[i], series2[i]) {
            (Some(x), Some(y)) => Some(floor_div(x as i128 + y as i128, 2) as i64),
            _ => None,
        };
        out.push(mean);
        i = i + 1;
    }
    assert(out@ =~= averaged(series1@, series2@));
    out
}

/// The series moved towards the future, see [`shifted_forward`].
pub fn shift_forward(series: &[Option<i64>], shift: usize) -> (out: Vec<Option<i64>>)
    ensures
        out@ == shifted_forward(series@, shift as int),
{
    let mut out: Vec<Option<i64>> = undefined(shift);
    let kept: usize = if series.len() >= shift {
        series.len() - shift
    } else {
        0
    };
    let mut i: usize = 0;
    while i < kept
        invariant
            i <= kept,
            kept == if series.len() >= shift {
                series.len() - shift
            } else {
                0
            },
            out@.len() == shift + i,
            forall|j: int| 0 <= j < shift ==> #[trigger] out@[j] == None::<i64>,
            forall|j: int| shift <= j < shift + i ==> #[trigger] out@[j] == series@[j - shift],
        decreases kept - i,
    {
        out.push(series[i]);
        i = i + 1;
    }
    assert(out@ =~= shifted_forward(series@, shift as int));
    out
}

/// The series moved towards the past, see [`shifted_backward`].
pub fn shift_backward(series: &[Option<i64>], shift: usize) -> (out: Vec<Option<i64>>)
    requires
        shift <= series.len(),
    ensures
        out@ == shifted_backward(series@, shift as int),
{
    let n: usize = series.len();
    let mut out: Vec<Option<i64>> = Vec::new();
    let mut i: usize = shift;
    while i < n
        invariant
            shift <= i <= n,
            n == series.len(),
            out@.len() == i - shift,
            forall|j: int| 0 <= j < i - shift ==> #[trigger] out@[j] == series@[j + shift],
        decreases n - i,
    {
        out.push(series[i]);
        i = i + 1;
    }
    let mut k: usize = 0;
    while k < shift
        invariant
            k <= shift <= n,
            n == series.len(),
            out@.len() == n - shift + k,
            forall|j: int| 0 <= j < n - shift ==> #[trigger] out@[j] == series@[j + shift],
            forall|j: int| n - shift <= j < out@.len() ==> #[trigger] out@[j] == None::<i64>,
        decreases shift - k,
    {
        out.push(None);
        k = k + 1;
    }
    assert(out@ =~= shifted_backward(series@, shift as int));
    out
}

/// A price series with every position defined.
pub fn all_defined(prices: &[i32]) -> (out: Vec<Option<i64>>)
    ensures
        out@ == defined(prices@),
{
    let mut out: Vec<Option<i64>> = Vec::new();
    let mut i: usize = 0;
    while i < prices.len()
        invariant
            i <= prices.len(),
            out@.len() == i,
            forall|j: int| 0 <= j < i ==> #[trigger] out@[j] == Some(prices@[j] as i64),
        decreases prices.len() - i,
    {
        out.push(Some(prices[i] as i64));
        i = i + 1;
    }
    assert(out@ =~= defined(prices@));
    out
}

/// Checks the shape of the bars against the periods: the three series must be
/// of one length, not empty, and no shorter than the span and base periods.
pub fn validate_market_data(highs: &[i32], lows: &[i32], closes: &[i32], params: &IchimokuParams) -> (r:
    Result<(), IchimokuError>)
    ensures
        match r {
            Ok(_) => bars_rejection(
                highs@.len() as int,
                lows@.len() as int,
                closes@.len() as int,
                *params,
            ) is None,
            Err(e) => bars_rejection(
                highs@.len() as int,
                lows@.len() as int,
                closes@.len() as int,
                *params,
            ) == Some(e),
        },
{
    if highs.len() != lows.len() || highs.len() != closes.len() {
        return Err(IchimokuError::InvalidInput(IndicatorError::MismatchedLengths));
    }
    if highs.len() == 0 {
        return Err(IchimokuError::InvalidInput(IndicatorError::EmptyInput));
    }
    if highs.len() < params.period_senkou || highs.len() < params.period_kijun {
        return Err(IchimokuError::InvalidInput(IndicatorError::InsufficientData));
    }
    Ok(())
}

/// The five lines of the cloud of bars that [`validate_market_data`] accepts.
pub fn calculate_ichimoku_values(highs: &[i32], lows: &[i32], closes: &[i32], params: &IchimokuParams) -> (cloud:
    IchimokuResult)
    requires
        highs.len() == lows.len(),
        highs.len() == closes.len(),
        params.period_kijun <= highs.len(),
    ensures
        is_cloud(cloud, highs@, lows@, closes@, *params),
{
    let tenkan_sen = calculate_midline(highs, lows, params.period_tenkan);
    let kijun_sen = calculate_midline(highs, lows, params.period_kijun);
    let mean = average_series(tenkan_sen.as_slice(), kijun_sen.as_slice());
    let senkou_span_a = shift_forward(mean.as_slice(), params.period_kijun);
    let span = calculate_midline(highs, lows, params.period_senkou);
    let senkou_span_b = shift_forward(span.as_slice(), params.period_kijun);
    let plain = all_defined(closes);
    let chikou_span = shift_backward(plain.as_slice(), params.period_kijun);
    IchimokuResult { tenkan_sen, kijun_sen, senkou_span_a, senkou_span_b, chikou_span }
}

/// The Ichimoku cloud of a bar series; a period left out takes its default.
pub fn ichimoku(
    highs: &[i32],
    lows: &[i32],
    closes: &[i32],
    period_tenkan: Option<usize>,
    period_kijun: Option<usize>,
    period_senkou: Option<usize>,
) -> (r: Result<IchimokuResult, IchimokuError>)
    ensures
        ({
            let params = IchimokuParams {
                period_tenkan: period_tenkan.unwrap_or(DEFAULT_TENKAN),
                period_kijun: period_kijun.unwrap_or(DEFAULT_KIJUN),
                period_senkou: period_senkou.unwrap_or(DEFAULT_SENKOU),
            };
            let first = params_rejection(
                params.period_tenkan as int,
                params.period_kijun as int,
                params.period_senkou as int,
            );
            let second = bars_rejection(
                highs@.len() as int,
                lows@.len() as int,
                closes@.len() as int,
                params,
            );
            match r {
                Ok(cloud) => first is None && second is None && is_cloud(
                    cloud,
                    highs@,
                    lows@,
                    closes@,
                    params,
                ),
                Err(e) => if first is Some {
                    first == Some(e)
                } else {
                    second == Some(e)
                },
            }
        }),
{
    let params = match IchimokuParams::new(period_tenkan, period_kijun, period_senkou) {
        Ok(p) => p,
        Err(e) => {
            return Err(e);
        },
    };
    match validate_market_data(highs, lows, closes, &params) {
        Ok(_) => {},
        Err(e) => {
            return Err(e);
        },
    }
    Ok(calculate_ichimoku_values(highs, lows, closes, &params))
}

} // verus!
