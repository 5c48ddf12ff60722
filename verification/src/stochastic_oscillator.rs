use vstd::prelude::*;
use crate::error::IndicatorError;
use crate::fixed::{lemma_share_range, share, share_signed, SCALE};
use crate::series::{
    all_prices, all_within, closes_within_bars, holds, holds_if, undefined, widen, widened,
};
use crate::smoothing::{lemma_mean_within, mean_at, smooth};
use crate::window::{
    lemma_window_extreme_is_extreme,
    lemma_window_extreme_is_price,
    max_in_window,
    min_in_window,
    window_max,
    window_min,
};

verus! {

/// The two lines of the oscillator, each aligned with the bars.
#[derive(Debug)]
pub struct StochasticResult {
    /// The fast line.
    pub percent_k: Vec<Option<i64>>,
    /// The rolling mean of the fast line.
    pub percent_d: Vec<Option<i64>>,
}

/// Where a close stands between a lowest low and a highest high, in basis
/// points of their distance; nothing where the high is not above the low.
pub open spec fn position_in_range(close: int, lowest: int, highest: int) -> int {
    if highest - lowest <= 0 {
        0
    } else {
        share(close - lowest, highest - lowest)
    }
}

/// The fast line at bar `i >= period - 1`: the position of the close between
/// the lowest low and the highest high of the `period` bars that end at `i`.
pub open spec fn percent_k_at(
    highs: Seq<i32>,
    lows: Seq<i32>,
    closes: Seq<i32>,
    period: int,
    i: int,
) -> int {
    position_in_range(
        closes[i] as int,
        window_min(widened(lows), i + 1 - period, i),
        window_max(widened(highs), i + 1 - period, i),
    )
}

/// The defined part of the fast line, as a series of its own.
pub open spec fn percent_k_tail(highs: Seq<i32>, lows: Seq<i32>, closes: Seq<i32>, period: int) -> Seq<
    i64,
> {
    Seq::new(
        (highs.len() - period + 1) as nat,
        |k: int| percent_k_at(highs, lows, closes, period, k + period - 1) as i64,
    )
}

/// Why [`stochastic_oscillator`] rejects an input, if it does.
pub open spec fn stochastic_rejection(
    highs: int,
    lows: int,
    closes: int,
    period: int,
    smoothing: int,
) -> Option<IndicatorError> {
    if period == 0 || smoothing == 0 {
        Some(IndicatorError::InvalidPeriod)
    } else if highs != lows || highs != closes {
        Some(IndicatorError::MismatchedLengths)
    } else if highs == 0 {
        Some(IndicatorError::EmptyInput)
    } else if period > highs {
        Some(IndicatorError::InvalidPeriod)
    } else {
        None
    }
}

/// Whether `lines` are the two lines of the bars for the given periods: the
/// fast line from bar `period - 1` on, its rolling mean over `smoothing`
/// entries from bar `period + smoothing - 2` on.
pub open spec fn is_stochastic(
    lines: StochasticResult,
    highs: Seq<i32>,
    lows: Seq<i32>,
    closes: Seq<i32>,
    period: int,
    smoothing: int,
) -> bool {
    &&& lines.percent_k@.len() == highs.len()
    &&& lines.percent_d@.len() == highs.len()
    &&& forall|i: int|
        0 <= i < highs.len() ==> holds_if(
            #[trigger] lines.percent_k@[i],
            i >= period - 1,
            percent_k_at(highs, lows, closes, period, i),
        )
    &&& forall|i: int|
        0 <= i < highs.len() ==> holds_if(
            #[trigger] lines.percent_d@[i],
            i >= period + smoothing - 2,
            mean_at(percent_k_tail(highs, lows, closes, period), smoothing, i - (period - 1)),
        )
}

/// Whether every defined position lies between nothing and one.
pub open spec fn is_share_series(s: Seq<Option<i64>>) -> bool {
    forall|i: int| 0 <= i < s.len() && (#[trigger] s[i]) is Some ==> 0 <= s[i]->Some_0 <= SCALE
}

/// Where a close stands between a lowest low and a highest high.
pub fn position_of(close: i32, lowest: i64, highest: i64) -> (r: i64)
    requires
        -0x8000_0000 <= lowest < 0x8000_0000,
        -0x8000_0000 <= highest < 0x8000_0000,
    ensures
        r == position_in_range(close as int, lowest as int, highest as int),
        lowest <= close <= highest ==> 0 <= r <= SCALE,
{
    let range: i64 = highest - lowest;
    proof {
        if lowest <= close <= highest && range > 0 {
            lemma_share_range(close - lowest, range as int);
        }
    }
    if range <= 0 {
        0
    } else {
        share_signed(close as i64 - lowest, range)
    }
}

/// The stochastic oscillator of a bar series, in basis points. Where every
/// close lies within its bar, both lines lie between nothing and one.
pub fn stochastic_oscillator(
    highs: &[i32],
    lows: &[i32],
    closes: &[i32],
    period: usize,
    smoothing_period: usize,
) -> (r: Result<StochasticResult, IndicatorError>)
    ensures
        match r {
            Ok(lines) => stochastic_rejection(
                highs@.len() as int,
                lows@.len() as int,
                closes@.len() as int,
                period as int,
                smoothing_period as int,
            ) is None && is_stochastic(
                lines,
                highs@,
                lows@,
                closes@,
                period as int,
                smoothing_period as int,
            ) && (closes_within_bars(highs@, lows@, closes@) ==> is_share_series(lines.percent_k@)
                && is_share_series(lines.percent_d@)),
            Err(e) => stochastic_rejection(
                highs@.len() as int,
                lows@.len() as int,
                closes@.len() as int,
                period as int,
                smoothing_period as int,
            ) == Some(e),
        },
{
    if period == 0 || smoothing_period == 0 {
        return Err(IndicatorError::InvalidPeriod);
    }
    let n: usize = highs.len();
    if n != lows.len() || n != closes.len() {
        return Err(IndicatorError::MismatchedLengths);
    }
    if n == 0 {
        return Err(IndicatorError::EmptyInput);
    }
    if period > n {
        return Err(IndicatorError::InvalidPeriod);
    }
    let wide_highs: Vec<i64> = widen(highs);
    let wide_lows: Vec<i64> = widen(lows);
    let highest: Vec<i64> = max_in_window(wide_highs.as_slice(), period);
    let lowest: Vec<i64> = min_in_window(wide_lows.as_slice(), period);
    let ghost p = period as int;
    let ghost smoothing = smoothing_period as int;
    let mut tail: Vec<i64> = Vec::new();
    let mut percent_k: Vec<Option<i64>> = undefined(period - 1);
    let mut k: usize = 0;
    while k < highest.len()
        invariant
            p == period,
            1 <= period <= n,
            n == highs.len(),
            n == lows.len(),
            n == closes.len(),
            wide_highs@ == widened(highs@),
            wide_lows@ == widened(lows@),
            all_prices(wide_highs@),
            all_prices(wide_lows@),
            highest@.len() == n - period + 1,
            lowest@.len() == n - period + 1,
            forall|j: int|
                0 <= j < highest@.len() ==> #[trigger] highest@[j] == window_max(
                    wide_highs@,
                    j,
                    j + period - 1,
                ),
            forall|j: int|
                0 <= j < lowest@.len() ==> #[trigger] lowest@[j] == window_min(
                    wide_lows@,
                    j,
                    j + period - 1,
                ),
            k <= highest@.len(),
            tail@.len() == k,
            percent_k@.len() == period - 1 + k,
            forall|j: int|
                0 <= j < k ==> #[trigger] tail@[j] == percent_k_at(
                    highs@,
                    lows@,
                    closes@,
                    p,
                    j + period - 1,
                ),
            forall|i: int|
                0 <= i < percent_k@.len() ==> holds_if(
                    #[trigger] percent_k@[i],
                    i >= period - 1,
                    percent_k_at(highs@, lows@, closes@, p, i),
                ),
            closes_within_bars(highs@, lows@, closes@) ==> is_share_series(percent_k@) && all_within(
                tail@,
                0,
                SCALE as int,
            ),
        decreases highest@.len() - k,
    {
        proof {
            if closes_within_bars(highs@, lows@, closes@) {
                let at = k + period - 1;
                lemma_window_extreme_is_extreme(true, wide_highs@, k as int, at);
                lemma_window_extreme_is_extreme(false, wide_lows@, k as int, at);
                assert(lows@[at] <= closes@[at] <= highs@[at]);
                assert(wide_highs@[at] == highs@[at]);
                assert(wide_lows@[at] == lows@[at]);
                assert(crate::window::wins(
                    true,
                    window_max(wide_highs@, k as int, at),
                    wide_highs@[at] as int,
                ));
                assert(crate::window::wins(
                    false,
                    window_min(wide_lows@, k as int, at),
                    wide_lows@[at] as int,
                ));
            }
            lemma_window_extreme_is_price(true, wide_highs@, k as int, k + period - 1);
            lemma_window_extreme_is_price(false, wide_lows@, k as int, k + period - 1);
            assert(highest@[k as int] == window_max(wide_highs@, k as int, k + period - 1));
            assert(lowest@[k as int] == window_min(wide_lows@, k as int, k + period - 1));
        }
        let v: i64 = position_of(closes[k + period - 1], lowest[k], highest[k]);
        tail.push(v);
        percent_k.push(Some(v));
        k = k + 1;
    }
    proof {
        assert(tail@ =~= percent_k_tail(highs@, lows@, closes@, p));
    }
    let means: Vec<Option<i64>> = smooth(tail.as_slice(), smoothing_period);
    let mut percent_d: Vec<Option<i64>> = undefined(period - 1);
    let mut j: usize = 0;
    while j < means.len()
        invariant
            p == period,
            smoothing == smoothing_period,
            1 <= period <= n,
            n == highs.len(),
            tail@ == percent_k_tail(highs@, lows@, closes@, p),
            means@.len() == n - period + 1,
            forall|i: int|
                0 <= i < means@.len() && i < smoothing - 1 ==> #[trigger] means@[i] == None::<i64>,
            forall|i: int|
                smoothing - 1 <= i < means@.len() ==> holds(
                    #[trigger] means@[i],
                    mean_at(tail@, smoothing, i),
                ),
            j <= means@.len(),
            percent_d@.len() == period - 1 + j,
            forall|i: int|
                0 <= i < percent_d@.len() ==> holds_if(
                    #[trigger] percent_d@[i],
                    i >= period + smoothing - 2,
                    mean_at(tail@, smoothing, i - (period - 1)),
                ),
            tail@.len() == n - period + 1,
            closes_within_bars(highs@, lows@, closes@) ==> all_within(tail@, 0, SCALE as int),
            closes_within_bars(highs@, lows@, closes@) ==> is_share_series(percent_d@),
            closes_within_bars(highs@, lows@, closes@) ==> is_share_series(percent_k@),
            smoothing >= 1,
        decreases means@.len() - j,
    {
        proof {
            if closes_within_bars(highs@, lows@, closes@) && j >= smoothing - 1 {
                lemma_mean_within(tail@, smoothing, j as int, 0, SCALE as int);
            }
            if j >= smoothing - 1 {
                assert(holds(means@[j as int], mean_at(tail@, smoothing, j as int)));
            } else {
                assert(means@[j as int] == None::<i64>);
            }
        }
        percent_d.push(means[j]);
        j = j + 1;
    }
    Ok(StochasticResult { percent_k, percent_d })
}

} // verus!
