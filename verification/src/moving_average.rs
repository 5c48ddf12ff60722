use vstd::prelude::*;
use crate::error::IndicatorError;
use crate::fixed::lemma_div_brackets;
use crate::fixed::{floor_div, SCALE};
use crate::series::{all_within, holds, holds_if, scale, scaled, widen, widened};
use crate::smoothing::{calculate_ema, calculate_sma, ema_at, mean_at, sma_rejection};
use crate::window::sum;

verus! {

/// Why [`exponential_moving_average`] rejects an input, if it does.
pub open spec fn ema_rejection(len: int, period: int) -> Option<IndicatorError> {
    if len == 0 {
        Some(IndicatorError::EmptyInput)
    } else if period == 0 {
        Some(IndicatorError::InvalidPeriod)
    } else {
        None
    }
}

/// The simple moving average of a price series, aligned with the prices:
/// undefined before `period - 1`, and from there on the mean of the last
/// `period` prices, rounded down.
pub fn simple_moving_average(data: &[i32], period: usize) -> (r: Result<
    Vec<Option<i64>>,
    IndicatorError,
>)
    ensures
        match r {
            Ok(out) => {
                &&& sma_rejection(data@.len() as int, period as int) is None
                &&& out@.len() == data@.len()
                &&& forall|i: int|
                    0 <= i < out@.len() ==> holds_if(
                        #[trigger] out@[i],
                        i >= period - 1,
                        mean_at(widened(data@), period as int, i),
                    )
            },
            Err(e) => sma_rejection(data@.len() as int, period as int) == Some(e),
        },
{
    let wide: Vec<i64> = widen(data);
    calculate_sma(wide.as_slice(), period)
}

/// The exponential moving average at index `i >= period - 1`, in ticks: the
/// average of the prices taken in ten-thousandths of a tick, rounded down to
/// the tick.
pub open spec fn ema_in_ticks(prices: Seq<i32>, period: int, i: int) -> int {
    ema_at(scaled(prices), period, i) / (SCALE as int)
}

/// The exponential moving average of a price series, in ticks and aligned
/// with the prices: undefined before `period - 1` and wherever the series is
/// shorter than `period`; from there on seeded with the mean of the first
/// `period` prices and smoothed with factor `2 / (period + 1)`. The
/// recurrence runs in ten-thousandths of a tick, so that its rounding stays
/// far below the tick; with a period of one the output is the input.
pub fn exponential_moving_average(data: &[i32], period: usize) -> (r: Result<
    Vec<Option<i64>>,
    IndicatorError,
>)
    ensures
        match r {
            Ok(out) => {
                &&& ema_rejection(data@.len() as int, period as int) is None
                &&& out@.len() == data@.len()
                &&& forall|i: int|
                    0 <= i < out@.len() ==> holds_if(
                        #[trigger] out@[i],
                        i >= period - 1 && period <= data@.len(),
                        ema_in_ticks(data@, period as int, i),
                    )
                &&& period == 1 ==> forall|i: int|
                    0 <= i < out@.len() ==> #[trigger] out@[i] == Some(data@[i] as i64)
            },
            Err(e) => ema_rejection(data@.len() as int, period as int) == Some(e),
        },
{
    if data.len() == 0 {
        return Err(IndicatorError::EmptyInput);
    }
    if period == 0 {
        return Err(IndicatorError::InvalidPeriod);
    }
    let fine: Vec<i64> = scale(data);
    let averages: Vec<Option<i64>> = calculate_ema(fine.as_slice(), period);
    let n: usize = data.len();
    let mut out: Vec<Option<i64>> = Vec::new();
    let mut i: usize = 0;
    while i < n
        invariant
            i <= n,
            n == data.len(),
            period >= 1,
            fine@ == scaled(data@),
            forall|j: int| 0 <= j < fine@.len() ==> #[trigger] fine@[j] == SCALE * data@[j],
            all_within(fine@, -0x1388_0000_0000, 0x1388_0000_0000),
            averages@.len() == n,
            forall|j: int|
                0 <= j < n && (j < period - 1 || n < period) ==> #[trigger] averages@[j]
                    == None::<i64>,
            forall|j: int|
                period - 1 <= j < n && period <= n ==> holds(
                    #[trigger] averages@[j],
                    ema_at(fine@, period as int, j),
                ),
            out@.len() == i,
            forall|j: int|
                0 <= j < i ==> holds_if(
                    #[trigger] out@[j],
                    j >= period - 1 && period <= n,
                    ema_in_ticks(data@, period as int, j),
                ),
            period == 1 ==> forall|j: int| 0 <= j < i ==> #[trigger] out@[j] == Some(data@[j] as i64),
        decreases n - i,
    {
        proof {
            if i >= period - 1 && period <= n {
                crate::smoothing::lemma_smoothed_within(
                    fine@,
                    period as int,
                    2,
                    period + 1,
                    i as int,
                    -0x1388_0000_0000,
                    0x1388_0000_0000,
                );
                crate::fixed::lemma_quotient_bounds(
                    ema_at(fine@, period as int, i as int),
                    10_000,
                    -0x8000_0000,
                    0x8000_0000,
                );
                if period == 1 {
                    lemma_ema_of_period_one(fine@, i as int);
                    let x = data@[i as int] as int;
                    assert((SCALE * x) / (SCALE as int) == x) by (nonlinear_arith);
                }
            }
        }
        let value: Option<i64> = match averages[i] {
            Some(v) => Some(floor_div(v as i128, SCALE as i128) as i64),
            None => None,
        };
        out.push(value);
        i = i + 1;
    }
    Ok(out)
}

/// The mean at an index is the arithmetic mean of the window that ends there,
/// rounded down: `period` times the mean is at most the sum of the window,
/// and less than `period` short of it.
pub proof fn lemma_mean_is_arithmetic_mean(s: Seq<i64>, period: int, i: int)
    requires
        1 <= period <= i + 1 <= s.len(),
    ensures
        period * mean_at(s, period, i) <= sum(s, i + 1 - period, i + 1) < period * mean_at(
            s,
            period,
            i,
        ) + period,
{
    lemma_div_brackets(sum(s, i + 1 - period, i + 1), period);
}

/// With a period of one the exponential moving average is the series itself.
pub proof fn lemma_ema_of_period_one(s: Seq<i64>, i: int)
    requires
        0 <= i < s.len(),
    ensures
        ema_at(s, 1, i) == s[i],
{
    crate::smoothing::lemma_unit_factor_is_identity(s, 2, i);
}

} // verus!
