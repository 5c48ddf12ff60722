use vstd::prelude::*;
use crate::error::IndicatorError;
use crate::fixed::{floor_div, SCALE};
use crate::moving_average_convergence_divergence::{
    is_macd,
    macd_at,
    macd_lines,
    signal_at,
    MACDResult,
};
use crate::relative_strength_index::{avg_gain_at, avg_loss_at, relative_strength_index, strength};
use crate::series::{holds_if, scaled, widen, widened};
use crate::window::{lemma_sum_slide, sum};

verus! {

/// The period of the moving average and of the strength index when none is
/// given.
pub const DEFAULT_PERIOD: usize = 14;

/// The fast period of the convergence line that the meter consults.
pub const TREND_FAST: usize = 12;

/// The slow period of the convergence line that the meter consults.
pub const TREND_SLOW: usize = 26;

/// The signal period of the convergence line that the meter consults.
pub const TREND_SIGNAL: usize = 9;

/// The first bar at which the histogram of the convergence line is defined.
pub const FIRST_HISTOGRAM: usize = 33;

/// The weight of a vote that only has a sign: one half, in basis points.
pub const HALF: i64 = 5_000;

/// The vote of a quantity that only has a sign: half for, half against, or
/// none.
pub open spec fn sign_vote(x: int) -> int {
    if x > 0 {
        HALF as int
    } else if x < 0 {
        -HALF
    } else {
        0
    }
}

/// The vote of a strength index: twice its distance from one half.
pub open spec fn strength_vote(rsi: int) -> int {
    2 * (rsi - HALF)
}

/// The slope of the moving average over `period` at bar `i >= period`, times
/// `period`: the price that enters the window less the one that leaves it.
pub open spec fn slope_at(s: Seq<i64>, period: int, i: int) -> int {
    s[i] - s[i - period]
}

/// The slope is the difference of two neighbouring window sums, which is
/// `period` times the difference of their exact means.
pub proof fn lemma_slope_is_change_of_sum(s: Seq<i64>, period: int, i: int)
    requires
        1 <= period <= i < s.len(),
    ensures
        slope_at(s, period, i) == sum(s, i + 1 - period, i + 1) - sum(s, i - period, i as int),
{
    lemma_sum_slide(s, i - period, i);
}

/// The meter at bar `i`: the mean of three votes, rounded down. They are the
/// sign of the slope of the moving average, the strength index, and the sign
/// of the histogram of the convergence line.
pub open spec fn trend_at(closes: Seq<i32>, period: int, i: int) -> int {
    let s = widened(closes);
    let fine = scaled(closes);
    (sign_vote(slope_at(s, period, i)) + strength_vote(
        strength(avg_gain_at(s, period, i), avg_loss_at(s, period, i)),
    ) + sign_vote(
        macd_at(fine, TREND_FAST as int, TREND_SLOW as int, i) - signal_at(
            fine,
            TREND_FAST as int,
            TREND_SLOW as int,
            TREND_SIGNAL as int,
            i,
        ),
    )) / 3
}

/// Whether the period is rejected: it is less than two, or longer than the
/// series.
pub open spec fn trend_rejected(len: int, period: int) -> bool {
    period < 2 || len < period
}

/// The vote of the difference of `a` and `b`.
pub fn vote_of(a: i64, b: i64) -> (r: i64)
    ensures
        r == sign_vote(a - b),
{
    if a > b {
        HALF
    } else if a < b {
        -HALF
    } else {
        0
    }
}

/// The trend meter of a series of closes, in basis points between minus one
/// and one, aligned with the closes: defined from the first bar at which the
/// slope, the strength index and the histogram all are, which is the later of
/// `period` and [`FIRST_HISTOGRAM`]. A period left out takes its default.
pub fn trends_meter(closes: &[i32], period: Option<usize>) -> (r: Result<
    Vec<Option<i64>>,
    IndicatorError,
>)
    ensures
        ({
            let p = period.unwrap_or(DEFAULT_PERIOD) as int;
            match r {
                Ok(out) => {
                    &&& !trend_rejected(closes@.len() as int, p)
                    &&& out@.len() == closes@.len()
                    &&& forall|i: int|
                        0 <= i < out@.len() ==> holds_if(
                            #[trigger] out@[i],
                            i >= p && i >= FIRST_HISTOGRAM,
                            trend_at(closes@, p, i),
                        )
                    &&& forall|i: int|
                        0 <= i < out@.len() && (#[trigger] out@[i]) is Some ==> -SCALE
                            <= out@[i]->Some_0 <= SCALE
                },
                Err(e) => e == IndicatorError::InvalidPeriod && trend_rejected(
                    closes@.len() as int,
                    p,
                ),
            }
        }),
{
    let period: usize = match period {
        Some(v) => v,
        None => DEFAULT_PERIOD,
    };
    let n: usize = closes.len();
    if period < 2 || n < period {
        return Err(IndicatorError::InvalidPeriod);
    }
    let ghost p = period as int;
    let ghost s = widened(closes@);
    let wide: Vec<i64> = widen(closes);
    let rsi: Vec<i64> = match relative_strength_index(closes, period) {
        Ok(v) => v,
        Err(_) => Vec::new(),
    };
    let lines: Option<MACDResult> = match macd_lines(closes, TREND_FAST, TREND_SLOW, TREND_SIGNAL) {
        Ok(l) => Some(l),
        Err(_) => None,
    };
    let mut out: Vec<Option<i64>> = Vec::new();
    let mut i: usize = 0;
    while i < n
        invariant
            i <= n,
            n == closes.len(),
            p == period,
            2 <= period <= n,
            s == widened(closes@),
            s.len() == n,
            wide@ == s,
            rsi@.len() == n - period,
            forall|k: int|
                0 <= k < rsi@.len() ==> #[trigger] rsi@[k] == strength(
                    avg_gain_at(s, p, k + p),
                    avg_loss_at(s, p, k + p),
                ),
            forall|k: int| 0 <= k < rsi@.len() ==> 0 <= #[trigger] rsi@[k] <= SCALE,
            lines is Some ==> is_macd(
                lines->Some_0,
                scaled(closes@),
                TREND_FAST as int,
                TREND_SLOW as int,
                TREND_SIGNAL as int,
            ),
            lines is None ==> n < TREND_SLOW,
            out@.len() == i,
            forall|j: int|
                0 <= j < i ==> holds_if(
                    #[trigger] out@[j],
                    j >= p && j >= FIRST_HISTOGRAM,
                    trend_at(closes@, p, j),
                ),
            forall|j: int|
                0 <= j < i && (#[trigger] out@[j]) is Some ==> -SCALE <= out@[j]->Some_0 <= SCALE,
        decreases n - i,
    {
        let mut value: Option<i64> = None;
        if i >= period && i >= FIRST_HISTOGRAM {
            match &lines {
                Some(l) => {
                    proof {
                        assert(rsi@[i - p] == strength(
                            avg_gain_at(s, p, i - p + p),
                            avg_loss_at(s, p, i - p + p),
                        ));
                        assert(holds_if(
                            l.histogram@[i as int],
                            i >= crate::moving_average_convergence_divergence::macd_start(
                                TREND_FAST as int,
                                TREND_SLOW as int,
                            ) + TREND_SIGNAL - 1,
                            macd_at(scaled(closes@), TREND_FAST as int, TREND_SLOW as int, i as int)
                                - signal_at(
                                scaled(closes@),
                                TREND_FAST as int,
                                TREND_SLOW as int,
                                TREND_SIGNAL as int,
                                i as int,
                            ),
                        ));
                    }
                    let now: i64 = wide[i];
                    let before: i64 = wide[i - period];
                    let bar: i64 = match l.histogram[i] {
                        Some(v) => v,
                        None => 0,
                    };
                    let total: i64 = vote_of(now, before) + 2 * (rsi[i - period] - HALF) + vote_of(
                        bar,
                        0,
                    );
                    proof {
                        crate::fixed::lemma_quotient_bounds(total as int, 3, -SCALE as int, SCALE as int);
                    }
                    value = Some(floor_div(total as i128, 3) as i64);
                },
                None => {},
            }
        }
        out.push(value);
        i = i + 1;
    }
    Ok(out)
}

} // verus!
