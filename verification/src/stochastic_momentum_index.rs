use vstd::prelude::*;
use crate::error::IndicatorError;
use crate::fixed::{lemma_quotient_bounds, share, share_signed, SCALE};
use crate::series::{
    all_prices, all_within, closes_within_bars, holds_if, undefined, widen, widened,
};
use crate::smoothing::{
    double_ema,
    double_ema_at,
    lemma_double_ema_monotone,
    lemma_double_ema_of_negation,
    lemma_double_ema_within,
    negation_of,
    pointwise_le,
};
use crate::window::{
    lemma_window_extreme_is_extreme,
    lemma_window_extreme_is_price,
    max_in_window,
    min_in_window,
    window_max,
    window_min,
};

verus! {

/// The lookback when none is given.
pub const DEFAULT_LOOKBACK: usize = 14;

/// The second smoothing period when none is given.
pub const DEFAULT_SMOOTHING: usize = 3;

/// The distance from the lowest low to the highest high of the `period` bars
/// that end at bar `i`.
pub open spec fn range_at(highs: Seq<i32>, lows: Seq<i32>, period: int, i: int) -> int {
    window_max(widened(highs), i + 1 - period, i) - window_min(widened(lows), i + 1 - period, i)
}

/// Twice the distance of the close at bar `i` from the midpoint between the
/// highest high and the lowest low of the `period` bars that end there.
pub open spec fn double_distance_at(
    highs: Seq<i32>,
    lows: Seq<i32>,
    closes: Seq<i32>,
    period: int,
    i: int,
) -> int {
    2 * closes[i] - (window_max(widened(highs), i + 1 - period, i) + window_min(
        widened(lows),
        i + 1 - period,
        i,
    ))
}

/// The double distances in ten-thousandths of a tick: entry `k` belongs to
/// bar `k + period - 1`.
pub open spec fn midpoint_distances(
    highs: Seq<i32>,
    lows: Seq<i32>,
    closes: Seq<i32>,
    period: int,
) -> Seq<i64> {
    Seq::new(
        if highs.len() >= period {
            (highs.len() - period + 1) as nat
        } else {
            0
        },
        |k: int| (SCALE * double_distance_at(highs, lows, closes, period, k + period - 1)) as i64,
    )
}

/// The ranges in ten-thousandths of a tick and with a minus sign: entry `k`
/// belongs to bar `k + period - 1`. The sign makes a rounded-down average of
/// this series a rounded-up average of the ranges.
pub open spec fn negated_ranges(highs: Seq<i32>, lows: Seq<i32>, period: int) -> Seq<i64> {
    Seq::new(
        if highs.len() >= period {
            (highs.len() - period + 1) as nat
        } else {
            0
        },
        |k: int| (-SCALE * range_at(highs, lows, period, k + period - 1)) as i64,
    )
}

/// The index of a smoothed double distance and a smoothed range, in basis
/// points: the distance as a share of half the range, which is the double
/// distance as a share of the range; nothing where the range is not positive.
pub open spec fn momentum(double_distance: int, range: int) -> int {
    if range <= 0 {
        0
    } else {
        share(double_distance, range)
    }
}

/// The doubly smoothed double distance at bar `i`, rounded down.
pub open spec fn smooth_distance_at(
    highs: Seq<i32>,
    lows: Seq<i32>,
    closes: Seq<i32>,
    period: int,
    smoothing: int,
    i: int,
) -> int {
    double_ema_at(midpoint_distances(highs, lows, closes, period), period, smoothing, i - (period - 1))
}

/// The doubly smoothed range at bar `i`, rounded up, so that it is never less
/// than the smoothed distance of closes that lie within their bars.
pub open spec fn smooth_range_at(
    highs: Seq<i32>,
    lows: Seq<i32>,
    period: int,
    smoothing: int,
    i: int,
) -> int {
    -double_ema_at(negated_ranges(highs, lows, period), period, smoothing, i - (period - 1))
}

/// The index at bar `i >= 2 * period + smoothing - 3`: the [`momentum`] of the
/// doubly smoothed distances and ranges.
pub open spec fn smi_at(
    highs: Seq<i32>,
    lows: Seq<i32>,
    closes: Seq<i32>,
    period: int,
    smoothing: int,
    i: int,
) -> int {
    momentum(
        smooth_distance_at(highs, lows, closes, period, smoothing, i),
        smooth_range_at(highs, lows, period, smoothing, i),
    )
}

/// Why [`stochastic_momentum_index`] rejects an input, if it does.
pub open spec fn smi_rejection(highs: int, lows: int, closes: int, period: int, smoothing: int) -> Option<
    IndicatorError,
> {
    if period == 0 || smoothing == 0 {
        Some(IndicatorError::InvalidPeriod)
    } else if highs != lows || highs != closes {
        Some(IndicatorError::MismatchedLengths)
    } else {
        None
    }
}

/// The terms of the index fit in 64 bits, and a close within its bar lies no
/// further from the midpoint than half the range.
pub proof fn lemma_distance_terms(
    highs: Seq<i32>,
    lows: Seq<i32>,
    closes: Seq<i32>,
    period: int,
    i: int,
)
    requires
        highs.len() == lows.len(),
        highs.len() == closes.len(),
        1 <= period <= i + 1 <= highs.len(),
    ensures
        -0x4e20_0000_0000 <= SCALE * double_distance_at(highs, lows, closes, period, i)
            <= 0x4e20_0000_0000,
        -0x2710_0000_0000 <= -SCALE * range_at(highs, lows, period, i) <= 0x2710_0000_0000,
        closes_within_bars(highs, lows, closes) ==> -SCALE * range_at(highs, lows, period, i)
            <= SCALE * double_distance_at(highs, lows, closes, period, i) <= SCALE * range_at(
            highs,
            lows,
            period,
            i,
        ),
{
    let wh = widened(highs);
    let wl = widened(lows);
    lemma_window_extreme_is_price(true, wh, i + 1 - period, i);
    lemma_window_extreme_is_price(false, wl, i + 1 - period, i);
    lemma_window_extreme_is_extreme(true, wh, i + 1 - period, i);
    lemma_window_extreme_is_extreme(false, wl, i + 1 - period, i);
    let d = double_distance_at(highs, lows, closes, period, i);
    let r = range_at(highs, lows, period, i);
    assert(-0x2_0000_0000 <= d <= 0x2_0000_0000);
    assert(-0x1_0000_0000 <= r <= 0x1_0000_0000);
    assert(-0x4e20_0000_0000 <= SCALE * d <= 0x4e20_0000_0000) by (nonlinear_arith)
        requires
            -0x2_0000_0000 <= d <= 0x2_0000_0000,
    ;
    assert(-0x2710_0000_0000 <= -SCALE * r <= 0x2710_0000_0000) by (nonlinear_arith)
        requires
            -0x1_0000_0000 <= r <= 0x1_0000_0000,
    ;
    if closes_within_bars(highs, lows, closes) {
        assert(lows[i] <= closes[i] <= highs[i]);
        assert(wh[i] == highs[i]);
        assert(wl[i] == lows[i]);
        assert(crate::window::wins(true, window_max(wh, i + 1 - period, i), wh[i] as int));
        assert(crate::window::wins(false, window_min(wl, i + 1 - period, i), wl[i] as int));
        assert(-r <= d <= r);
        assert(-SCALE * r <= SCALE * d <= SCALE * r) by (nonlinear_arith)
            requires
                -r <= d <= r,
        ;
    }
}

/// Where every close lies within its bar, the index lies between minus one
/// and one.
pub proof fn lemma_smi_within(
    highs: Seq<i32>,
    lows: Seq<i32>,
    closes: Seq<i32>,
    period: int,
    smoothing: int,
    i: int,
)
    requires
        highs.len() == lows.len(),
        highs.len() == closes.len(),
        1 <= period,
        1 <= smoothing,
        2 * period + smoothing - 3 <= i < highs.len(),
        closes_within_bars(highs, lows, closes),
    ensures
        -SCALE <= smi_at(highs, lows, closes, period, smoothing, i) <= SCALE,
{
    let dist = midpoint_distances(highs, lows, closes, period);
    let neg = negated_ranges(highs, lows, period);
    let pos = Seq::new(neg.len(), |k: int| (SCALE * range_at(highs, lows, period, k + period - 1)) as i64);
    assert(dist.len() == neg.len() && neg.len() == pos.len());
    assert forall|k: int| 0 <= k < neg.len() implies #[trigger] neg[k] <= dist[k] by {
        lemma_distance_terms(highs, lows, closes, period, k + period - 1);
    }
    assert forall|k: int| 0 <= k < dist.len() implies #[trigger] dist[k] <= pos[k] by {
        lemma_distance_terms(highs, lows, closes, period, k + period - 1);
    }
    assert forall|k: int| 0 <= k < pos.len() implies #[trigger] neg[k] == -pos[k] by {
        lemma_distance_terms(highs, lows, closes, period, k + period - 1);
    }
    assert forall|k: int| 0 <= k < pos.len() implies -0x7fff_ffff_ffff_ffff <= #[trigger] pos[k]
        <= 0x7fff_ffff_ffff_ffff by {
        lemma_distance_terms(highs, lows, closes, period, k + period - 1);
    }
    assert(pointwise_le(neg, dist));
    assert(pointwise_le(dist, pos));
    assert(negation_of(neg, pos));
    let j = i - (period - 1);
    lemma_double_ema_monotone(neg, dist, period, smoothing, j);
    lemma_double_ema_monotone(dist, pos, period, smoothing, j);
    lemma_double_ema_of_negation(pos, neg, period, smoothing, j);
    let d = smooth_distance_at(highs, lows, closes, period, smoothing, i);
    let r = smooth_range_at(highs, lows, period, smoothing, i);
    assert(-r <= d <= r);
    if r > 0 {
        assert(r * (-SCALE) <= SCALE * d <= r * SCALE) by (nonlinear_arith)
            requires
                -r <= d <= r,
        ;
        lemma_quotient_bounds(SCALE * d, r, -SCALE as int, SCALE as int);
    }
}

/// The stochastic momentum index of a bar series, in basis points, aligned
/// with the bars: undefined before bar `2 * period + smoothing - 3`, so at
/// every bar of a series shorter than that. Distances and ranges are smoothed
/// in ten-thousandths of a tick, the distances rounded down and the ranges
/// rounded up. Where every close lies within its bar, the index lies between
/// minus one and one. A period left out takes its default.
pub fn stochastic_momentum_index(
    highs: &[i32],
    lows: &[i32],
    closes: &[i32],
    period_k: Option<usize>,
    period_d: Option<usize>,
) -> (r: Result<Vec<Option<i64>>, IndicatorError>)
    ensures
        ({
            let p = period_k.unwrap_or(DEFAULT_LOOKBACK) as int;
            let sm = period_d.unwrap_or(DEFAULT_SMOOTHING) as int;
            match r {
                Ok(out) => {
                    &&& smi_rejection(
                        highs@.len() as int,
                        lows@.len() as int,
                        closes@.len() as int,
                        p,
                        sm,
                    ) is None
                    &&& out@.len() == highs@.len()
                    &&& forall|i: int|
                        0 <= i < out@.len() ==> holds_if(
                            #[trigger] out@[i],
                            i >= 2 * p + sm - 3,
                            smi_at(highs@, lows@, closes@, p, sm, i),
                        )
                    &&& closes_within_bars(highs@, lows@, closes@) ==> forall|i: int|
                        0 <= i < out@.len() && (#[trigger] out@[i]) is Some ==> -SCALE
                            <= out@[i]->Some_0 <= SCALE
                },
                Err(e) => smi_rejection(
                    highs@.len() as int,
                    lows@.len() as int,
                    closes@.len() as int,
                    p,
                    sm,
                ) == Some(e),
            }
        }),
{
    let lookback: usize = match period_k {
        Some(v) => v,
        None => DEFAULT_LOOKBACK,
    };
    let smoothing: usize = match period_d {
        Some(v) => v,
        None => DEFAULT_SMOOTHING,
    };
    if lookback == 0 || smoothing == 0 {
        return Err(IndicatorError::InvalidPeriod);
    }
    let n: usize = highs.len();
    if n != lows.len() || n != closes.len() {
        return Err(IndicatorError::MismatchedLengths);
    }
    if n < lookback {
        return Ok(undefined(n));
    }
    let ghost p = lookback as int;
    let ghost sm = smoothing as int;
    let wide_highs: Vec<i64> = widen(highs);
    let wide_lows: Vec<i64> = widen(lows);
    let highest: Vec<i64> = max_in_window(wide_highs.as_slice(), lookback);
    let lowest: Vec<i64> = min_in_window(wide_lows.as_slice(), lookback);
    let mut diff: Vec<i64> = Vec::new();
    let mut range: Vec<i64> = Vec::new();
    let mut k: usize = 0;
    while k < highest.len()
        invariant
            p == lookback,
            1 <= lookback <= n,
            n == highs.len(),
            n == lows.len(),
            n == closes.len(),
            wide_highs@ == widened(highs@),
            wide_lows@ == widened(lows@),
            all_prices(wide_highs@),
            all_prices(wide_lows@),
            highest@.len() == n - lookback + 1,
            lowest@.len() == n - lookback + 1,
            forall|j: int|
                0 <= j < highest@.len() ==> #[trigger] highest@[j] == window_max(
                    wide_highs@,
                    j,
                    j + lookback - 1,
                ),
            forall|j: int|
                0 <= j < lowest@.len() ==> #[trigger] lowest@[j] == window_min(
                    wide_lows@,
                    j,
                    j + lookback - 1,
                ),
            k <= highest@.len(),
            diff@.len() == k,
            range@.len() == k,
            forall|j: int|
                0 <= j < k ==> #[trigger] diff@[j] == midpoint_distances(highs@, lows@, closes@, p)[j],
            forall|j: int| 0 <= j < k ==> #[trigger] range@[j] == negated_ranges(highs@, lows@, p)[j],
            all_within(diff@, -0x4e20_0000_0000, 0x4e20_0000_0000),
            all_within(range@, -0x2710_0000_0000, 0x2710_0000_0000),
        decreases highest@.len() - k,
    {
        proof {
            lemma_window_extreme_is_price(true, wide_highs@, k as int, k + lookback - 1);
            lemma_window_extreme_is_price(false, wide_lows@, k as int, k + lookback - 1);
            assert(highest@[k as int] == window_max(wide_highs@, k as int, k + lookback - 1));
            assert(lowest@[k as int] == window_min(wide_lows@, k as int, k + lookback - 1));
            lemma_distance_terms(highs@, lows@, closes@, p, k + lookback - 1);
        }
        let hh: i64 = highest[k];
        let ll: i64 = lowest[k];
        let c: i64 = closes[k + lookback - 1] as i64;
        diff.push(SCALE * (2 * c - (hh + ll)));
        range.push(-SCALE * (hh - ll));
        k = k + 1;
    }
    proof {
        assert(diff@ =~= midpoint_distances(highs@, lows@, closes@, p));
        assert(range@ =~= negated_ranges(highs@, lows@, p));
    }
    let smooth_diff: Vec<Option<i64>> = double_ema(diff.as_slice(), lookback, smoothing);
    let smooth_range: Vec<Option<i64>> = double_ema(range.as_slice(), lookback, smoothing);
    let mut out: Vec<Option<i64>> = undefined(lookback - 1);
    let mut j: usize = 0;
    while j < smooth_diff.len()
        invariant
            p == lookback,
            sm == smoothing,
            1 <= lookback <= n,
            1 <= smoothing,
            n == highs.len(),
            n == lows.len(),
            n == closes.len(),
            diff@ == midpoint_distances(highs@, lows@, closes@, p),
            range@ == negated_ranges(highs@, lows@, p),
            diff@.len() == n - lookback + 1,
            range@.len() == n - lookback + 1,
            all_within(diff@, -0x4e20_0000_0000, 0x4e20_0000_0000),
            all_within(range@, -0x2710_0000_0000, 0x2710_0000_0000),
            smooth_diff@.len() == diff@.len(),
            smooth_range@.len() == range@.len(),
            forall|i: int|
                0 <= i < smooth_diff@.len() ==> holds_if(
                    #[trigger] smooth_diff@[i],
                    i >= p + sm - 2,
                    double_ema_at(diff@, p, sm, i),
                ),
            forall|i: int|
                0 <= i < smooth_range@.len() ==> holds_if(
                    #[trigger] smooth_range@[i],
                    i >= p + sm - 2,
                    double_ema_at(range@, p, sm, i),
                ),
            j <= smooth_diff@.len(),
            out@.len() == lookback - 1 + j,
            forall|i: int|
                0 <= i < out@.len() ==> holds_if(
                    #[trigger] out@[i],
                    i >= 2 * p + sm - 3,
                    smi_at(highs@, lows@, closes@, p, sm, i),
                ),
            closes_within_bars(highs@, lows@, closes@) ==> forall|i: int|
                0 <= i < out@.len() && (#[trigger] out@[i]) is Some ==> -SCALE <= out@[i]->Some_0
                    <= SCALE,
        decreases smooth_diff@.len() - j,
    {
        proof {
            assert(holds_if(smooth_diff@[j as int], j >= p + sm - 2, double_ema_at(diff@, p, sm, j as int)));
            assert(holds_if(
                smooth_range@[j as int],
                j >= p + sm - 2,
                double_ema_at(range@, p, sm, j as int),
            ));
            if j >= p + sm - 2 {
                lemma_double_ema_within(diff@, p, sm, j as int, -0x4e20_0000_0000, 0x4e20_0000_0000);
                lemma_double_ema_within(range@, p, sm, j as int, -0x2710_0000_0000, 0x2710_0000_0000);
                if closes_within_bars(highs@, lows@, closes@) {
                    lemma_smi_within(highs@, lows@, closes@, p, sm, j + lookback - 1);
                }
            }
        }
        let value: Option<i64> = match (smooth_diff[j], smooth_range[j]) {
            (Some(d), Some(r)) => {
                if -r <= 0 {
                    Some(0)
                } else {
                    Some(share_signed(d, -r))
                }
            },
            _ => None,
        };
        out.push(value);
        j = j + 1;
    }
    Ok(out)
}

} // verus!
