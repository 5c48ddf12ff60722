use vstd::prelude::*;
use crate::error::IndicatorError;
use crate::fixed::{abs, max2, share, share_of, SCALE};
use crate::series::{all_within, holds, holds_if, undefined};
use crate::smoothing::{lemma_smoothed_within, wilder_at, wilder_smooth};

verus! {

/// The true range of bar `i >= 1`: the largest of the bar's spread and the
/// distances of its high and of its low from the close before.
pub open spec fn true_range_at(high: Seq<i32>, low: Seq<i32>, close: Seq<i32>, i: int) -> int {
    max2(
        max2(high[i] - low[i], abs(high[i] - close[i - 1])),
        abs(low[i] - close[i - 1]),
    )
}

/// The upward movement of bar `i >= 1`: the rise of the high, where it is
/// positive and larger than the fall of the low.
pub open spec fn plus_dm_at(high: Seq<i32>, low: Seq<i32>, i: int) -> int {
    let up = high[i] - high[i - 1];
    let down = low[i - 1] - low[i];
    if up > down && up > 0 {
        up
    } else {
        0
    }
}

/// The downward movement of bar `i >= 1`: the fall of the low, where it is
/// positive and larger than the rise of the high.
pub open spec fn minus_dm_at(high: Seq<i32>, low: Seq<i32>, i: int) -> int {
    let up = high[i] - high[i - 1];
    let down = low[i - 1] - low[i];
    if down > up && down > 0 {
        down
    } else {
        0
    }
}

/// The true ranges of bars `1..`, in ten-thousandths of a tick, as a series
/// of its own.
pub open spec fn true_ranges(high: Seq<i32>, low: Seq<i32>, close: Seq<i32>) -> Seq<i64> {
    Seq::new(
        if high.len() > 0 {
            (high.len() - 1) as nat
        } else {
            0
        },
        |j: int| (SCALE * true_range_at(high, low, close, j + 1)) as i64,
    )
}

/// The upward movements of bars `1..`, in ten-thousandths of a tick, as a
/// series of its own.
pub open spec fn plus_dms(high: Seq<i32>, low: Seq<i32>) -> Seq<i64> {
    Seq::new(
        if high.len() > 0 {
            (high.len() - 1) as nat
        } else {
            0
        },
        |j: int| (SCALE * plus_dm_at(high, low, j + 1)) as i64,
    )
}

/// The downward movements of bars `1..`, in ten-thousandths of a tick, as a
/// series of its own.
pub open spec fn minus_dms(high: Seq<i32>, low: Seq<i32>) -> Seq<i64> {
    Seq::new(
        if high.len() > 0 {
            (high.len() - 1) as nat
        } else {
            0
        },
        |j: int| (SCALE * minus_dm_at(high, low, j + 1)) as i64,
    )
}

/// A directional indicator: the smoothed movement as a share of the smoothed
/// true range, in basis points, and nothing where the range is nothing.
pub open spec fn directional_indicator(movement: int, range: int) -> int {
    if range == 0 {
        0
    } else {
        share(movement, range)
    }
}

/// The directional index of two directional indicators: the share of their
/// distance in their sum, in basis points, and nothing where the sum is
/// nothing.
pub open spec fn directional_index(plus_di: int, minus_di: int) -> int {
    if plus_di + minus_di == 0 {
        0
    } else {
        share(abs(plus_di - minus_di), plus_di + minus_di)
    }
}

/// The directional index at bar `i >= period`, from Wilder's averages of the
/// movements and of the true range.
pub open spec fn dx_at(high: Seq<i32>, low: Seq<i32>, close: Seq<i32>, period: int, i: int) -> int {
    let range = wilder_at(true_ranges(high, low, close), period, i - 1);
    directional_index(
        directional_indicator(wilder_at(plus_dms(high, low), period, i - 1), range),
        directional_indicator(wilder_at(minus_dms(high, low), period, i - 1), range),
    )
}

/// The directional indices of bars `period..`, as a series of its own.
pub open spec fn dx_series(high: Seq<i32>, low: Seq<i32>, close: Seq<i32>, period: int) -> Seq<i64> {
    Seq::new(
        if high.len() > period {
            (high.len() - period) as nat
        } else {
            0
        },
        |k: int| dx_at(high, low, close, period, k + period) as i64,
    )
}

/// The average directional index at bar `i >= 2 * period - 1`: Wilder's
/// average of the directional indices.
pub open spec fn adx_at(high: Seq<i32>, low: Seq<i32>, close: Seq<i32>, period: int, i: int) -> int {
    wilder_at(dx_series(high, low, close, period), period, i - period)
}

/// Why [`directional_movement_index`] rejects an input, if it does.
pub open spec fn dmi_rejection(highs: int, lows: int, closes: int, period: int) -> Option<
    IndicatorError,
> {
    if period == 0 {
        Some(IndicatorError::InvalidPeriod)
    } else if highs != lows || highs != closes {
        Some(IndicatorError::MismatchedLengths)
    } else if highs < period {
        Some(IndicatorError::InvalidPeriod)
    } else {
        None
    }
}

/// A quantity of at most the largest distance between two prices, taken in
/// ten-thousandths of a tick, fits in 64 bits.
pub proof fn lemma_scaled_fits(x: int)
    requires
        0 <= x <= 0xffff_ffff,
    ensures
        0 <= SCALE * x <= 0x2710_0000_0000,
{
    assert(0 <= SCALE * x <= 0x2710_0000_0000) by (nonlinear_arith)
        requires
            0 <= x <= 0xffff_ffff,
    ;
}

/// The true range of bar `index`.
pub fn true_range(high: &[i32], low: &[i32], close: &[i32], index: usize) -> (r: i64)
    requires
        1 <= index < high.len(),
        index < low.len(),
        index < close.len(),
    ensures
        r == true_range_at(high@, low@, close@, index as int),
        0 <= r <= 0xffff_ffff,
{
    let h: i64 = high[index] as i64;
    let l: i64 = low[index] as i64;
    let c: i64 = close[index - 1] as i64;
    let tr1: i64 = h - l;
    let tr2: i64 = if h >= c {
        h - c
    } else {
        c - h
    };
    let tr3: i64 = if l >= c {
        l - c
    } else {
        c - l
    };
    let m: i64 = if tr1 >= tr2 {
        tr1
    } else {
        tr2
    };
    if m >= tr3 {
        m
    } else {
        tr3
    }
}

/// The upward and the downward movement of bar `index`.
pub fn directional_movement(high: &[i32], low: &[i32], index: usize) -> (r: (i64, i64))
    requires
        1 <= index < high.len(),
        index < low.len(),
    ensures
        r.0 == plus_dm_at(high@, low@, index as int),
        r.1 == minus_dm_at(high@, low@, index as int),
        0 <= r.0 <= 0xffff_ffff,
        0 <= r.1 <= 0xffff_ffff,
{
    let up_move: i64 = high[index] as i64 - high[index - 1] as i64;
    let down_move: i64 = low[index - 1] as i64 - low[index] as i64;
    let plus_dm: i64 = if up_move > down_move && up_move > 0 {
        up_move
    } else {
        0
    };
    let minus_dm: i64 = if down_move > up_move && down_move > 0 {
        down_move
    } else {
        0
    };
    (plus_dm, minus_dm)
}

/// The directional index of smoothed movements and a smoothed true range.
pub fn directional_index_of(plus_dm: i64, minus_dm: i64, range: i64) -> (r: i64)
    requires
        0 <= plus_dm <= 0x2710_0000_0000,
        0 <= minus_dm <= 0x2710_0000_0000,
        0 <= range,
    ensures
        r == directional_index(
            directional_indicator(plus_dm as int, range as int),
            directional_indicator(minus_dm as int, range as int),
        ),
        0 <= r <= SCALE,
{
    let plus_di: i64 = if range == 0 {
        0
    } else {
        share_of(plus_dm, range)
    };
    let minus_di: i64 = if range == 0 {
        0
    } else {
        share_of(minus_dm, range)
    };
    assert(SCALE * plus_dm <= 10_000 * 0x2710_0000_0000) by (nonlinear_arith)
        requires
            0 <= plus_dm <= 0x2710_0000_0000,
    ;
    assert(SCALE * minus_dm <= 10_000 * 0x2710_0000_0000) by (nonlinear_arith)
        requires
            0 <= minus_dm <= 0x2710_0000_0000,
    ;
    let di_sum: i64 = plus_di + minus_di;
    if di_sum == 0 {
        0
    } else {
        let di_diff: i64 = if plus_di >= minus_di {
            plus_di - minus_di
        } else {
            minus_di - plus_di
        };
        share_of(di_diff, di_sum)
    }
}

/// The average directional index of a bar series, in basis points, aligned
/// with the bars: undefined before bar `2 * period - 1`, and from there on
/// Wilder's average of the directional indices, each of which comes from
/// Wilder's averages of the movements and of the true range. Those averages
/// are kept in ten-thousandths of a tick.
pub fn directional_movement_index(highs: &[i32], lows: &[i32], closes: &[i32], period: usize) -> (r:
    Result<Vec<Option<i64>>, IndicatorError>)
    ensures
        match r {
            Ok(out) => {
                &&& dmi_rejection(
                    highs@.len() as int,
                    lows@.len() as int,
                    closes@.len() as int,
                    period as int,
                ) is None
                &&& out@.len() == highs@.len()
                &&& forall|i: int|
                    0 <= i < out@.len() ==> holds_if(
                        #[trigger] out@[i],
                        i >= 2 * period - 1,
                        adx_at(highs@, lows@, closes@, period as int, i),
                    )
                &&& forall|i: int|
                    2 * period - 1 <= i < out@.len() ==> 0 <= #[trigger] adx_at(
                        highs@,
                        lows@,
                        closes@,
                        period as int,
                        i,
                    ) <= SCALE
            },
            Err(e) => dmi_rejection(
                highs@.len() as int,
                lows@.len() as int,
                closes@.len() as int,
                period as int,
            ) == Some(e),
        },
{
    if period == 0 {
        return Err(IndicatorError::InvalidPeriod);
    }
    let n: usize = highs.len();
    if n != lows.len() || n != closes.len() {
        return Err(IndicatorError::MismatchedLengths);
    }
    if n < period {
        return Err(IndicatorError::InvalidPeriod);
    }
    let ghost p = period as int;
    let mut tr: Vec<i64> = Vec::new();
    let mut plus: Vec<i64> = Vec::new();
    let mut minus: Vec<i64> = Vec::new();
    let mut i: usize = 1;
    while i < n
        invariant
            1 <= i <= n,
            n == highs.len(),
            n == lows.len(),
            n == closes.len(),
            tr@.len() == i - 1,
            plus@.len() == i - 1,
            minus@.len() == i - 1,
            forall|j: int|
                0 <= j < i - 1 ==> #[trigger] tr@[j] == SCALE * true_range_at(
                    highs@,
                    lows@,
                    closes@,
                    j + 1,
                ),
            forall|j: int|
                0 <= j < i - 1 ==> #[trigger] plus@[j] == SCALE * plus_dm_at(highs@, lows@, j + 1),
            forall|j: int|
                0 <= j < i - 1 ==> #[trigger] minus@[j] == SCALE * minus_dm_at(highs@, lows@, j + 1),
            all_within(tr@, 0, 0x2710_0000_0000),
            all_within(plus@, 0, 0x2710_0000_0000),
            all_within(minus@, 0, 0x2710_0000_0000),
        decreases n - i,
    {
        let range: i64 = true_range(highs, lows, closes, i);
        let (p_dm, m_dm) = directional_movement(highs, lows, i);
        proof {
            lemma_scaled_fits(range as int);
            lemma_scaled_fits(p_dm as int);
            lemma_scaled_fits(m_dm as int);
        }
        tr.push(SCALE * range);
        plus.push(SCALE * p_dm);
        minus.push(SCALE * m_dm);
        i = i + 1;
    }
    proof {
        assert(tr@ =~= true_ranges(highs@, lows@, closes@));
        assert(plus@ =~= plus_dms(highs@, lows@));
        assert(minus@ =~= minus_dms(highs@, lows@));
    }
    let tr_avg: Vec<Option<i64>> = wilder_smooth(tr.as_slice(), period);
    let plus_avg: Vec<Option<i64>> = wilder_smooth(plus.as_slice(), period);
    let minus_avg: Vec<Option<i64>> = wilder_smooth(minus.as_slice(), period);
    let mut dx: Vec<i64> = Vec::new();
    let mut k: usize = 0;
    while n > period && k < n - period
        invariant
            p == period,
            1 <= period <= n,
            n == highs.len(),
            n > period ==> k <= n - period,
            n <= period ==> k == 0,
            tr@ == true_ranges(highs@, lows@, closes@),
            plus@ == plus_dms(highs@, lows@),
            minus@ == minus_dms(highs@, lows@),
            tr@.len() == n - 1,
            plus@.len() == n - 1,
            minus@.len() == n - 1,
            all_within(tr@, 0, 0x2710_0000_0000),
            all_within(plus@, 0, 0x2710_0000_0000),
            all_within(minus@, 0, 0x2710_0000_0000),
            tr_avg@.len() == n - 1,
            plus_avg@.len() == n - 1,
            minus_avg@.len() == n - 1,
            forall|j: int| p - 1 <= j < n - 1 ==> holds(#[trigger] tr_avg@[j], wilder_at(tr@, p, j)),
            forall|j: int| p - 1 <= j < n - 1 ==> holds(#[trigger] plus_avg@[j], wilder_at(plus@, p, j)),
            forall|j: int| p - 1 <= j < n - 1 ==> holds(#[trigger] minus_avg@[j], wilder_at(minus@, p, j)),
            dx@.len() == k,
            forall|j: int| 0 <= j < k ==> #[trigger] dx@[j] == dx_at(highs@, lows@, closes@, p, j + p),
            all_within(dx@, 0, SCALE as int),
        decreases n - k,
    {
        let at: usize = k + period - 1;
        proof {
            lemma_smoothed_within(tr@, p, 1, p, at as int, 0, 0x2710_0000_0000);
            lemma_smoothed_within(plus@, p, 1, p, at as int, 0, 0x2710_0000_0000);
            lemma_smoothed_within(minus@, p, 1, p, at as int, 0, 0x2710_0000_0000);
            assert(holds(tr_avg@[at as int], wilder_at(tr@, p, at as int)));
            assert(holds(plus_avg@[at as int], wilder_at(plus@, p, at as int)));
            assert(holds(minus_avg@[at as int], wilder_at(minus@, p, at as int)));
        }
        let range: i64 = match tr_avg[at] {
            Some(v) => v,
            None => 0,
        };
        let up: i64 = match plus_avg[at] {
            Some(v) => v,
            None => 0,
        };
        let down: i64 = match minus_avg[at] {
            Some(v) => v,
            None => 0,
        };
        dx.push(directional_index_of(up, down, range));
        k = k + 1;
    }
    proof {
        assert(dx@ =~= dx_series(highs@, lows@, closes@, p));
    }
    let adx: Vec<Option<i64>> = wilder_smooth(dx.as_slice(), period);
    let mut out: Vec<Option<i64>> = undefined(if n < period {
        n
    } else {
        period
    });
    let mut m: usize = 0;
    while m < adx.len()
        invariant
            p == period,
            1 <= period <= n,
            n == highs.len(),
            dx@ == dx_series(highs@, lows@, closes@, p),
            dx@.len() == n - period,
            all_within(dx@, 0, SCALE as int),
            adx@.len() == dx@.len(),
            forall|j: int|
                0 <= j < adx@.len() && (j < p - 1 || dx@.len() < p) ==> #[trigger] adx@[j]
                    == None::<i64>,
            forall|j: int|
                p - 1 <= j < adx@.len() && p <= dx@.len() ==> holds(
                    #[trigger] adx@[j],
                    wilder_at(dx@, p, j),
                ),
            m <= adx@.len(),
            out@.len() == period + m,
            forall|i: int|
                0 <= i < out@.len() ==> holds_if(
                    #[trigger] out@[i],
                    i >= 2 * p - 1,
                    adx_at(highs@, lows@, closes@, p, i),
                ),
            forall|i: int|
                2 * p - 1 <= i < out@.len() ==> 0 <= #[trigger] adx_at(highs@, lows@, closes@, p, i)
                    <= SCALE,
        decreases adx@.len() - m,
    {
        proof {
            if m >= p - 1 {
                lemma_smoothed_within(dx@, p, 1, p, m as int, 0, SCALE as int);
            }
        }
        out.push(adx[m]);
        m = m + 1;
    }
    Ok(out)
}

} // verus!
