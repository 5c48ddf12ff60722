use vstd::prelude::*;
use crate::error::IndicatorError;
use crate::fixed::abs;

verus! {

/// Which way the last brick went.
#[derive(Clone, Copy, Debug, PartialEq, Eq, Structural)]
pub enum Trend {
    /// The last brick rose.
    Up,
    /// The last brick fell.
    Down,
    /// No brick has been laid yet.
    Flat,
}

/// What a Renko walk carries from one price to the next.
#[derive(Clone, Copy, Debug, PartialEq, Eq, Structural)]
pub struct RenkoState {
    /// The level of the last brick.
    pub last_brick_level: i64,
    /// The direction of the last brick.
    pub trend: Trend,
}

/// The sign of `diff` as a step direction.
pub open spec fn signum(diff: int) -> int {
    if diff > 0 {
        1
    } else if diff < 0 {
        -1
    } else {
        0
    }
}

/// How many whole bricks fit into a move of `diff`.
pub open spec fn brick_count(diff: int, brick: int) -> int {
    abs(diff) / brick
}

/// The level of the last brick once the first `n` prices have been read. The
/// chart starts at the first price; each price moves the level by as many
/// whole bricks as fit between the level and the price.
pub open spec fn renko_level(prices: Seq<i32>, brick: int, n: int) -> int
    decreases n,
{
    if n <= 0 {
        prices[0] as int
    } else {
        let last = renko_level(prices, brick, n - 1);
        let diff = prices[n - 1] - last;
        last + signum(diff) * (brick * brick_count(diff, brick))
    }
}

/// The trend after a price at distance `diff` from the level: it follows the
/// price where at least one brick fits, and stays as it was otherwise. A
/// reversal takes no more than a continuation does.
pub open spec fn trend_after(before: Trend, diff: int, brick: int) -> Trend {
    if brick_count(diff, brick) < 1 {
        before
    } else if diff > 0 {
        Trend::Up
    } else {
        Trend::Down
    }
}

/// The trend once the first `n` prices have been read.
pub open spec fn renko_trend(prices: Seq<i32>, brick: int, n: int) -> Trend
    decreases n,
{
    if n <= 0 {
        Trend::Flat
    } else {
        trend_after(
            renko_trend(prices, brick, n - 1),
            prices[n - 1] - renko_level(prices, brick, n - 1),
            brick,
        )
    }
}

/// The bricks that a price at distance `diff` from the level `last` adds.
pub open spec fn renko_run(last: int, diff: int, brick: int) -> Seq<int> {
    Seq::new(brick_count(diff, brick) as nat, |k: int| last + signum(diff) * (brick * (k + 1)))
}

/// The chart once the first `n` prices have been read: the first price, then
/// the run of bricks that each price adds.
pub open spec fn renko_bricks(prices: Seq<i32>, brick: int, n: int) -> Seq<int>
    decreases n,
{
    if n <= 0 {
        seq![prices[0] as int]
    } else {
        let last = renko_level(prices, brick, n - 1);
        renko_bricks(prices, brick, n - 1) + renko_run(last, prices[n - 1] - last, brick)
    }
}

/// Why [`renko_chart`] rejects an input, if it does.
pub open spec fn renko_rejection(len: int, brick: int) -> Option<IndicatorError> {
    if brick <= 0 {
        Some(IndicatorError::InvalidParameter)
    } else if len == 0 {
        Some(IndicatorError::EmptyInput)
    } else {
        None
    }
}

/// The level never leaves the range of a price.
pub proof fn lemma_renko_level_is_price(prices: Seq<i32>, brick: int, n: int)
    requires
        brick > 0,
        0 <= n <= prices.len(),
        prices.len() > 0,
    ensures
        -0x8000_0000 <= renko_level(prices, brick, n) < 0x8000_0000,
    decreases n,
{
    if n > 0 {
        lemma_renko_level_is_price(prices, brick, n - 1);
        let last = renko_level(prices, brick, n - 1);
        let diff = prices[n - 1] - last;
        lemma_run_reach(diff, brick, brick_count(diff, brick));
    }
}

/// `k` bricks, `k` no more than fit, reach no further than the move itself.
pub proof fn lemma_run_reach(diff: int, brick: int, k: int)
    requires
        brick > 0,
        0 <= k <= brick_count(diff, brick),
    ensures
        0 <= brick * k <= abs(diff),
        diff >= 0 ==> 0 <= signum(diff) * (brick * k) <= diff,
        diff < 0 ==> diff <= signum(diff) * (brick * k) <= 0,
{
    let c = brick_count(diff, brick);
    let a = abs(diff);
    assert(brick * c <= a) by (nonlinear_arith)
        requires
            brick > 0,
            a >= 0,
            c == a / brick,
    ;
    assert(0 <= brick * k <= brick * c) by (nonlinear_arith)
        requires
            brick > 0,
            0 <= k <= c,
    ;
    let m = brick * k;
    assert(signum(diff) * m == if diff > 0 {
        m
    } else if diff < 0 {
        -m
    } else {
        0
    }) by (nonlinear_arith);
}

/// How many whole bricks of `brick_size` fit into a move of `diff`.
pub fn compute_brick_count(diff: i64, brick_size: i64) -> (count: u64)
    requires
        brick_size > 0,
        diff > -0x8000_0000_0000_0000,
    ensures
        count == brick_count(diff as int, brick_size as int),
{
    let a: i64 = if diff < 0 {
        -diff
    } else {
        diff
    };
    assert(0 <= a / brick_size <= a) by (nonlinear_arith)
        requires
            a >= 0,
            brick_size > 0,
    ;
    (a / brick_size) as u64
}

/// One step of the walk: lays the bricks that `price` adds onto `chart` and
/// gives the state after it.
pub fn renko_advance(st: RenkoState, price: i32, brick_size: i64, chart: &mut Vec<i64>) -> (next:
    RenkoState)
    requires
        brick_size > 0,
        -0x8000_0000 <= st.last_brick_level < 0x8000_0000,
    ensures
        next.last_brick_level == st.last_brick_level + signum(price - st.last_brick_level) * (
        brick_size * brick_count(price - st.last_brick_level, brick_size as int)),
        next.trend == trend_after(st.trend, price - st.last_brick_level, brick_size as int),
        -0x8000_0000 <= next.last_brick_level < 0x8000_0000,
        final(chart)@.len() == old(chart)@.len() + brick_count(
            price - st.last_brick_level,
            brick_size as int,
        ),
        forall|j: int| 0 <= j < old(chart)@.len() ==> #[trigger] final(chart)@[j] == old(chart)@[j],
        forall|j: int|
            0 <= j < brick_count(price - st.last_brick_level, brick_size as int)
                ==> #[trigger] final(chart)@[old(chart)@.len() + j] == renko_run(
                st.last_brick_level as int,
                price - st.last_brick_level,
                brick_size as int,
            )[j],
{
    let ghost brick = brick_size as int;
    let ghost base = chart@;
    let start: i64 = st.last_brick_level;
    let diff: i64 = price as i64 - start;
    let count: u64 = compute_brick_count(diff, brick_size);
    let ghost run = renko_run(start as int, diff as int, brick);
    let mut last: i64 = start;
    let mut k: u64 = 0;
    while k < count
        invariant
            k <= count,
            brick == brick_size,
            brick > 0,
            count == brick_count(diff as int, brick),
            -0x1_0000_0000 < diff < 0x1_0000_0000,
            -0x8000_0000 <= start < 0x8000_0000,
            -0x8000_0000 <= start + diff < 0x8000_0000,
            last == start + signum(diff as int) * (brick * k),
            run == renko_run(start as int, diff as int, brick),
            chart@.len() == base.len() + k,
            forall|j: int| 0 <= j < base.len() ==> #[trigger] chart@[j] == base[j],
            forall|j: int| 0 <= j < k ==> #[trigger] chart@[base.len() + j] == run[j],
        decreases count - k,
    {
        proof {
            lemma_run_reach(diff as int, brick, k as int);
            lemma_run_reach(diff as int, brick, k + 1);
            assert(brick * (k + 1) == brick * k + brick) by (nonlinear_arith);
            assert(signum(diff as int) * (brick * (k + 1)) == signum(diff as int) * (brick * k)
                + signum(diff as int) * brick) by (nonlinear_arith);
            assert(signum(diff as int) * brick == if diff > 0 {
                brick
            } else if diff < 0 {
                -brick
            } else {
                0
            }) by (nonlinear_arith);
        }
        if diff > 0 {
            last = last + brick_size;
        } else {
            last = last - brick_size;
        }
        chart.push(last);
        k = k + 1;
    }
    proof {
        lemma_run_reach(diff as int, brick, count as int);
    }
    let trend: Trend = if count < 1 {
        st.trend
    } else if diff > 0 {
        Trend::Up
    } else {
        Trend::Down
    };
    RenkoState { last_brick_level: last, trend }
}

/// The Renko chart of a price series: the levels of [`renko_bricks`] over the
/// whole series.
pub fn renko_chart(prices: &[i32], brick_size: i64) -> (r: Result<Vec<i64>, IndicatorError>)
    ensures
        match r {
            Ok(out) => {
                let chart = renko_bricks(prices@, brick_size as int, prices@.len() as int);
                &&& renko_rejection(prices@.len() as int, brick_size as int) is None
                &&& out@.len() == chart.len()
                &&& forall|k: int| 0 <= k < chart.len() ==> #[trigger] out@[k] == chart[k]
            },
            Err(e) => renko_rejection(prices@.len() as int, brick_size as int) == Some(e),
        },
{
    if brick_size <= 0 {
        return Err(IndicatorError::InvalidParameter);
    }
    if prices.len() == 0 {
        return Err(IndicatorError::EmptyInput);
    }
    let mut out: Vec<i64> = Vec::new();
    let mut st = RenkoState { last_brick_level: prices[0] as i64, trend: Trend::Flat };
    out.push(st.last_brick_level);
    let ghost brick = brick_size as int;
    let mut i: usize = 0;
    while i < prices.len()
        invariant
            i <= prices.len(),
            prices.len() > 0,
            brick == brick_size,
            brick > 0,
            st.last_brick_level == renko_level(prices@, brick, i as int),
            st.trend == renko_trend(prices@, brick, i as int),
            out@.len() == renko_bricks(prices@, brick, i as int).len(),
            forall|k: int|
                0 <= k < out@.len() ==> #[trigger] out@[k] == renko_bricks(prices@, brick, i as int)[k],
        decreases prices.len() - i,
    {
        proof {
            lemma_renko_level_is_price(prices@, brick, i as int);
        }
        let ghost base = renko_bricks(prices@, brick, i as int);
        let ghost run = renko_run(
            st.last_brick_level as int,
            prices@[i as int] - st.last_brick_level,
            brick,
        );
        st = renko_advance(st, prices[i], brick_size, &mut out);
        proof {
            let next = renko_bricks(prices@, brick, i + 1);
            assert(next =~= base + run);
            assert forall|j: int| 0 <= j < out@.len() implies #[trigger] out@[j] == next[j] by {
                if j >= base.len() {
                    assert(out@[base.len() + (j - base.len())] == run[j - base.len()]);
                }
            }
        }
        i = i + 1;
    }
    Ok(out)
}

} // verus!
