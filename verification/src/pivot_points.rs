use vstd::prelude::*;
use crate::error::IndicatorError;
use crate::fixed::floor_div;

verus! {

/// The pivot of a bar and the two supports and resistances around it.
#[derive(Clone, Copy, Debug, PartialEq, Eq, Structural)]
pub struct PivotLevels {
    pub pivot_point: i64,
    pub resistance1: i64,
    pub resistance2: i64,
    pub support1: i64,
    pub support2: i64,
}

/// The pivot of a bar: the mean of its high, low and close, rounded down.
pub open spec fn pivot_of(high: int, low: int, close: int) -> int {
    (high + low + close) / 3
}

/// The levels of a bar by the floor-trader formula, each rounded down from
/// its exact value: the pivot `p`, the first resistance `2 p - low`, the
/// second resistance `p + (high - low)`, the first support `2 p - high` and
/// the second support `p - (high - low)`, where `p` is a third of
/// `high + low + close`.
pub open spec fn levels_of(high: int, low: int, close: int) -> (int, int, int, int, int) {
    let total = high + low + close;
    (
        total / 3,
        (2 * total - 3 * low) / 3,
        (total + 3 * (high - low)) / 3,
        (2 * total - 3 * high) / 3,
        (total - 3 * (high - low)) / 3,
    )
}

/// Whether `levels` are the levels of the bar.
pub open spec fn is_levels(levels: PivotLevels, high: int, low: int, close: int) -> bool {
    let expected = levels_of(high, low, close);
    &&& levels.pivot_point == expected.0
    &&& levels.resistance1 == expected.1
    &&& levels.resistance2 == expected.2
    &&& levels.support1 == expected.3
    &&& levels.support2 == expected.4
}

/// The pivot of a bar.
pub fn calculate_pivot_point(high: i32, low: i32, close: i32) -> (pivot: i64)
    ensures
        pivot == pivot_of(high as int, low as int, close as int),
        -0x8000_0000 <= pivot < 0x8000_0000,
{
    let total: i64 = high as i64 + low as i64 + close as i64;
    proof {
        crate::fixed::lemma_quotient_bounds(total as int, 3, -0x8000_0000, 0x7fff_ffff);
    }
    floor_div(total as i128, 3) as i64
}

impl PivotLevels {
    /// The levels of a bar.
    pub fn new(high: i32, low: i32, close: i32) -> (levels: Self)
        ensures
            is_levels(levels, high as int, low as int, close as int),
    {
        let pivot_point: i64 = calculate_pivot_point(high, low, close);
        let total: i128 = high as i128 + low as i128 + close as i128;
        let range: i64 = high as i64 - low as i64;
        PivotLevels {
            pivot_point,
            resistance1: floor_div(2 * total - 3 * (low as i128), 3) as i64,
            resistance2: pivot_point + range,
            support1: floor_div(2 * total - 3 * (high as i128), 3) as i64,
            support2: pivot_point - range,
        }
    }
}

/// The levels of every bar, five values per bar in the order pivot, first
/// resistance, second resistance, first support, second support.
pub fn pivot_points(highs: &[i32], lows: &[i32], closes: &[i32]) -> (r: Result<Vec<i64>, IndicatorError>)
    ensures
        match r {
            Ok(out) => {
                &&& highs@.len() == lows@.len()
                &&& highs@.len() == closes@.len()
                &&& out@.len() == 5 * highs@.len()
                &&& forall|k: int|
                    #![trigger highs@[k]]
                    0 <= k < highs@.len() ==> {
                        let expected = levels_of(highs@[k] as int, lows@[k] as int, closes@[k] as int);
                        &&& out@[5 * k] == expected.0
                        &&& out@[5 * k + 1] == expected.1
                        &&& out@[5 * k + 2] == expected.2
                        &&& out@[5 * k + 3] == expected.3
                        &&& out@[5 * k + 4] == expected.4
                    }
            },
            Err(e) => e == IndicatorError::MismatchedLengths && (highs@.len() != lows@.len()
                || highs@.len() != closes@.len()),
        },
{
    let n: usize = highs.len();
    if n != lows.len() || n != closes.len() {
        return Err(IndicatorError::MismatchedLengths);
    }
    let mut out: Vec<i64> = Vec::new();
    let mut i: usize = 0;
    while i < n
        invariant
            i <= n,
            n == highs.len(),
            n == lows.len(),
            n == closes.len(),
            out@.len() == 5 * i,
            forall|k: int|
                #![trigger highs@[k]]
                0 <= k < i ==> {
                    let expected = levels_of(highs@[k] as int, lows@[k] as int, closes@[k] as int);
                    &&& out@[5 * k] == expected.0
                    &&& out@[5 * k + 1] == expected.1
                    &&& out@[5 * k + 2] == expected.2
                    &&& out@[5 * k + 3] == expected.3
                    &&& out@[5 * k + 4] == expected.4
                },
        decreases n - i,
    {
        let levels = PivotLevels::new(highs[i], lows[i], closes[i]);
        out.push(levels.pivot_point);
        out.push(levels.resistance1);
        out.push(levels.resistance2);
        out.push(levels.support1);
        out.push(levels.support2);
        i = i + 1;
    }
    Ok(out)
}

} // verus!
