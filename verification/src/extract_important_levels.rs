use vstd::prelude::*;
use crate::error::IndicatorError;
use crate::fixed::{floor_div, lemma_quotient_bounds};

verus! {

/// How many neighbours on either side a price is compared with.
pub const WINDOW: usize = 5;

/// A pivot with its two resistances and supports, as plain numbers.
#[derive(Clone, Copy, Debug, PartialEq, Eq, Structural)]
pub struct DataEntry {
    pub pivot_point: i64,
    pub resistance1: i64,
    pub resistance2: i64,
    pub support1: i64,
    pub support2: i64,
}

/// The turning points of a price series and what they sum up to.
#[derive(Debug)]
pub struct ImportantLevels {
    /// The highest resistance; the highest price where there is no
    /// resistance.
    pub highest_resistance: i32,
    /// The lowest support; the lowest price where there is no support.
    pub lowest_support: i32,
    /// The mean of the turning points, rounded down; the mean of all prices
    /// where there is no turning point.
    pub average_pivot: i64,
    /// The prices that no neighbour undercuts, in series order.
    pub supports: Vec<i32>,
    /// The prices that no neighbour exceeds, in series order.
    pub resistances: Vec<i32>,
}

/// Whether index `i` has a full window of neighbours on either side.
pub open spec fn has_neighbours(s: Seq<i32>, i: int) -> bool {
    WINDOW <= i && i + WINDOW < s.len()
}

/// Whether no neighbour of the price at `i` exceeds it.
pub open spec fn is_peak(s: Seq<i32>, i: int) -> bool {
    has_neighbours(s, i) && forall|j: int| i - WINDOW <= j <= i + WINDOW ==> s[j] <= s[i]
}

/// Whether no neighbour of the price at `i` undercuts it.
pub open spec fn is_trough(s: Seq<i32>, i: int) -> bool {
    has_neighbours(s, i) && forall|j: int| i - WINDOW <= j <= i + WINDOW ==> s[j] >= s[i]
}

/// The resistances among the first `n` prices.
pub open spec fn peaks(s: Seq<i32>, n: int) -> Seq<i32>
    decreases n,
{
    if n <= 0 {
        Seq::empty()
    } else if is_peak(s, n - 1) {
        peaks(s, n - 1).push(s[n - 1])
    } else {
        peaks(s, n - 1)
    }
}

/// The supports among the first `n` prices.
pub open spec fn troughs(s: Seq<i32>, n: int) -> Seq<i32>
    decreases n,
{
    if n <= 0 {
        Seq::empty()
    } else if is_trough(s, n - 1) {
        troughs(s, n - 1).push(s[n - 1])
    } else {
        troughs(s, n - 1)
    }
}

/// The turning points among the first `n` prices: resistances and supports.
pub open spec fn turning_points(s: Seq<i32>, n: int) -> Seq<i32>
    decreases n,
{
    if n <= 0 {
        Seq::empty()
    } else if is_peak(s, n - 1) || is_trough(s, n - 1) {
        turning_points(s, n - 1).push(s[n - 1])
    } else {
        turning_points(s, n - 1)
    }
}

/// The sum of the first `n` values.
pub open spec fn total(s: Seq<i32>, n: int) -> int
    decreases n,
{
    if n <= 0 {
        0
    } else {
        total(s, n - 1) + s[n - 1]
    }
}

/// Whether `v` is one of the values and none is greater.
pub open spec fn is_greatest(v: int, s: Seq<i32>) -> bool {
    (exists|k: int| 0 <= k < s.len() && s[k] == v) && forall|k: int| 0 <= k < s.len() ==> s[k] <= v
}

/// Whether `v` is one of the values and none is less.
pub open spec fn is_least(v: int, s: Seq<i32>) -> bool {
    (exists|k: int| 0 <= k < s.len() && s[k] == v) && forall|k: int| 0 <= k < s.len() ==> s[k] >= v
}

/// The values themselves where there are any, the fallback otherwise.
pub open spec fn or_else(values: Seq<i32>, fallback: Seq<i32>) -> Seq<i32> {
    if values.len() > 0 {
        values
    } else {
        fallback
    }
}

/// The mean of the values, rounded down.
pub open spec fn mean_of(s: Seq<i32>) -> int {
    total(s, s.len() as int) / (s.len() as int)
}

/// Whether `levels` are the important levels of the prices.
pub open spec fn is_important_levels(levels: ImportantLevels, s: Seq<i32>) -> bool {
    let n = s.len() as int;
    &&& levels.resistances@ == peaks(s, n)
    &&& levels.supports@ == troughs(s, n)
    &&& is_greatest(levels.highest_resistance as int, or_else(peaks(s, n), s))
    &&& is_least(levels.lowest_support as int, or_else(troughs(s, n), s))
    &&& levels.average_pivot == mean_of(or_else(turning_points(s, n), s))
}

/// The sum of `n` prices lies between `n` smallest and `n` largest prices.
pub proof fn lemma_total_bounds(s: Seq<i32>, n: int)
    requires
        0 <= n <= s.len(),
    ensures
        n * (-0x8000_0000) <= total(s, n) <= n * 0x7fff_ffff,
    decreases n,
{
    if n > 0 {
        lemma_total_bounds(s, n - 1);
        assert(n * (-0x8000_0000) == (n - 1) * (-0x8000_0000) - 0x8000_0000) by (nonlinear_arith);
        assert(n * 0x7fff_ffff == (n - 1) * 0x7fff_ffff + 0x7fff_ffff) by (nonlinear_arith);
    }
}

impl DataEntry {
    /// An entry of the five given numbers.
    pub fn new(pivot_point: i64, resistance1: i64, resistance2: i64, support1: i64, support2: i64) -> (r:
        DataEntry)
        ensures
            r == (DataEntry { pivot_point, resistance1, resistance2, support1, support2 }),
    {
        DataEntry { pivot_point, resistance1, resistance2, support1, support2 }
    }
}

/// Whether the price at `i` is a resistance (`want_max`) or a support.
pub fn is_turning_point(data: &[i32], i: usize, want_max: bool) -> (r: bool)
    ensures
        r == if want_max {
            is_peak(data@, i as int)
        } else {
            is_trough(data@, i as int)
        },
{
    if i < WINDOW || data.len() < WINDOW || i >= data.len() - WINDOW {
        return false;
    }
    let current: i32 = data[i];
    let mut j: usize = i - WINDOW;
    while j <= i + WINDOW
        invariant
            WINDOW <= i,
            i + WINDOW < data.len(),
            i - WINDOW <= j <= i + WINDOW + 1,
            current == data@[i as int],
            forall|k: int|
                i - WINDOW <= k < j ==> if want_max {
                    data@[k] <= current
                } else {
                    data@[k] >= current
                },
        decreases i + WINDOW + 1 - j,
    {
        let fits: bool = if want_max {
            data[j] <= current
        } else {
            data[j] >= current
        };
        if !fits {
            return false;
        }
        j = j + 1;
    }
    true
}

/// The greatest of the values.
pub fn greatest_of(values: &[i32]) -> (v: i32)
    requires
        values.len() > 0,
    ensures
        is_greatest(v as int, values@),
{
    let mut best: i32 = values[0];
    let mut i: usize = 1;
    while i < values.len()
        invariant
            1 <= i <= values.len(),
            exists|k: int| 0 <= k < i && values@[k] == best,
            forall|k: int| 0 <= k < i ==> values@[k] <= best,
        decreases values.len() - i,
    {
        if values[i] > best {
            best = values[i];
            assert(0 <= i < i + 1 && values@[i as int] == best);
        } else {
            let ghost w = choose|k: int| 0 <= k < i && values@[k] == best;
            assert(0 <= w < i + 1 && values@[w] == best);
        }
        i = i + 1;
    }
    let ghost w = choose|k: int| 0 <= k < i && values@[k] == best;
    assert(0 <= w < values@.len() && values@[w] == best);
    best
}

/// The least of the values.
pub fn least_of(values: &[i32]) -> (v: i32)
    requires
        values.len() > 0,
    ensures
        is_least(v as int, values@),
{
    let mut best: i32 = values[0];
    let mut i: usize = 1;
    while i < values.len()
        invariant
            1 <= i <= values.len(),
            exists|k: int| 0 <= k < i && values@[k] == best,
            forall|k: int| 0 <= k < i ==> values@[k] >= best,
        decreases values.len() - i,
    {
        if values[i] < best {
            best = values[i];
            assert(0 <= i < i + 1 && values@[i as int] == best);
        } else {
            let ghost w = choose|k: int| 0 <= k < i && values@[k] == best;
            assert(0 <= w < i + 1 && values@[w] == best);
        }
        i = i + 1;
    }
    let ghost w = choose|k: int| 0 <= k < i && values@[k] == best;
    assert(0 <= w < values@.len() && values@[w] == best);
    best
}

/// The mean of the values, rounded down.
pub fn mean_value(values: &[i32]) -> (m: i64)
    requires
        values.len() > 0,
    ensures
        m == mean_of(values@),
{
    let n: usize = values.len();
    let mut acc: i128 = 0;
    let mut i: usize = 0;
    while i < n
        invariant
            i <= n,
            n == values.len(),
            acc == total(values@, i as int),
        decreases n - i,
    {
        proof {
            lemma_total_bounds(values@, i as int);
            assert(i * (-0x8000_0000) >= -0x8000_0000 * 0xffff_ffff_ffff_ffff) by (nonlinear_arith)
                requires
                    0 <= i <= 0xffff_ffff_ffff_ffff,
            ;
            assert(i * 0x7fff_ffff <= 0x7fff_ffff * 0xffff_ffff_ffff_ffff) by (nonlinear_arith)
                requires
                    0 <= i <= 0xffff_ffff_ffff_ffff,
            ;
        }
        acc = acc + values[i] as i128;
        i = i + 1;
    }
    proof {
        lemma_total_bounds(values@, n as int);
        lemma_quotient_bounds(acc as int, n as int, -0x8000_0000, 0x7fff_ffff);
    }
    floor_div(acc, n as i128) as i64
}

/// The turning points of a price series: the supports and resistances among
/// the prices that have five neighbours on either side, the extremes of
/// those, and the mean of all turning points. Where there is none of a kind,
/// the prices themselves stand in.
pub fn extract_important_levels(data: &[i32]) -> (r: Result<ImportantLevels, IndicatorError>)
    ensures
        match r {
            Ok(levels) => data@.len() > 0 && is_important_levels(levels, data@),
            Err(e) => e == IndicatorError::EmptyInput && data@.len() == 0,
        },
{
    let n: usize = data.len();
    if n == 0 {
        return Err(IndicatorError::EmptyInput);
    }
    let mut supports: Vec<i32> = Vec::new();
    let mut resistances: Vec<i32> = Vec::new();
    let mut pivots: Vec<i32> = Vec::new();
    let mut i: usize = 0;
    while i < n
        invariant
            i <= n,
            n == data.len(),
            resistances@ == peaks(data@, i as int),
            supports@ == troughs(data@, i as int),
            pivots@ == turning_points(data@, i as int),
        decreases n - i,
    {
        let is_highest: bool = is_turning_point(data, i, true);
        let is_lowest: bool = is_turning_point(data, i, false);
        if is_highest {
            resistances.push(data[i]);
        }
        if is_lowest {
            supports.push(data[i]);
        }
        if is_highest || is_lowest {
            pivots.push(data[i]);
        }
        i = i + 1;
    }
    let highest_resistance: i32 = if resistances.len() > 0 {
        greatest_of(resistances.as_slice())
    } else {
        greatest_of(data)
    };
    let lowest_support: i32 = if supports.len() > 0 {
        least_of(supports.as_slice())
    } else {
        least_of(data)
    };
    let average_pivot: i64 = if pivots.len() > 0 {
        mean_value(pivots.as_slice())
    } else {
        mean_value(data)
    };
    Ok(ImportantLevels { highest_resistance, lowest_support, average_pivot, supports, resistances })
}

} // verus!
