use vstd::prelude::*;
use crate::fixed::SCALE;

verus! {

/// The prices of a series as 64-bit samples, one for one.
pub open spec fn widened(prices: Seq<i32>) -> Seq<i64> {
    Seq::new(prices.len(), |i: int| prices[i] as i64)
}

/// The prices of a series in ten-thousandths of a tick, one for one.
pub open spec fn scaled(prices: Seq<i32>) -> Seq<i64> {
    Seq::new(prices.len(), |i: int| (SCALE * prices[i]) as i64)
}

/// Whether every sample lies in the range of a price.
pub open spec fn all_prices(s: Seq<i64>) -> bool {
    forall|i: int| 0 <= i < s.len() ==> -0x8000_0000 <= #[trigger] s[i] < 0x8000_0000
}

/// Whether every sample lies between `lo` and `hi`.
pub open spec fn all_within(s: Seq<i64>, lo: int, hi: int) -> bool {
    forall|i: int| 0 <= i < s.len() ==> lo <= #[trigger] s[i] <= hi
}

/// Whether every close lies within its bar.
pub open spec fn closes_within_bars(highs: Seq<i32>, lows: Seq<i32>, closes: Seq<i32>) -> bool {
    forall|i: int| 0 <= i < closes.len() ==> lows[i] <= #[trigger] closes[i] <= highs[i]
}

/// Whether a position is defined and holds the value `v`.
pub open spec fn holds(o: Option<i64>, v: int) -> bool {
    o is Some && o->Some_0 == v
}

/// Whether a position is undefined where `defined` is false, and holds `v`
/// where it is true.
pub open spec fn holds_if(o: Option<i64>, defined: bool, v: int) -> bool {
    if defined {
        holds(o, v)
    } else {
        o is None
    }
}

/// Copies a price series into 64-bit samples.
pub fn widen(prices: &[i32]) -> (out: Vec<i64>)
    ensures
        out@ == widened(prices@),
        all_prices(out@),
{
    let mut out: Vec<i64> = Vec::new();
    let mut i: usize = 0;
    while i < prices.len()
        invariant
            i <= prices.len(),
            out@.len() == i,
            forall|j: int| 0 <= j < i ==> #[trigger] out@[j] == prices@[j] as i64,
        decreases prices.len() - i,
    {
        out.push(prices[i] as i64);
        i = i + 1;
    }
    assert(out@ =~= widened(prices@));
    out
}

/// Copies a price series into 64-bit samples in ten-thousandths of a tick.
pub fn scale(prices: &[i32]) -> (out: Vec<i64>)
    ensures
        out@ == scaled(prices@),
        all_within(out@, -0x1388_0000_0000, 0x1388_0000_0000),
        forall|i: int| 0 <= i < out@.len() ==> #[trigger] out@[i] == SCALE * prices@[i],
{
    let mut out: Vec<i64> = Vec::new();
    let mut i: usize = 0;
    while i < prices.len()
        invariant
            i <= prices.len(),
            out@.len() == i,
            forall|j: int| 0 <= j < i ==> #[trigger] out@[j] == SCALE * prices@[j],
            all_within(out@, -0x1388_0000_0000, 0x1388_0000_0000),
        decreases prices.len() - i,
    {
        let x: i64 = prices[i] as i64;
        assert(-0x1388_0000_0000 <= SCALE * x <= 0x1388_0000_0000) by (nonlinear_arith)
            requires
                -0x8000_0000 <= x < 0x8000_0000,
        ;
        out.push(SCALE * x);
        i = i + 1;
    }
    assert(out@ =~= scaled(prices@));
    out
}

/// A series of `n` undefined positions.
pub fn undefined(n: usize) -> (out: Vec<Option<i64>>)
    ensures
        out@.len() == n,
        forall|i: int| 0 <= i < n ==> #[trigger] out@[i] == None::<i64>,
{
    let mut out: Vec<Option<i64>> = Vec::new();
    let mut i: usize = 0;
    while i < n
        invariant
            i <= n,
            out@.len() == i,
            forall|j: int| 0 <= j < i ==> #[trigger] out@[j] == None::<i64>,
        decreases n - i,
    {
        out.push(None);
        i = i + 1;
    }
    out
}

/// The values of the positions from `from` on, as a series of its own; it is
/// empty where `from` lies past the end.
pub open spec fn tail_of(s: Seq<Option<i64>>, from: int) -> Seq<i64> {
    Seq::new(
        if s.len() > from {
            (s.len() - from) as nat
        } else {
            0
        },
        |j: int| s[from + j]->Some_0,
    )
}

/// The values of the positions from `from` on, which must all be defined.
pub fn defined_part(series: &Vec<Option<i64>>, from: usize) -> (out: Vec<i64>)
    requires
        forall|i: int| from <= i < series@.len() ==> (#[trigger] series@[i]) is Some,
    ensures
        out@ == tail_of(series@, from as int),
{
    let mut out: Vec<i64> = Vec::new();
    let mut i: usize = from;
    while i < series.len()
        invariant
            from <= i,
            i <= series.len() || series.len() < from,
            forall|k: int| from <= k < series@.len() ==> (#[trigger] series@[k]) is Some,
            out@.len() == if series.len() > from {
                i - from
            } else {
                0
            },
            forall|j: int| 0 <= j < out@.len() ==> #[trigger] out@[j] == series@[from + j]->Some_0,
        decreases series.len() - i,
    {
        match series[i] {
            Some(v) => {
                out.push(v);
            },
            None => {},
        }
        i = i + 1;
    }
    assert(out@ =~= tail_of(series@, from as int));
    out
}

/// The distances between the samples of two series, position by position, as
/// far as the shorter of them reaches.
pub open spec fn distances(a: Seq<i64>, b: Seq<i64>) -> Seq<int> {
    Seq::new(
        if a.len() <= b.len() {
            a.len()
        } else {
            b.len()
        },
        |i: int|
            if a[i] >= b[i] {
                a[i] - b[i]
            } else {
                b[i] - a[i]
            },
    )
}

/// The distances between the samples of two series, see [`distances`].
pub fn abs_diff(a: &[i64], b: &[i64]) -> (out: Vec<u64>)
    ensures
        out@.len() == distances(a@, b@).len(),
        forall|i: int| 0 <= i < out@.len() ==> #[trigger] out@[i] == distances(a@, b@)[i],
{
    let len: usize = if a.len() <= b.len() {
        a.len()
    } else {
        b.len()
    };
    let mut out: Vec<u64> = Vec::new();
    let mut i: usize = 0;
    while i < len
        invariant
            i <= len,
            len <= a.len(),
            len <= b.len(),
            len == distances(a@, b@).len(),
            out@.len() == i,
            forall|j: int| 0 <= j < i ==> #[trigger] out@[j] == distances(a@, b@)[j],
        decreases len - i,
    {
        let x: i128 = a[i] as i128;
        let y: i128 = b[i] as i128;
        let d: i128 = if x >= y {
            x - y
        } else {
            y - x
        };
        out.push(d as u64);
        i = i + 1;
    }
    out
}

} // verus!
