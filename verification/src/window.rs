use vstd::prelude::*;
use crate::error::IndicatorError;
use crate::series::all_prices;

verus! {

/// Sum of `s[lo..hi]` (the sample at `hi` is left out).
pub open spec fn sum(s: Seq<i64>, lo: int, hi: int) -> int
    decreases hi - lo,
{
    if lo >= hi {
        0
    } else {
        sum(s, lo, hi - 1) + s[hi - 1]
    }
}

/// Whether `a` wins over `b`: is at least `b` when the maximum is wanted, at
/// most `b` when the minimum is.
pub open spec fn wins(want_max: bool, a: int, b: int) -> bool {
    if want_max {
        a >= b
    } else {
        a <= b
    }
}

/// The extreme of `s[lo..=hi]`, found by scanning the whole window.
pub open spec fn window_extreme(want_max: bool, s: Seq<i64>, lo: int, hi: int) -> int
    decreases hi - lo,
{
    if lo >= hi {
        s[lo] as int
    } else {
        let rest = window_extreme(want_max, s, lo, hi - 1);
        if wins(want_max, s[hi] as int, rest) {
            s[hi] as int
        } else {
            rest
        }
    }
}

/// The largest sample of `s[lo..=hi]`.
pub open spec fn window_max(s: Seq<i64>, lo: int, hi: int) -> int {
    window_extreme(true, s, lo, hi)
}

/// The smallest sample of `s[lo..=hi]`.
pub open spec fn window_min(s: Seq<i64>, lo: int, hi: int) -> int {
    window_extreme(false, s, lo, hi)
}

/// The extreme of a window is one of its samples and wins over all of them.
pub proof fn lemma_window_extreme_is_extreme(want_max: bool, s: Seq<i64>, lo: int, hi: int)
    requires
        0 <= lo <= hi < s.len(),
    ensures
        forall|j: int| lo <= j <= hi ==> wins(want_max, window_extreme(want_max, s, lo, hi), #[trigger] s[j] as int),
        exists|j: int| lo <= j <= hi && #[trigger] s[j] as int == window_extreme(want_max, s, lo, hi),
    decreases hi - lo,
{
    if lo >= hi {
        assert(s[lo] as int == window_extreme(want_max, s, lo, hi));
    } else {
        lemma_window_extreme_is_extreme(want_max, s, lo, hi - 1);
        let rest = window_extreme(want_max, s, lo, hi - 1);
        let j0 = choose|j: int| lo <= j <= hi - 1 && #[trigger] s[j] as int == rest;
        if wins(want_max, s[hi] as int, rest) {
            assert(s[hi] as int == window_extreme(want_max, s, lo, hi));
        } else {
            assert(s[j0] as int == window_extreme(want_max, s, lo, hi));
        }
    }
}

/// A sample of the window that wins over every sample of it is the window's
/// extreme.
pub proof fn lemma_window_extreme_unique(want_max: bool, s: Seq<i64>, lo: int, hi: int, at: int)
    requires
        0 <= lo <= at <= hi < s.len(),
        forall|j: int| lo <= j <= hi ==> wins(want_max, s[at] as int, #[trigger] s[j] as int),
    ensures
        window_extreme(want_max, s, lo, hi) == s[at],
{
    lemma_window_extreme_is_extreme(want_max, s, lo, hi);
    let j0 = choose|j: int| lo <= j <= hi && #[trigger] s[j] as int == window_extreme(want_max, s, lo, hi);
    assert(wins(want_max, s[at] as int, s[j0] as int));
    assert(wins(want_max, window_extreme(want_max, s, lo, hi), s[at] as int));
}

/// First index of the window of `period` samples that ends at `i`; the window
/// is cut at the start of the series.
pub open spec fn window_start(i: int, period: int) -> int {
    if i + 1 >= period {
        i + 1 - period
    } else {
        0
    }
}

/// First index of the stretch that the queue entry `k` answers for: it begins
/// after the entry before it, or at `low` for the front entry.
pub open spec fn stretch_start(q: Seq<usize>, head: int, k: int, low: int) -> int {
    if k == head {
        low
    } else {
        q[k - 1] + 1
    }
}

/// Whether `a` wins over `b` in the sense of [`wins`].
pub fn beats(want_max: bool, a: i64, b: i64) -> (r: bool)
    ensures
        r == wins(want_max, a as int, b as int),
{
    if want_max {
        a >= b
    } else {
        a <= b
    }
}

/// The extreme of every full window of `period` samples, by a monotonic queue
/// of indices: an index leaves at the back as soon as a later sample wins over
/// its own, and at the front once the window has moved past it.
pub fn sliding_extreme(data: &[i64], period: usize, want_max: bool) -> (out: Vec<i64>)
    requires
        1 <= period <= data.len(),
    ensures
        out@.len() == data.len() - period + 1,
        forall|k: int|
            0 <= k < out@.len() ==> #[trigger] out@[k] == window_extreme(
                want_max,
                data@,
                k,
                k + period - 1,
            ),
{
    let n: usize = data.len();
    let mut out: Vec<i64> = Vec::new();
    let mut q: Vec<usize> = Vec::new();
    let mut head: usize = 0;
    let mut i: usize = 0;
    while i < n
        invariant
            1 <= period <= n,
            n == data.len(),
            i <= n,
            head <= q.len(),
            i > 0 ==> head < q.len() && q@[q.len() - 1] == i - 1,
            i == 0 ==> q.len() == 0,
            forall|k: int|
                head <= k < q.len() ==> window_start(i - 1, period as int) <= #[trigger] q@[k] < i,
            forall|a: int, b: int| head <= a < b < q.len() ==> #[trigger] q@[a] < #[trigger] q@[b],
            forall|k: int, j: int|
                head <= k < q.len() && stretch_start(
                    q@,
                    head as int,
                    k,
                    window_start(i - 1, period as int),
                ) <= j < i ==> #[trigger] wins(
                    want_max,
                    data@[q@[k] as int] as int,
                    data@[j] as int,
                ),
            out@.len() == if i >= period {
                i - period + 1
            } else {
                0
            },
            forall|m: int|
                0 <= m < out@.len() ==> #[trigger] out@[m] == window_extreme(
                    want_max,
                    data@,
                    m,
                    m + period - 1,
                ),
        decreases n - i,
    {
        let x: i64 = data[i];
        let ghost q0 = q@;
        let ghost low0 = window_start(i - 1, period as int);
        let ghost low1 = window_start(i as int, period as int);
        while q.len() > head && beats(want_max, x, data[q[q.len() - 1]])
            invariant
                n == data.len(),
                i < n,
                x == data@[i as int],
                head <= q.len() <= q0.len(),
                q@ == q0.subrange(0, q.len() as int),
                forall|k: int| head <= k < q0.len() ==> low0 <= #[trigger] q0[k] < i,
                i > 0 ==> head < q0.len() && q0[q0.len() - 1] == i - 1,
                i == 0 ==> q0.len() == 0,
                forall|k: int, j: int|
                    head <= k < q0.len() && stretch_start(q0, head as int, k, low0) <= j < i
                        ==> #[trigger] wins(
                        want_max,
                        data@[q0[k] as int] as int,
                        data@[j] as int,
                    ),
                forall|j: int|
                    (if q.len() > head {
                        q@[q.len() - 1] + 1
                    } else {
                        low0
                    }) <= j < i ==> #[trigger] wins(want_max, x as int, data@[j] as int),
            decreases q.len(),
        {
            let ghost last = q.len() - 1;
            proof {
                assert(q@[last] == q0[last]);
                assert forall|j: int|
                    stretch_start(q0, head as int, last, low0) <= j < i implies #[trigger] wins(
                    want_max,
                    x as int,
                    data@[j] as int,
                ) by {
                    assert(wins(want_max, data@[q0[last] as int] as int, data@[j] as int));
                }
                if last > head {
                    assert(q@[last - 1] == q0[last - 1]);
                }
            }
            q.pop();
        }
        proof {
            if q.len() > head {
                assert(q@[q.len() - 1] == q0[q.len() - 1]);
            }
        }
        let ghost q1 = q@;
        q.push(i);
        proof {
            assert(q@ == q1.push(i));
            assert(q1 == q0.subrange(0, q1.len() as int));
            assert forall|a: int, b: int| head <= a < b < q.len() implies #[trigger] q@[a]
                < #[trigger] q@[b] by {
                assert(q@[a] == q0[a]);
                if b < q.len() - 1 {
                    assert(q@[b] == q0[b]);
                }
            }
        }
        let ghost head0 = head;
        if i >= period && q[head] <= i - period {
            proof {
                if head + 1 == q.len() {
                    assert(q@[head as int] == i);
                }
                assert(q@[head as int] < q@[head + 1]);
            }
            head = head + 1;
        }
        proof {
            assert forall|k: int| head <= k < q.len() implies low1 <= #[trigger] q@[k] < i + 1 by {
                if k < q.len() - 1 {
                    assert(q@[k] == q0[k]);
                }
                if (head as int) < k {
                    assert(q@[head as int] < q@[k]);
                }
                if head0 < head {
                    assert(q@[head0 as int] < q@[head as int]);
                } else if head < q.len() - 1 {
                    assert(q@[head as int] == q0[head as int]);
                }
            }
            assert forall|k: int, j: int|
                head <= k < q.len() && stretch_start(q@, head as int, k, low1) <= j < i + 1
                implies #[trigger] wins(want_max, data@[q@[k] as int] as int, data@[j] as int) by {
                if k > 0 && k - 1 < q.len() - 1 {
                    assert(q@[k - 1] == q0[k - 1]);
                }
                if head0 < head {
                    assert(q@[head0 as int] + 1 <= low1);
                }
                assert(stretch_start(q0, head0 as int, k, low0) <= j || k == q.len() - 1);
                if k == q.len() - 1 {
                    if j < i {
                        assert(wins(want_max, x as int, data@[j] as int));
                    }
                } else {
                    assert(q@[k] == q0[k]);
                    let lastk = q1.len() - 1;
                    assert(q1[lastk] == q0[lastk]);
                    assert(q@[lastk] == q0[lastk]);
                    assert(!wins(want_max, x as int, data@[q0[lastk] as int] as int));
                    if j < i {
                        assert(wins(want_max, data@[q0[k] as int] as int, data@[j] as int));
                    } else {
                        if k < lastk {
                            assert(q@[k] < q@[lastk]);
                            assert(stretch_start(q0, head0 as int, k, low0) <= q0[lastk]);
                            assert(wins(
                                want_max,
                                data@[q0[k] as int] as int,
                                data@[q0[lastk] as int] as int,
                            ));
                        }
                    }
                }
            }
        }
        if i + 1 >= period {
            proof {
                assert forall|j: int| low1 <= j <= i implies wins(
                    want_max,
                    data@[q@[head as int] as int] as int,
                    #[trigger] data@[j] as int,
                ) by {
                    assert(wins(want_max, data@[q@[head as int] as int] as int, data@[j] as int));
                }
                lemma_window_extreme_unique(want_max, data@, low1, i as int, q@[head as int] as int);
            }
            out.push(data[q[head]]);
        }
        i = i + 1;
    }
    out
}

/// The largest sample of every full window of `period` samples: entry `k` is
/// the largest of `data[k..k + period]`.
pub fn sliding_max(data: &[i64], period: usize) -> (r: Result<Vec<i64>, IndicatorError>)
    ensures
        match r {
            Ok(out) => 1 <= period <= data.len() && out@.len() == data.len() - period + 1
                && forall|k: int|
                0 <= k < out@.len() ==> #[trigger] out@[k] == window_max(data@, k, k + period - 1),
            Err(e) => e == IndicatorError::InvalidPeriod && (period == 0 || period > data.len()),
        },
{
    if period == 0 || period > data.len() {
        return Err(IndicatorError::InvalidPeriod);
    }
    Ok(sliding_extreme(data, period, true))
}

/// The smallest sample of every full window of `period` samples: entry `k` is
/// the smallest of `data[k..k + period]`.
pub fn sliding_min(data: &[i64], period: usize) -> (r: Result<Vec<i64>, IndicatorError>)
    ensures
        match r {
            Ok(out) => 1 <= period <= data.len() && out@.len() == data.len() - period + 1
                && forall|k: int|
                0 <= k < out@.len() ==> #[trigger] out@[k] == window_min(data@, k, k + period - 1),
            Err(e) => e == IndicatorError::InvalidPeriod && (period == 0 || period > data.len()),
        },
{
    if period == 0 || period > data.len() {
        return Err(IndicatorError::InvalidPeriod);
    }
    Ok(sliding_extreme(data, period, false))
}

/// The sum of a window is its first sample plus the sum of the rest.
pub proof fn lemma_sum_first(s: Seq<i64>, lo: int, hi: int)
    requires
        lo < hi,
    ensures
        sum(s, lo, hi) == s[lo] + sum(s, lo + 1, hi),
    decreases hi - lo,
{
    if lo + 1 < hi {
        lemma_sum_first(s, lo, hi - 1);
    } else {
        assert(sum(s, lo, lo) == 0);
        assert(sum(s, lo + 1, hi) == 0);
    }
}

/// Moving a window one step on drops its first sample and takes in the next.
pub proof fn lemma_sum_slide(s: Seq<i64>, lo: int, hi: int)
    requires
        lo < hi,
    ensures
        sum(s, lo + 1, hi + 1) == sum(s, lo, hi) - s[lo] + s[hi],
{
    lemma_sum_first(s, lo, hi);
}

/// The sum of a window lies between its length times any two bounds of its
/// samples.
pub proof fn lemma_sum_bounds(s: Seq<i64>, lo: int, hi: int, a: int, b: int)
    requires
        0 <= lo <= hi <= s.len(),
        forall|j: int| 0 <= j < s.len() ==> a <= #[trigger] s[j] <= b,
    ensures
        (hi - lo) * a <= sum(s, lo, hi) <= (hi - lo) * b,
    decreases hi - lo,
{
    if lo < hi {
        lemma_sum_bounds(s, lo, hi - 1, a, b);
        assert((hi - lo) * a == (hi - 1 - lo) * a + a) by (nonlinear_arith);
        assert((hi - lo) * b == (hi - 1 - lo) * b + b) by (nonlinear_arith);
    } else {
        assert((hi - lo) * a == 0) by (nonlinear_arith)
            requires
                hi - lo == 0,
        ;
        assert((hi - lo) * b == 0) by (nonlinear_arith)
            requires
                hi - lo == 0,
        ;
    }
}

/// Sum of the squares of `s[lo..hi]`.
pub open spec fn sum_sq(s: Seq<i64>, lo: int, hi: int) -> int
    decreases hi - lo,
{
    if lo >= hi {
        0
    } else {
        sum_sq(s, lo, hi - 1) + s[hi - 1] * s[hi - 1]
    }
}

/// The sum of squares of a window is its first square plus that of the rest.
pub proof fn lemma_sum_sq_first(s: Seq<i64>, lo: int, hi: int)
    requires
        lo < hi,
    ensures
        sum_sq(s, lo, hi) == s[lo] * s[lo] + sum_sq(s, lo + 1, hi),
    decreases hi - lo,
{
    if lo + 1 < hi {
        lemma_sum_sq_first(s, lo, hi - 1);
    } else {
        assert(sum_sq(s, lo, lo) == 0);
        assert(sum_sq(s, lo + 1, hi) == 0);
    }
}

/// The sum of squares of a window of prices is not negative and at most the
/// length times the largest square of a price.
pub proof fn lemma_sum_sq_bounds(s: Seq<i64>, lo: int, hi: int)
    requires
        0 <= lo <= hi <= s.len(),
        all_prices(s),
    ensures
        0 <= sum_sq(s, lo, hi) <= (hi - lo) * 0x4000_0000_0000_0000,
    decreases hi - lo,
{
    if lo < hi {
        lemma_sum_sq_bounds(s, lo, hi - 1);
        let y = s[hi - 1] as int;
        assert(0 <= y * y <= 0x4000_0000_0000_0000) by (nonlinear_arith)
            requires
                -0x8000_0000 <= y < 0x8000_0000,
        ;
        assert((hi - lo) * 0x4000_0000_0000_0000 == (hi - 1 - lo) * 0x4000_0000_0000_0000
            + 0x4000_0000_0000_0000) by (nonlinear_arith);
    }
}

/// The squared distances of a window's samples from any point `x` add up to a
/// sum that is not negative.
pub proof fn lemma_deviation_nonneg(s: Seq<i64>, lo: int, hi: int, x: int)
    requires
        lo <= hi,
    ensures
        sum_sq(s, lo, hi) - 2 * x * sum(s, lo, hi) + (hi - lo) * (x * x) >= 0,
    decreases hi - lo,
{
    if lo < hi {
        lemma_deviation_nonneg(s, lo, hi - 1, x);
        let y = s[hi - 1] as int;
        let q = sum_sq(s, lo, hi - 1);
        let t = sum(s, lo, hi - 1);
        let n = hi - 1 - lo;
        assert((q + y * y) - 2 * x * (t + y) + (n + 1) * (x * x) == (q - 2 * x * t + n * (x * x))
            + (y - x) * (y - x)) by (nonlinear_arith);
        assert((y - x) * (y - x) >= 0) by (nonlinear_arith);
    } else {
        assert((hi - lo) * (x * x) == 0) by (nonlinear_arith)
            requires
                hi - lo == 0,
        ;
    }
}

/// The length of a window times its sum of squares is at least the square of
/// its sum.
pub proof fn lemma_spread_nonneg(s: Seq<i64>, lo: int, hi: int)
    requires
        lo <= hi,
    ensures
        (hi - lo) * sum_sq(s, lo, hi) - sum(s, lo, hi) * sum(s, lo, hi) >= 0,
    decreases hi - lo,
{
    if lo < hi {
        lemma_spread_nonneg(s, lo, hi - 1);
        let y = s[hi - 1] as int;
        lemma_deviation_nonneg(s, lo, hi - 1, y);
        let q = sum_sq(s, lo, hi - 1);
        let t = sum(s, lo, hi - 1);
        let n = hi - 1 - lo;
        assert((n + 1) * (q + y * y) - (t + y) * (t + y) == (n * q - t * t) + (q - 2 * y * t + n * (
        y * y))) by (nonlinear_arith);
    } else {
        assert((hi - lo) * sum_sq(s, lo, hi) == 0) by (nonlinear_arith)
            requires
                hi - lo == 0,
        ;
    }
}

/// The sum of squares of every full window of `period` prices: entry `k` is
/// the sum of the squares of `data[k..k + period]`, kept up to date as
/// [`sliding_sum`] keeps the sum.
pub fn sliding_sum_sq(data: &[i64], period: usize) -> (r: Result<Vec<i128>, IndicatorError>)
    requires
        all_prices(data@),
    ensures
        match r {
            Ok(out) => 1 <= period <= data.len() && out@.len() == data.len() - period + 1
                && forall|k: int|
                0 <= k < out@.len() ==> #[trigger] out@[k] == sum_sq(data@, k, k + period),
            Err(e) => e == IndicatorError::InvalidPeriod && (period == 0 || period > data.len()),
        },
{
    if period == 0 || period > data.len() {
        return Err(IndicatorError::InvalidPeriod);
    }
    let n: usize = data.len();
    let mut acc: i128 = 0;
    let mut i: usize = 0;
    while i < period
        invariant
            i <= period <= n,
            n == data.len(),
            all_prices(data@),
            acc == sum_sq(data@, 0, i as int),
        decreases period - i,
    {
        proof {
            lemma_sum_sq_bounds(data@, 0, i as int);
            lemma_sum_sq_bounds(data@, 0, i + 1);
            lemma_square_of_price(data@[i as int] as int);
            lemma_count_times_square(i as int);
            lemma_count_times_square(i + 1);
        }
        let x: i128 = data[i] as i128;
        acc = acc + x * x;
        i = i + 1;
    }
    let mut out: Vec<i128> = Vec::new();
    out.push(acc);
    while i < n
        invariant
            1 <= period <= i <= n,
            n == data.len(),
            all_prices(data@),
            acc == sum_sq(data@, i - period, i as int),
            out@.len() == i - period + 1,
            forall|k: int|
                0 <= k < out@.len() ==> #[trigger] out@[k] == sum_sq(data@, k, k + period),
        decreases n - i,
    {
        proof {
            lemma_sum_sq_first(data@, i - period, i as int);
            lemma_sum_sq_bounds(data@, i - period, i as int);
            lemma_sum_sq_bounds(data@, i - period + 1, i + 1);
            lemma_sum_sq_bounds(data@, i - period + 1, i as int);
            lemma_square_of_price(data@[i as int] as int);
            lemma_square_of_price(data@[i - period] as int);
            lemma_count_times_square(period as int);
            lemma_count_times_square(period - 1);
        }
        let x: i128 = data[i] as i128;
        let y: i128 = data[i - period] as i128;
        acc = acc - y * y + x * x;
        out.push(acc);
        i = i + 1;
    }
    Ok(out)
}

/// The square of a price is at most `2^62`.
pub proof fn lemma_square_of_price(y: int)
    requires
        -0x8000_0000 <= y < 0x8000_0000,
    ensures
        0 <= y * y <= 0x4000_0000_0000_0000,
{
    assert(0 <= y * y <= 0x4000_0000_0000_0000) by (nonlinear_arith)
        requires
            -0x8000_0000 <= y < 0x8000_0000,
    ;
}

/// As many largest squares of a price as a length can count fit in 128 bits.
pub proof fn lemma_count_times_square(n: int)
    requires
        0 <= n <= 0xffff_ffff_ffff_ffff,
    ensures
        0 <= n * 0x4000_0000_0000_0000 <= 0x3fff_ffff_ffff_ffff_c000_0000_0000_0000,
{
    assert(0 <= n * 0x4000_0000_0000_0000 <= 0x3fff_ffff_ffff_ffff_c000_0000_0000_0000)
        by (nonlinear_arith)
        requires
            0 <= n <= 0xffff_ffff_ffff_ffff,
    ;
}

/// The sum of a window of 64-bit samples fits in 128 bits with room to spare.
pub proof fn lemma_sum_fits(s: Seq<i64>, lo: int, hi: int)
    requires
        0 <= lo <= hi <= s.len(),
        hi - lo <= 0xffff_ffff_ffff_ffff,
    ensures
        -0x7fff_ffff_ffff_ffff_8000_0000_0000_0000 <= sum(s, lo, hi)
            <= 0x7fff_ffff_ffff_ffff_8000_0000_0000_0000,
{
    lemma_sum_bounds(s, lo, hi, -0x8000_0000_0000_0000, 0x7fff_ffff_ffff_ffff);
    let n = hi - lo;
    assert(n * (-0x8000_0000_0000_0000) >= -0x7fff_ffff_ffff_ffff_8000_0000_0000_0000)
        by (nonlinear_arith)
        requires
            0 <= n <= 0xffff_ffff_ffff_ffff,
    ;
    assert(n * 0x7fff_ffff_ffff_ffff <= 0x7fff_ffff_ffff_ffff_8000_0000_0000_0000)
        by (nonlinear_arith)
        requires
            0 <= n <= 0xffff_ffff_ffff_ffff,
    ;
}

/// The sum of every full window of `period` samples: entry `k` is the sum of
/// `data[k..k + period]`. Each sum follows from the one before it by taking
/// out the sample that leaves the window and adding the one that enters.
pub fn sliding_sum(data: &[i64], period: usize) -> (r: Result<Vec<i128>, IndicatorError>)
    ensures
        match r {
            Ok(out) => 1 <= period <= data.len() && out@.len() == data.len() - period + 1
                && forall|k: int|
                0 <= k < out@.len() ==> #[trigger] out@[k] == sum(data@, k, k + period),
            Err(e) => e == IndicatorError::InvalidPeriod && (period == 0 || period > data.len()),
        },
{
    if period == 0 || period > data.len() {
        return Err(IndicatorError::InvalidPeriod);
    }
    let n: usize = data.len();
    let mut acc: i128 = 0;
    let mut i: usize = 0;
    while i < period
        invariant
            i <= period <= n,
            n == data.len(),
            acc == sum(data@, 0, i as int),
        decreases period - i,
    {
        proof {
            lemma_sum_fits(data@, 0, i as int);
        }
        acc = acc + data[i] as i128;
        i = i + 1;
    }
    let mut out: Vec<i128> = Vec::new();
    out.push(acc);
    while i < n
        invariant
            1 <= period <= i <= n,
            n == data.len(),
            acc == sum(data@, i - period, i as int),
            out@.len() == i - period + 1,
            forall|k: int| 0 <= k < out@.len() ==> #[trigger] out@[k] == sum(data@, k, k + period),
        decreases n - i,
    {
        proof {
            lemma_sum_slide(data@, i - period, i as int);
            lemma_sum_fits(data@, i - period, i as int);
            lemma_sum_fits(data@, i - period + 1, i + 1);
        }
        acc = acc + (data[i] as i128 - data[i - period] as i128);
        out.push(acc);
        i = i + 1;
    }
    Ok(out)
}

/// The largest sample of every full window of `period` samples; no entry
/// where the series is shorter than one window.
pub fn max_in_window(data: &[i64], period: usize) -> (out: Vec<i64>)
    requires
        period >= 1,
    ensures
        out@.len() == if data.len() >= period {
            data.len() - period + 1
        } else {
            0
        },
        forall|k: int|
            0 <= k < out@.len() ==> #[trigger] out@[k] == window_max(data@, k, k + period - 1),
{
    if period > data.len() {
        Vec::new()
    } else {
        sliding_extreme(data, period, true)
    }
}

/// The smallest sample of every full window of `period` samples; no entry
/// where the series is shorter than one window.
pub fn min_in_window(data: &[i64], period: usize) -> (out: Vec<i64>)
    requires
        period >= 1,
    ensures
        out@.len() == if data.len() >= period {
            data.len() - period + 1
        } else {
            0
        },
        forall|k: int|
            0 <= k < out@.len() ==> #[trigger] out@[k] == window_min(data@, k, k + period - 1),
{
    if period > data.len() {
        Vec::new()
    } else {
        sliding_extreme(data, period, false)
    }
}

/// The largest and the smallest of the `period` samples that end at `index`.
pub fn highest_lowest(data: &[i64], period: usize, index: usize) -> (r: (i64, i64))
    requires
        period >= 1,
        period <= index + 1,
        index < data.len(),
    ensures
        r.0 == window_max(data@, index + 1 - period, index as int),
        r.1 == window_min(data@, index + 1 - period, index as int),
{
    let first: usize = index + 1 - period;
    let mut highest: i64 = data[first];
    let mut lowest: i64 = data[first];
    let mut i: usize = first;
    while i < index
        invariant
            first <= i <= index < data.len(),
            highest == window_max(data@, first as int, i as int),
            lowest == window_min(data@, first as int, i as int),
        decreases index - i,
    {
        i = i + 1;
        if data[i] >= highest {
            highest = data[i];
        }
        if data[i] <= lowest {
            lowest = data[i];
        }
    }
    (highest, lowest)
}

/// The extreme of a window of prices is a price.
pub proof fn lemma_window_extreme_is_price(want_max: bool, s: Seq<i64>, lo: int, hi: int)
    requires
        0 <= lo <= hi < s.len(),
        all_prices(s),
    ensures
        -0x8000_0000 <= window_extreme(want_max, s, lo, hi) < 0x8000_0000,
{
    lemma_window_extreme_is_extreme(want_max, s, lo, hi);
}

} // verus!
