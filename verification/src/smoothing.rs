use vstd::prelude::*;
use crate::error::IndicatorError;
use crate::fixed::{floor_div, lemma_div_brackets, lemma_quotient_bounds};
use crate::series::{all_within, holds, holds_if, undefined};
use crate::window::{lemma_sum_bounds, lemma_sum_fits, sliding_sum, sum};

verus! {

/// The mean of the `period` samples that end at index `i`, rounded down.
pub open spec fn mean_at(s: Seq<i64>, period: int, i: int) -> int {
    sum(s, i + 1 - period, i + 1) / period
}

/// One step of a smoothing recurrence with factor `num / den`: the weighted
/// mean of the new sample and the previous output, rounded down.
pub open spec fn blend(num: int, den: int, x: int, prev: int) -> int {
    (num * x + (den - num) * prev) / den
}

/// The smoothed value at index `i >= period - 1`: the mean of the first
/// `period` samples at `period - 1`, one [`blend`] step for each later sample.
pub open spec fn smoothed(s: Seq<i64>, period: int, num: int, den: int, i: int) -> int
    decreases i,
{
    if i <= period - 1 || i <= 0 {
        mean_at(s, period, period - 1)
    } else {
        blend(num, den, s[i] as int, smoothed(s, period, num, den, i - 1))
    }
}

/// The exponential moving average at index `i >= period - 1`: factor
/// `2 / (period + 1)`, seeded with the mean of the first `period` samples.
pub open spec fn ema_at(s: Seq<i64>, period: int, i: int) -> int {
    smoothed(s, period, 2, period + 1, i)
}

/// Wilder's average at index `i >= period - 1`: factor `1 / period`, seeded
/// with the mean of the first `period` samples.
pub open spec fn wilder_at(s: Seq<i64>, period: int, i: int) -> int {
    smoothed(s, period, 1, period, i)
}

/// A blend of two values between `lo` and `hi` lies between `lo` and `hi`.
pub proof fn lemma_blend_within(num: int, den: int, x: int, prev: int, lo: int, hi: int)
    requires
        0 <= num <= den,
        den > 0,
        lo <= x <= hi,
        lo <= prev <= hi,
    ensures
        lo <= blend(num, den, x, prev) <= hi,
        num * lo <= num * x <= num * hi,
        (den - num) * lo <= (den - num) * prev <= (den - num) * hi,
        den * lo <= num * x + (den - num) * prev <= den * hi,
{
    assert(num * lo <= num * x <= num * hi) by (nonlinear_arith)
        requires
            0 <= num,
            lo <= x <= hi,
    ;
    assert((den - num) * lo <= (den - num) * prev <= (den - num) * hi) by (nonlinear_arith)
        requires
            0 <= den - num,
            lo <= prev <= hi,
    ;
    assert(num * lo + (den - num) * lo == den * lo) by (nonlinear_arith);
    assert(num * hi + (den - num) * hi == den * hi) by (nonlinear_arith);
    lemma_quotient_bounds(num * x + (den - num) * prev, den, lo, hi);
}

/// The mean of a window lies between any two bounds of its samples.
pub proof fn lemma_mean_within(s: Seq<i64>, period: int, i: int, lo: int, hi: int)
    requires
        1 <= period <= i + 1 <= s.len(),
        all_within(s, lo, hi),
    ensures
        lo <= mean_at(s, period, i) <= hi,
        period * lo <= sum(s, i + 1 - period, i + 1) <= period * hi,
{
    lemma_sum_bounds(s, i + 1 - period, i + 1, lo, hi);
    lemma_quotient_bounds(sum(s, i + 1 - period, i + 1), period, lo, hi);
}

/// Every smoothed value lies between any two bounds of the samples.
pub proof fn lemma_smoothed_within(s: Seq<i64>, period: int, num: int, den: int, i: int, lo: int, hi: int)
    requires
        1 <= period <= s.len(),
        period - 1 <= i < s.len(),
        0 <= num <= den,
        den > 0,
        all_within(s, lo, hi),
    ensures
        lo <= smoothed(s, period, num, den, i) <= hi,
    decreases i,
{
    if i <= period - 1 || i <= 0 {
        lemma_mean_within(s, period, period - 1, lo, hi);
    } else {
        lemma_smoothed_within(s, period, num, den, i - 1, lo, hi);
        lemma_blend_within(num, den, s[i] as int, smoothed(s, period, num, den, i - 1), lo, hi);
    }
}

/// With factor one the smoothed series is the input: every step keeps the new
/// sample alone.
pub proof fn lemma_unit_factor_is_identity(s: Seq<i64>, den: int, i: int)
    requires
        0 <= i < s.len(),
        den > 0,
    ensures
        smoothed(s, 1, den, den, i) == s[i],
    decreases i,
{
    if i <= 0 {
        assert(sum(s, 0, 0) == 0);
        assert(sum(s, 0, 1) == s[0]);
    } else {
        let prev = smoothed(s, 1, den, den, i - 1);
        assert(den * (s[i] as int) + (den - den) * prev == den * (s[i] as int)) by (nonlinear_arith);
        assert((den * (s[i] as int)) / den == s[i] as int) by (nonlinear_arith)
            requires
                den > 0,
        ;
    }
}

/// One [`blend`] step on 64-bit samples.
pub fn blend_step(num: u128, den: u128, x: i64, prev: i64) -> (r: i64)
    requires
        0 < den <= 0x1_0000_0000_0000_0000,
        num <= den,
    ensures
        r == blend(num as int, den as int, x as int, prev as int),
{
    proof {
        lemma_blend_within(
            num as int,
            den as int,
            x as int,
            prev as int,
            -0x8000_0000_0000_0000,
            0x7fff_ffff_ffff_ffff,
        );
        assert(num * (-0x8000_0000_0000_0000) >= 0x1_0000_0000_0000_0000 * (-0x8000_0000_0000_0000))
            by (nonlinear_arith)
            requires
                0 <= num <= 0x1_0000_0000_0000_0000,
        ;
        assert(num * 0x7fff_ffff_ffff_ffff <= 0x1_0000_0000_0000_0000 * 0x7fff_ffff_ffff_ffff)
            by (nonlinear_arith)
            requires
                0 <= num <= 0x1_0000_0000_0000_0000,
        ;
        assert((den - num) * (-0x8000_0000_0000_0000) >= 0x1_0000_0000_0000_0000 * (
        -0x8000_0000_0000_0000)) by (nonlinear_arith)
            requires
                0 <= den - num <= 0x1_0000_0000_0000_0000,
        ;
        assert((den - num) * 0x7fff_ffff_ffff_ffff <= 0x1_0000_0000_0000_0000
            * 0x7fff_ffff_ffff_ffff) by (nonlinear_arith)
            requires
                0 <= den - num <= 0x1_0000_0000_0000_0000,
        ;
        assert(den * (-0x8000_0000_0000_0000) >= 0x1_0000_0000_0000_0000 * (-0x8000_0000_0000_0000))
            by (nonlinear_arith)
            requires
                0 <= den <= 0x1_0000_0000_0000_0000,
        ;
        assert(den * 0x7fff_ffff_ffff_ffff <= 0x1_0000_0000_0000_0000 * 0x7fff_ffff_ffff_ffff)
            by (nonlinear_arith)
            requires
                0 <= den <= 0x1_0000_0000_0000_0000,
        ;
    }
    let a: i128 = (num as i128) * (x as i128);
    let b: i128 = ((den - num) as i128) * (prev as i128);
    let q: i128 = floor_div(a + b, den as i128);
    q as i64
}

/// The rolling mean over `period` samples, aligned with the input: position
/// `i` is undefined before `period - 1` and holds the mean of
/// `values[i + 1 - period..=i]` from there on.
pub fn smooth(values: &[i64], period: usize) -> (out: Vec<Option<i64>>)
    requires
        period >= 1,
    ensures
        out@.len() == values.len(),
        forall|i: int| 0 <= i < out@.len() && i < period - 1 ==> #[trigger] out@[i] == None::<i64>,
        forall|i: int|
            period - 1 <= i < out@.len() ==> holds(#[trigger] out@[i], mean_at(values@, period as int, i)),
{
    let n: usize = values.len();
    if n < period {
        return undefined(n);
    }
    let sums: Vec<i128> = match sliding_sum(values, period) {
        Ok(v) => v,
        Err(_) => Vec::new(),
    };
    let mut out: Vec<Option<i64>> = undefined(period - 1);
    let mut k: usize = 0;
    while k < sums.len()
        invariant
            1 <= period <= n,
            n == values.len(),
            sums@.len() == n - period + 1,
            k <= sums@.len(),
            forall|j: int| 0 <= j < sums@.len() ==> #[trigger] sums@[j] == sum(values@, j, j + period),
            out@.len() == period - 1 + k,
            forall|i: int| 0 <= i < period - 1 ==> #[trigger] out@[i] == None::<i64>,
            forall|i: int|
                period - 1 <= i < out@.len() ==> holds(#[trigger] out@[i], mean_at(values@, period as int, i)),
        decreases sums@.len() - k,
    {
        proof {
            assert(sums@[k as int] == sum(values@, k as int, k + period));
            lemma_mean_within(
                values@,
                period as int,
                k + period - 1,
                -0x8000_0000_0000_0000,
                0x7fff_ffff_ffff_ffff,
            );
        }
        let m: i128 = floor_div(sums[k], period as i128);
        out.push(Some(m as i64));
        k = k + 1;
    }
    out
}

/// Why [`calculate_sma`] rejects an input, if it does.
pub open spec fn sma_rejection(len: int, period: int) -> Option<IndicatorError> {
    if period == 0 {
        Some(IndicatorError::InvalidPeriod)
    } else if len == 0 {
        Some(IndicatorError::EmptyInput)
    } else if len < period {
        Some(IndicatorError::InvalidPeriod)
    } else {
        None
    }
}

/// The simple moving average, aligned with the input: undefined before
/// `period - 1`, the mean of the last `period` samples from there on.
pub fn calculate_sma(data: &[i64], period: usize) -> (r: Result<Vec<Option<i64>>, IndicatorError>)
    ensures
        match r {
            Ok(out) => sma_rejection(data@.len() as int, period as int) is None && out@.len()
                == data.len() && (forall|i: int|
                0 <= i < out@.len() && i < period - 1 ==> #[trigger] out@[i] == None::<i64>)
                && (forall|i: int|
                period - 1 <= i < out@.len() ==> holds(#[trigger] out@[i], mean_at(data@, period as int, i))),
            Err(e) => sma_rejection(data@.len() as int, period as int) == Some(e),
        },
{
    if period == 0 {
        return Err(IndicatorError::InvalidPeriod);
    }
    if data.len() == 0 {
        return Err(IndicatorError::EmptyInput);
    }
    if data.len() < period {
        return Err(IndicatorError::InvalidPeriod);
    }
    Ok(smooth(data, period))
}

/// A smoothing recurrence with factor `num / den`, aligned with the input.
/// A series shorter than `period` gives undefined positions only. Otherwise
/// position `i` is undefined before `period - 1` and holds
/// [`smoothed`]`(data, period, num, den, i)` from there on.
pub fn smooth_recursive(data: &[i64], period: usize, num: u128, den: u128) -> (out: Vec<Option<i64>>)
    requires
        period >= 1,
        0 < den <= 0x1_0000_0000_0000_0000,
        num <= den,
    ensures
        out@.len() == data.len(),
        forall|i: int|
            0 <= i < out@.len() && (i < period - 1 || data.len() < period) ==> #[trigger] out@[i]
                == None::<i64>,
        forall|i: int|
            period - 1 <= i < out@.len() && period <= data.len() ==> holds(#[trigger] out@[i], smoothed(data@, period as int, num as int, den as int, i)),
{
    let n: usize = data.len();
    if n < period {
        return undefined(n);
    }
    let mut out: Vec<Option<i64>> = undefined(period - 1);
    let mut acc: i128 = 0;
    let mut i: usize = 0;
    while i < period
        invariant
            i <= period <= n,
            n == data.len(),
            acc == sum(data@, 0, i as int),
        decreases period - i,
    {
        proof {
            lemma_sum_fits(data@, 0, i as int);
        }
        acc = acc + data[i] as i128;
        i = i + 1;
    }
    proof {
        lemma_mean_within(
            data@,
            period as int,
            period - 1,
            -0x8000_0000_0000_0000,
            0x7fff_ffff_ffff_ffff,
        );
    }
    let mut prev: i64 = floor_div(acc, period as i128) as i64;
    out.push(Some(prev));
    while i < n
        invariant
            1 <= period <= i <= n,
            n == data.len(),
            0 < den <= 0x1_0000_0000_0000_0000,
            num <= den,
            out@.len() == i,
            prev == smoothed(data@, period as int, num as int, den as int, i - 1),
            forall|j: int| 0 <= j < period - 1 ==> #[trigger] out@[j] == None::<i64>,
            forall|j: int|
                period - 1 <= j < out@.len() ==> holds(#[trigger] out@[j], smoothed(data@, period as int, num as int, den as int, j)),
        decreases n - i,
    {
        let next: i64 = blend_step(num, den, data[i], prev);
        prev = next;
        out.push(Some(prev));
        i = i + 1;
    }
    out
}

/// The exponential moving average, aligned with the input: factor
/// `2 / (period + 1)`, seeded at `period - 1` with the mean of the first
/// `period` samples. With `period == 1` the output is the input. A series
/// shorter than `period` gives undefined positions only.
pub fn calculate_ema(data: &[i64], period: usize) -> (out: Vec<Option<i64>>)
    requires
        period >= 1,
    ensures
        out@.len() == data.len(),
        forall|i: int|
            0 <= i < out@.len() && (i < period - 1 || data.len() < period) ==> #[trigger] out@[i]
                == None::<i64>,
        forall|i: int|
            period - 1 <= i < out@.len() && period <= data.len() ==> holds(#[trigger] out@[i], ema_at(data@, period as int, i)),
        period == 1 ==> forall|i: int| 0 <= i < out@.len() ==> #[trigger] out@[i] == Some(data@[i]),
{
    let out = smooth_recursive(data, period, 2, period as u128 + 1);
    proof {
        if period == 1 {
            assert forall|i: int| 0 <= i < out@.len() implies #[trigger] out@[i] == Some(
                data@[i],
            ) by {
                lemma_unit_factor_is_identity(data@, 2, i);
            }
        }
    }
    out
}

/// Wilder's average, aligned with the input: factor `1 / period`, seeded at
/// `period - 1` with the mean of the first `period` samples. A series shorter
/// than `period` gives undefined positions only.
pub fn wilder_smooth(data: &[i64], period: usize) -> (out: Vec<Option<i64>>)
    requires
        period >= 1,
    ensures
        out@.len() == data.len(),
        forall|i: int|
            0 <= i < out@.len() && (i < period - 1 || data.len() < period) ==> #[trigger] out@[i]
                == None::<i64>,
        forall|i: int|
            period - 1 <= i < out@.len() && period <= data.len() ==> holds(#[trigger] out@[i], wilder_at(data@, period as int, i)),
{
    smooth_recursive(data, period, 1, period as u128)
}

/// The defined part of the exponential moving average, as a series of its
/// own: entry `m` is the average at index `m + period - 1`.
pub open spec fn ema_series(x: Seq<i64>, period: int) -> Seq<i64> {
    Seq::new(
        if x.len() >= period {
            (x.len() - period + 1) as nat
        } else {
            0
        },
        |m: int| ema_at(x, period, m + period - 1) as i64,
    )
}

/// The exponential moving average over `second` of the exponential moving
/// average over `first`, at index `j >= first + second - 2`.
pub open spec fn double_ema_at(x: Seq<i64>, first: int, second: int, j: int) -> int {
    ema_at(ema_series(x, first), second, j - (first - 1))
}

/// Every doubly smoothed value lies between any two bounds of the samples.
pub proof fn lemma_double_ema_within(x: Seq<i64>, first: int, second: int, j: int, lo: int, hi: int)
    requires
        1 <= first,
        1 <= second,
        first + second - 2 <= j < x.len(),
        all_within(x, lo, hi),
        -0x8000_0000_0000_0000 <= lo,
        hi <= 0x7fff_ffff_ffff_ffff,
    ensures
        lo <= double_ema_at(x, first, second, j) <= hi,
{
    let inner = ema_series(x, first);
    assert forall|m: int| 0 <= m < inner.len() implies lo <= #[trigger] inner[m] <= hi by {
        lemma_smoothed_within(x, first, 2, first + 1, m + first - 1, lo, hi);
    }
    lemma_smoothed_within(inner, second, 2, second + 1, j - (first - 1), lo, hi);
}

/// The exponential moving average over `second` of the exponential moving
/// average over `first`, aligned with the input: undefined before
/// `first + second - 2`.
pub fn double_ema(data: &[i64], first: usize, second: usize) -> (out: Vec<Option<i64>>)
    requires
        first >= 1,
        second >= 1,
    ensures
        out@.len() == data.len(),
        forall|j: int|
            0 <= j < out@.len() ==> holds_if(
                #[trigger] out@[j],
                j >= first + second - 2,
                double_ema_at(data@, first as int, second as int, j),
            ),
{
    let n: usize = data.len();
    let once: Vec<Option<i64>> = calculate_ema(data, first);
    let inner: Vec<i64> = crate::series::defined_part(&once, first - 1);
    proof {
        assert(inner@ =~= ema_series(data@, first as int));
    }
    let twice: Vec<Option<i64>> = calculate_ema(inner.as_slice(), second);
    let mut out: Vec<Option<i64>> = undefined(if n < first - 1 {
        n
    } else {
        first - 1
    });
    let mut m: usize = 0;
    while m < twice.len()
        invariant
            first >= 1,
            second >= 1,
            n == data.len(),
            inner@ == ema_series(data@, first as int),
            twice@.len() == inner@.len(),
            forall|i: int|
                0 <= i < twice@.len() && (i < second - 1 || inner@.len() < second)
                    ==> #[trigger] twice@[i] == None::<i64>,
            forall|i: int|
                second - 1 <= i < twice@.len() && second <= inner@.len() ==> holds(
                    #[trigger] twice@[i],
                    ema_at(inner@, second as int, i),
                ),
            m <= twice@.len(),
            out@.len() == (if n < first - 1 {
                n as int
            } else {
                first - 1
            }) + m,
            forall|j: int|
                0 <= j < out@.len() ==> holds_if(
                    #[trigger] out@[j],
                    j >= first + second - 2,
                    double_ema_at(data@, first as int, second as int, j),
                ),
        decreases twice@.len() - m,
    {
        proof {
            if m >= second - 1 {
                assert(holds(twice@[m as int], ema_at(inner@, second as int, m as int)));
            } else {
                assert(twice@[m as int] == None::<i64>);
            }
        }
        out.push(twice[m]);
        m = m + 1;
    }
    out
}

/// Whether `a` lies at or below `b` at every position.
pub open spec fn pointwise_le(a: Seq<i64>, b: Seq<i64>) -> bool {
    a.len() == b.len() && forall|k: int| 0 <= k < a.len() ==> #[trigger] a[k] <= b[k]
}

/// Whether `n` is `a` with every sign turned.
pub open spec fn negation_of(n: Seq<i64>, a: Seq<i64>) -> bool {
    a.len() == n.len() && forall|k: int| 0 <= k < a.len() ==> #[trigger] n[k] == -a[k]
}

/// A window of a series that lies below another sums to no more.
pub proof fn lemma_sum_monotone(a: Seq<i64>, b: Seq<i64>, lo: int, hi: int)
    requires
        pointwise_le(a, b),
        0 <= lo <= hi <= a.len(),
    ensures
        sum(a, lo, hi) <= sum(b, lo, hi),
    decreases hi - lo,
{
    if lo < hi {
        lemma_sum_monotone(a, b, lo, hi - 1);
        assert(a[hi - 1] <= b[hi - 1]);
    }
}

/// A window of a negated series sums to the negated sum.
pub proof fn lemma_sum_of_negation(a: Seq<i64>, n: Seq<i64>, lo: int, hi: int)
    requires
        negation_of(n, a),
        0 <= lo <= hi <= a.len(),
    ensures
        sum(n, lo, hi) == -sum(a, lo, hi),
    decreases hi - lo,
{
    if lo < hi {
        lemma_sum_of_negation(a, n, lo, hi - 1);
        assert(n[hi - 1] == -a[hi - 1]);
    }
}

/// Rounding down keeps the order: the quotient of the smaller is no larger.
pub proof fn lemma_quotient_monotone(x: int, y: int, den: int)
    requires
        den > 0,
        x <= y,
    ensures
        x / den <= y / den,
{
    lemma_div_brackets(x, den);
    lemma_div_brackets(y, den);
    let p = x / den;
    let q = y / den;
    if p > q {
        assert(den * p >= den * q + den) by (nonlinear_arith)
            requires
                den > 0,
                p >= q + 1,
        ;
    }
}

/// Two quotients of values that sum to nothing or less sum to nothing or
/// less: rounding a value down and its negation down never gains.
pub proof fn lemma_quotients_of_opposites(x: int, y: int, den: int)
    requires
        den > 0,
        x + y <= 0,
    ensures
        x / den + y / den <= 0,
{
    lemma_div_brackets(x, den);
    lemma_div_brackets(y, den);
    let p = x / den;
    let q = y / den;
    if p + q > 0 {
        assert(den * p + den * q >= den) by (nonlinear_arith)
            requires
                den > 0,
                p + q >= 1,
        ;
    }
}

/// Smoothing keeps the order: the smoothed value of a series that lies below
/// another is no larger.
pub proof fn lemma_smoothed_monotone(a: Seq<i64>, b: Seq<i64>, period: int, num: int, den: int, i: int)
    requires
        pointwise_le(a, b),
        1 <= period <= a.len(),
        period - 1 <= i < a.len(),
        0 <= num <= den,
        den > 0,
    ensures
        smoothed(a, period, num, den, i) <= smoothed(b, period, num, den, i),
    decreases i,
{
    if i <= period - 1 || i <= 0 {
        lemma_sum_monotone(a, b, 0, period);
        lemma_quotient_monotone(sum(a, 0, period), sum(b, 0, period), period);
    } else {
        lemma_smoothed_monotone(a, b, period, num, den, i - 1);
        let pa = smoothed(a, period, num, den, i - 1);
        let pb = smoothed(b, period, num, den, i - 1);
        let xa = a[i] as int;
        let xb = b[i] as int;
        assert(num * xa + (den - num) * pa <= num * xb + (den - num) * pb) by (nonlinear_arith)
            requires
                0 <= num <= den,
                xa <= xb,
                pa <= pb,
        ;
        lemma_quotient_monotone(num * xa + (den - num) * pa, num * xb + (den - num) * pb, den);
    }
}

/// The smoothed value of a series and that of its negation sum to nothing or
/// less: the negated smoothed value of the negation is the series smoothed
/// with every quotient rounded up, and it is no smaller than the series
/// smoothed with every quotient rounded down.
pub proof fn lemma_smoothed_of_negation(a: Seq<i64>, n: Seq<i64>, period: int, num: int, den: int, i: int)
    requires
        negation_of(n, a),
        1 <= period <= a.len(),
        period - 1 <= i < a.len(),
        0 <= num <= den,
        den > 0,
    ensures
        smoothed(a, period, num, den, i) + smoothed(n, period, num, den, i) <= 0,
    decreases i,
{
    if i <= period - 1 || i <= 0 {
        lemma_sum_of_negation(a, n, 0, period);
        lemma_quotients_of_opposites(sum(a, 0, period), sum(n, 0, period), period);
    } else {
        lemma_smoothed_of_negation(a, n, period, num, den, i - 1);
        let pa = smoothed(a, period, num, den, i - 1);
        let pn = smoothed(n, period, num, den, i - 1);
        let x = a[i] as int;
        assert(n[i] == -x);
        assert((num * x + (den - num) * pa) + (num * (-x) + (den - num) * pn) <= 0)
            by (nonlinear_arith)
            requires
                0 <= num <= den,
                pa + pn <= 0,
        ;
        lemma_quotients_of_opposites(
            num * x + (den - num) * pa,
            num * (-x) + (den - num) * pn,
            den,
        );
    }
}

/// Every entry of the defined part of the moving average lies between any two
/// bounds of the samples, and is the average itself.
pub proof fn lemma_ema_series_within(x: Seq<i64>, period: int, lo: int, hi: int)
    requires
        1 <= period,
        all_within(x, lo, hi),
        -0x8000_0000_0000_0000 <= lo,
        hi <= 0x7fff_ffff_ffff_ffff,
    ensures
        all_within(ema_series(x, period), lo, hi),
        forall|m: int|
            0 <= m < ema_series(x, period).len() ==> #[trigger] ema_series(x, period)[m] == ema_at(
                x,
                period,
                m + period - 1,
            ),
{
    let inner = ema_series(x, period);
    assert forall|m: int| 0 <= m < inner.len() implies lo <= #[trigger] inner[m] <= hi && inner[m]
        == ema_at(x, period, m + period - 1) by {
        lemma_smoothed_within(x, period, 2, period + 1, m + period - 1, lo, hi);
    }
}

/// Smoothing twice keeps the order.
pub proof fn lemma_double_ema_monotone(a: Seq<i64>, b: Seq<i64>, first: int, second: int, j: int)
    requires
        pointwise_le(a, b),
        1 <= first,
        1 <= second,
        first + second - 2 <= j < a.len(),
    ensures
        double_ema_at(a, first, second, j) <= double_ema_at(b, first, second, j),
{
    let ea = ema_series(a, first);
    let eb = ema_series(b, first);
    lemma_ema_series_within(a, first, -0x8000_0000_0000_0000, 0x7fff_ffff_ffff_ffff);
    lemma_ema_series_within(b, first, -0x8000_0000_0000_0000, 0x7fff_ffff_ffff_ffff);
    assert forall|m: int| 0 <= m < ea.len() implies #[trigger] ea[m] <= eb[m] by {
        lemma_smoothed_monotone(a, b, first, 2, first + 1, m + first - 1);
    }
    lemma_smoothed_monotone(ea, eb, second, 2, second + 1, j - (first - 1));
}

/// The twice smoothed value of a series and that of its negation sum to
/// nothing or less.
pub proof fn lemma_double_ema_of_negation(a: Seq<i64>, n: Seq<i64>, first: int, second: int, j: int)
    requires
        negation_of(n, a),
        1 <= first,
        1 <= second,
        first + second - 2 <= j < a.len(),
        all_within(a, -0x7fff_ffff_ffff_ffff, 0x7fff_ffff_ffff_ffff),
    ensures
        double_ema_at(a, first, second, j) + double_ema_at(n, first, second, j) <= 0,
{
    let ea = ema_series(a, first);
    let en = ema_series(n, first);
    lemma_ema_series_within(a, first, -0x7fff_ffff_ffff_ffff, 0x7fff_ffff_ffff_ffff);
    lemma_ema_series_within(n, first, -0x8000_0000_0000_0000, 0x7fff_ffff_ffff_ffff);
    let turned = Seq::new(ea.len(), |m: int| (-ea[m]) as i64);
    assert forall|m: int| 0 <= m < ea.len() implies #[trigger] turned[m] == -ea[m] by {}
    assert forall|m: int| 0 <= m < en.len() implies #[trigger] en[m] <= turned[m] by {
        lemma_smoothed_of_negation(a, n, first, 2, first + 1, m + first - 1);
        assert(turned[m] == -ea[m]);
    }
    let at = j - (first - 1);
    lemma_smoothed_monotone(en, turned, second, 2, second + 1, at);
    lemma_smoothed_of_negation(ea, turned, second, 2, second + 1, at);
}

} // verus!
