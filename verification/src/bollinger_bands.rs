use vstd::prelude::*;
use crate::error::IndicatorError;
use crate::fixed::{floor_div, isqrt, lemma_quotient_bounds, sqrt_floor, SCALE};
use crate::series::{all_prices, widen, widened};
use crate::smoothing::mean_at;
use crate::window::{
    lemma_spread_nonneg,
    lemma_sum_bounds,
    lemma_sum_sq_bounds,
    sliding_sum,
    sliding_sum_sq,
    sum,
    sum_sq,
};

verus! {

/// The window size when none is given.
pub const DEFAULT_PERIOD: usize = 20;

/// The band multiplier when none is given: 2.0.
pub const DEFAULT_MULTIPLIER: u32 = 20_000;

/// The three bands, one entry for every full window of the input: entry `k`
/// belongs to the window that starts at index `k`.
#[derive(Debug)]
pub struct BollingerBandsResult {
    /// The mean of the window.
    pub middle: Vec<i64>,
    /// The mean plus the band offset.
    pub upper: Vec<i64>,
    /// The mean minus the band offset.
    pub lower: Vec<i64>,
}

/// The population variance of the window of `period` samples that starts at
/// `k`, in squares of a ten-thousandth of a tick and rounded down:
/// `(period * sum of squares - square of sum) / period^2` in that unit.
pub open spec fn fine_variance_at(s: Seq<i64>, period: int, k: int) -> int {
    (SCALE * SCALE * (period * sum_sq(s, k, k + period) - sum(s, k, k + period) * sum(
        s,
        k,
        k + period,
    ))) / (period * period)
}

/// The standard deviation of that window in ten-thousandths of a tick: the
/// integer square root of its variance in that unit.
pub open spec fn deviation_at(s: Seq<i64>, period: int, k: int) -> int {
    sqrt_floor(fine_variance_at(s, period, k))
}

/// The distance of the outer bands from the middle one, in ticks:
/// `multiplier` basis points of the standard deviation.
pub open spec fn band_offset(s: Seq<i64>, period: int, multiplier: int, k: int) -> int {
    (multiplier * deviation_at(s, period, k)) / (SCALE * SCALE)
}

/// Why [`bollinger_bands`] rejects an input, if it does.
pub open spec fn bollinger_rejection(len: int, period: int, multiplier: int) -> Option<
    IndicatorError,
> {
    if period == 0 {
        Some(IndicatorError::InvalidPeriod)
    } else if multiplier <= 0 {
        Some(IndicatorError::InvalidParameter)
    } else if len == 0 {
        Some(IndicatorError::EmptyInput)
    } else if period > len {
        Some(IndicatorError::InvalidPeriod)
    } else {
        None
    }
}

/// Whether `bands` are the Bollinger bands of `s` for `period` and
/// `multiplier`: the middle band is the mean, the outer bands lie one offset
/// above and below it, and the offset is not negative.
pub open spec fn is_bollinger(
    bands: BollingerBandsResult,
    s: Seq<i64>,
    period: int,
    multiplier: int,
) -> bool {
    &&& bands.middle@.len() == s.len() - period + 1
    &&& bands.upper@.len() == bands.middle@.len()
    &&& bands.lower@.len() == bands.middle@.len()
    &&& forall|k: int|
        0 <= k < bands.middle@.len() ==> #[trigger] bands.middle@[k] == mean_at(
            s,
            period,
            k + period - 1,
        )
    &&& forall|k: int|
        0 <= k < bands.middle@.len() ==> #[trigger] bands.upper@[k] == bands.middle@[k]
            + band_offset(s, period, multiplier, k)
    &&& forall|k: int|
        0 <= k < bands.middle@.len() ==> #[trigger] bands.lower@[k] == bands.middle@[k]
            - band_offset(s, period, multiplier, k)
    &&& forall|k: int|
        0 <= k < bands.middle@.len() ==> bands.lower@[k] <= #[trigger] bands.middle@[k]
            <= bands.upper@[k]
}

/// The outer bands lie at the same distance on either side of the middle one.
pub proof fn lemma_bands_symmetric(
    bands: BollingerBandsResult,
    s: Seq<i64>,
    period: int,
    multiplier: int,
    k: int,
)
    requires
        is_bollinger(bands, s, period, multiplier),
        0 <= k < bands.middle@.len(),
    ensures
        bands.upper@[k] - bands.middle@[k] == bands.middle@[k] - bands.lower@[k],
{
}

/// Bounds of the terms of the variance of a window of prices.
pub proof fn lemma_variance_terms(s: Seq<i64>, period: int, k: int)
    requires
        all_prices(s),
        1 <= period,
        0 <= k,
        k + period <= s.len(),
    ensures
        0 <= sum_sq(s, k, k + period) <= period * 0x4000_0000_0000_0000,
        -(period * 0x8000_0000) <= sum(s, k, k + period) <= period * 0x8000_0000,
        0 <= period * sum_sq(s, k, k + period) - sum(s, k, k + period) * sum(s, k, k + period),
{
    lemma_sum_sq_bounds(s, k, k + period);
    lemma_sum_bounds(s, k, k + period, -0x8000_0000, 0x8000_0000);
    lemma_spread_nonneg(s, k, k + period);
    assert(period * (-0x8000_0000) == -(period * 0x8000_0000)) by (nonlinear_arith);
}

/// The Bollinger bands of a price series, for every full window of `period`
/// prices: the mean, and the mean plus and minus `multiplier` basis points of
/// the standard deviation. The deviation is taken in ten-thousandths of a
/// tick before it is multiplied, and the offset rounded down to the tick.
pub fn compute_bollinger_bands(prices: &[i32], period: usize, multiplier: u32) -> (bands:
    BollingerBandsResult)
    requires
        1 <= period <= prices.len(),
    ensures
        is_bollinger(bands, widened(prices@), period as int, multiplier as int),
        forall|k: int|
            0 <= k < bands.middle@.len() ==> #[trigger] bands.upper@[k] - bands.middle@[k]
                == bands.middle@[k] - bands.lower@[k],
        forall|k: int|
            0 <= k < bands.middle@.len() ==> bands.lower@[k] <= #[trigger] bands.middle@[k]
                <= bands.upper@[k],
{
    let data: Vec<i64> = widen(prices);
    let sums: Vec<i128> = match sliding_sum(data.as_slice(), period) {
        Ok(v) => v,
        Err(_) => Vec::new(),
    };
    let squares: Vec<i128> = match sliding_sum_sq(data.as_slice(), period) {
        Ok(v) => v,
        Err(_) => Vec::new(),
    };
    let ghost s = data@;
    let p: i128 = period as i128;
    let mut middle: Vec<i64> = Vec::new();
    let mut upper: Vec<i64> = Vec::new();
    let mut lower: Vec<i64> = Vec::new();
    let mut k: usize = 0;
    while k < sums.len()
        invariant
            s == data@,
            all_prices(s),
            1 <= period <= s.len(),
            p == period,
            sums@.len() == s.len() - period + 1,
            squares@.len() == sums@.len(),
            forall|j: int| 0 <= j < sums@.len() ==> #[trigger] sums@[j] == sum(s, j, j + period),
            forall|j: int|
                0 <= j < squares@.len() ==> #[trigger] squares@[j] == sum_sq(s, j, j + period),
            k <= sums@.len(),
            middle@.len() == k,
            upper@.len() == k,
            lower@.len() == k,
            forall|j: int|
                0 <= j < k ==> #[trigger] middle@[j] == mean_at(s, period as int, j + period - 1),
            forall|j: int|
                0 <= j < k ==> #[trigger] upper@[j] == middle@[j] + band_offset(
                    s,
                    period as int,
                    multiplier as int,
                    j,
                ),
            forall|j: int|
                0 <= j < k ==> #[trigger] lower@[j] == middle@[j] - band_offset(
                    s,
                    period as int,
                    multiplier as int,
                    j,
                ),
            forall|j: int| 0 <= j < k ==> lower@[j] <= #[trigger] middle@[j] <= upper@[j],
        decreases sums@.len() - k,
    {
        let t: i128 = sums[k];
        let q: i128 = squares[k];
        proof {
            assert(sums@[k as int] == sum(s, k as int, k + period));
            assert(squares@[k as int] == sum_sq(s, k as int, k + period));
            lemma_variance_terms(s, period as int, k as int);
            lemma_sum_bounds(s, k as int, k + period, -0x8000_0000, 0x8000_0000);
            lemma_quotient_bounds(t as int, period as int, -0x8000_0000, 0x8000_0000);
        }
        let mean: i64 = floor_div(t, p) as i64;
        let deviation: u64 = calculate_std(t, q, period);
        proof {
            assert(0 <= multiplier * deviation <= 0xffff_ffff * 0x1388_0000_0000)
                by (nonlinear_arith)
                requires
                    0 <= multiplier <= 0xffff_ffff,
                    0 <= deviation <= 0x1388_0000_0000,
            ;
            assert(SCALE * SCALE == 100_000_000);
            assert(100_000_000 * 0 == 0 && 100_000_000 * 0x8_0000_0000_0000 >= 0xffff_ffff
                * 0x1388_0000_0000);
            lemma_quotient_bounds(multiplier * deviation, 100_000_000, 0, 0x8_0000_0000_0000);
        }
        let offset: i64 = floor_div(
            (multiplier as i128) * (deviation as i128),
            (SCALE as i128) * (SCALE as i128),
        ) as i64;
        middle.push(mean);
        upper.push(mean + offset);
        lower.push(mean - offset);
        k = k + 1;
    }
    BollingerBandsResult { middle, upper, lower }
}

/// The Bollinger bands of a price series. A window size or multiplier left out
/// takes its default.
pub fn bollinger_bands(prices: &[i32], period: Option<usize>, multiplier: Option<u32>) -> (r: Result<
    BollingerBandsResult,
    IndicatorError,
>)
    ensures
        ({
            let p = period.unwrap_or(DEFAULT_PERIOD) as int;
            let m = multiplier.unwrap_or(DEFAULT_MULTIPLIER) as int;
            match r {
                Ok(bands) => bollinger_rejection(prices@.len() as int, p, m) is None
                    && is_bollinger(bands, widened(prices@), p, m),
                Err(e) => bollinger_rejection(prices@.len() as int, p, m) == Some(e),
            }
        }),
{
    let period: usize = match period {
        Some(v) => v,
        None => DEFAULT_PERIOD,
    };
    let multiplier: u32 = match multiplier {
        Some(v) => v,
        None => DEFAULT_MULTIPLIER,
    };
    if period == 0 {
        return Err(IndicatorError::InvalidPeriod);
    }
    if multiplier == 0 {
        return Err(IndicatorError::InvalidParameter);
    }
    if prices.len() == 0 {
        return Err(IndicatorError::EmptyInput);
    }
    if period > prices.len() {
        return Err(IndicatorError::InvalidPeriod);
    }
    Ok(compute_bollinger_bands(prices, period, multiplier))
}

/// The standard deviation of `n` prices with the given sum and sum of
/// squares, in ten-thousandths of a tick, rounded down. The variance is
/// `(n * sum_sq - sum * sum) / (n * n)`; it is reached through the distances
/// of the prices from their rounded mean, whose squares stay within 128 bits
/// for any `n`.
pub fn calculate_std(sum: i128, sum_sq: i128, n: usize) -> (r: u64)
    requires
        n >= 1,
        -(n * 0x8000_0000) <= sum <= n * 0x8000_0000,
        0 <= sum_sq <= n * 0x4000_0000_0000_0000,
        n * sum_sq - sum * sum >= 0,
    ensures
        r == sqrt_floor((SCALE * SCALE * (n * sum_sq - sum * sum)) / (n * n)),
        r <= 0x1388_0000_0000,
{
    let p: i128 = n as i128;
    let ghost w: int = n * sum_sq - sum * sum;
    proof {
        assert(-0x7fff_ffff_ffff_ffff_8000_0000 <= n * (-0x8000_0000) && n * 0x8000_0000
            <= 0x7fff_ffff_ffff_ffff_8000_0000 && n * 0x4000_0000_0000_0000
            <= 0x3fff_ffff_ffff_ffff_c000_0000_0000_0000) by (nonlinear_arith)
            requires
                1 <= n <= 0xffff_ffff_ffff_ffff,
        ;
        assert(-(n * 0x8000_0000) == n * (-0x8000_0000)) by (nonlinear_arith);
        lemma_quotient_bounds(sum as int, n as int, -0x8000_0000, 0x8000_0000);
        crate::fixed::lemma_div_brackets(sum as int, n as int);
    }
    let m: i128 = floor_div(sum, p);
    proof {
        assert(-0x4000_0000_0000_0000 <= m * m <= 0x4000_0000_0000_0000 && 0 <= m * m)
            by (nonlinear_arith)
            requires
                -0x8000_0000 <= m <= 0x8000_0000,
        ;
        let mm = m * m;
        assert(0 <= p * mm <= 0x3fff_ffff_ffff_ffff_c000_0000_0000_0000) by (nonlinear_arith)
            requires
                1 <= p <= 0xffff_ffff_ffff_ffff,
                0 <= mm <= 0x4000_0000_0000_0000,
        ;
        assert(-0x3fff_ffff_ffff_ffff_c000_0000_0000_0000 <= m * sum
            <= 0x3fff_ffff_ffff_ffff_c000_0000_0000_0000) by (nonlinear_arith)
            requires
                -0x8000_0000 <= m <= 0x8000_0000,
                -0x7fff_ffff_ffff_ffff_8000_0000 <= sum <= 0x7fff_ffff_ffff_ffff_8000_0000,
        ;
        assert(-0x7fff_ffff_ffff_ffff_8000_0000 <= p * m <= 0x7fff_ffff_ffff_ffff_8000_0000)
            by (nonlinear_arith)
            requires
                1 <= p <= 0xffff_ffff_ffff_ffff,
                -0x8000_0000 <= m <= 0x8000_0000,
        ;
    }
    let rest: i128 = sum - p * m;
    let grown: i128 = sum_sq + p * (m * m);
    let twice: i128 = 2 * (m * sum);
    let ghost v: int = grown - twice;
    proof {
        // n times the squared distances from the rounded mean is the spread
        // plus the square of what the mean left over.
        assert(p * v == w + rest * rest) by (nonlinear_arith)
            requires
                v == sum_sq + p * (m * m) - 2 * (m * sum),
                rest == sum - p * m,
                w == p * sum_sq - sum * sum,
        ;
        assert(0 <= rest * rest < p * p) by (nonlinear_arith)
            requires
                0 <= rest < p,
        ;
        assert(w <= p * (p * 0x4000_0000_0000_0000)) by (nonlinear_arith)
            requires
                w == p * sum_sq - sum * sum,
                sum_sq <= p * 0x4000_0000_0000_0000,
                p >= 1,
        ;
        if v < 0 {
            assert(p * v < 0) by (nonlinear_arith)
                requires
                    p >= 1,
                    v <= -1,
            ;
        }
        if v > p * 0x4000_0000_0000_0000 + p {
            assert(p * v >= p * (p * 0x4000_0000_0000_0000) + p * p) by (nonlinear_arith)
                requires
                    p >= 1,
                    v >= p * 0x4000_0000_0000_0000 + p,
            ;
        }
        assert(p * 0x4000_0000_0000_0000 + p <= 0x4000_0000_0000_0000_ffff_ffff_ffff_ffff)
            by (nonlinear_arith)
            requires
                1 <= p <= 0xffff_ffff_ffff_ffff,
        ;
    }
    let distances: i128 = grown - twice;
    let whole: i128 = distances / p;
    let over: i128 = distances % p;
    proof {
        assert(rest * rest <= 0xffff_ffff_ffff_fffe * 0xffff_ffff_ffff_fffe) by (nonlinear_arith)
            requires
                0 <= rest <= 0xffff_ffff_ffff_fffe,
        ;
    }
    let square: u128 = (rest as u128) * (rest as u128);
    let divisor: u128 = p as u128;
    let quotient: u128 = square / divisor;
    let remainder: u128 = square % divisor;
    proof {
        assert(square == divisor * quotient + remainder && 0 <= remainder < divisor
            && quotient <= square) by (nonlinear_arith)
            requires
                divisor > 0,
                square >= 0,
                quotient == square / divisor,
                remainder == square % divisor,
        ;
        if quotient >= divisor {
            assert(divisor * quotient >= divisor * divisor) by (nonlinear_arith)
                requires
                    divisor > 0,
                    quotient >= divisor,
            ;
        }
    }
    let taken: i128 = quotient as i128;
    let left: i128 = remainder as i128;
    proof {
        assert(distances == p * whole + over && 0 <= over < p) by (nonlinear_arith)
            requires
                p > 0,
                distances >= 0,
                whole == distances / p,
                over == distances % p,
        ;
        assert(square == p * taken + left && 0 <= left < p);
        if taken >= p {
            assert(p * taken >= p * p) by (nonlinear_arith)
                requires
                    p > 0,
                    taken >= p,
            ;
        }
        assert(0 <= 100_000_000 * left <= 100_000_000 * 0xffff_ffff_ffff_ffff)
            by (nonlinear_arith)
            requires
                0 <= left <= 0xffff_ffff_ffff_ffff,
        ;
        if whole > 0x4000_0000_0000_0001 {
            assert(p * whole >= p * 0x4000_0000_0000_0000 + p + p) by (nonlinear_arith)
                requires
                    p >= 1,
                    whole >= 0x4000_0000_0000_0002,
            ;
        }
        assert(whole >= 0) by (nonlinear_arith)
            requires
                distances == p * whole + over,
                distances >= 0,
                over < p,
                p > 0,
        ;
        assert(0 <= 100_000_000 * whole <= 100_000_000 * 0x4000_0000_0000_0001)
            by (nonlinear_arith)
            requires
                0 <= whole <= 0x4000_0000_0000_0001,
        ;
    }
    let gap: i128 = over - taken;
    let raised: i128 = (100_000_000 * left + (p - 1)) / p;
    proof {
        let e = 100_000_000 * left;
        crate::fixed::lemma_div_brackets(e + (p - 1), p as int);
        assert(0 <= raised <= 100_000_000) by (nonlinear_arith)
            requires
                p * raised <= e + (p - 1),
                e + (p - 1) < p * raised + p,
                0 <= e,
                e == 100_000_000 * left,
                left < p,
                p >= 1,
        ;
        assert(-100_000_000 * 0xffff_ffff_ffff_ffff <= 100_000_000 * gap <= 100_000_000
            * 0xffff_ffff_ffff_ffff) by (nonlinear_arith)
            requires
                -0xffff_ffff_ffff_ffff <= gap <= 0xffff_ffff_ffff_ffff,
        ;
    }
    let lower: i128 = floor_div(100_000_000 * gap - raised, p);
    proof {
        let e = 100_000_000 * left;
        let inner = 100_000_000 * gap - raised;
        crate::fixed::lemma_div_brackets(inner, p as int);
        let u = inner - p * lower;
        let t = p * raised - e;
        assert(0 <= u < p);
        assert(0 <= t < p);
        assert(0 <= p * u + t < p * p) by (nonlinear_arith)
            requires
                0 <= u < p,
                0 <= t < p,
        ;
        assert(100_000_000 * w == (100_000_000 * whole + lower) * (p * p) + (p * u + t))
            by (nonlinear_arith)
            requires
                p * v == w + rest * rest,
                v == distances,
                distances == p * whole + over,
                rest * rest == square,
                square == p * taken + left,
                gap == over - taken,
                e == 100_000_000 * left,
                inner == 100_000_000 * gap - raised,
                u == inner - p * lower,
                t == p * raised - e,
        ;
        assert(p * p > 0) by (nonlinear_arith)
            requires
                p >= 1,
        ;
        vstd::arithmetic::div_mod::lemma_fundamental_div_mod_converse(
            100_000_000 * w,
            p * p,
            100_000_000 * whole + lower,
            p * u + t,
        );
        assert(SCALE * SCALE * w == 100_000_000 * w) by (nonlinear_arith);
        assert((p * p) * 0 <= 100_000_000 * w <= (p * p) * (100_000_000 * 0x4000_0000_0000_0000))
            by (nonlinear_arith)
            requires
                0 <= w <= p * (p * 0x4000_0000_0000_0000),
        ;
        lemma_quotient_bounds(
            100_000_000 * w,
            p * p,
            0,
            100_000_000int * 0x4000_0000_0000_0000int,
        );
        assert(n * n == p * p);
    }
    let fine: i128 = 100_000_000 * whole + lower;
    let r: u64 = isqrt(fine as u128);
    proof {
        assert(r <= 0x1388_0000_0000) by (nonlinear_arith)
            requires
                r * r <= 100_000_000 * 0x4000_0000_0000_0000,
                r >= 0,
        ;
    }
    r
}

} // verus!
