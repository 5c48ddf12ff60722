use vstd::prelude::*;
use crate::error::IndicatorError;
use crate::fixed::{floor_div, lemma_quotient_bounds, SCALE};
use crate::series::{all_prices, all_within, holds, holds_if, undefined, widen, widened};
use crate::smoothing::{lemma_mean_within, lemma_smoothed_within, mean_at, smooth, wilder_at, wilder_smooth};

verus! {

/// The kind of a signal that opens a position.
pub const ENTRY: u8 = 0;

/// The kind of a signal that closes a position.
pub const EXIT: u8 = 1;

/// A signal: its kind, the price that gave it and the index of that price.
#[derive(Clone, Copy, Debug)]
pub struct Signal {
    signal_type: u8,
    price: i32,
    index: usize,
}

/// The periods and the width of the band that signals are read from.
pub struct SignalRule {
    /// The period of the moving average at the centre of the band.
    pub sma_period: int,
    /// The period of the average true range that scales the band.
    pub atr_period: int,
    /// The half-width of the band, in basis points of the average true range.
    pub threshold: int,
}

/// The distance of each price from the one before, in ten-thousandths of a
/// tick: entry `j` compares the prices at `j` and `j + 1`.
pub open spec fn moves(s: Seq<i64>) -> Seq<i64> {
    Seq::new(
        if s.len() > 0 {
            (s.len() - 1) as nat
        } else {
            0
        },
        |j: int|
            if s[j + 1] >= s[j] {
                (SCALE * (s[j + 1] - s[j])) as i64
            } else {
                (SCALE * (s[j] - s[j + 1])) as i64
            },
    )
}

/// The average true range of a price series at bar `i >= period`, in
/// ten-thousandths of a tick: Wilder's average of the moves that end there.
pub open spec fn atr_at(s: Seq<i64>, period: int, i: int) -> int {
    wilder_at(moves(s), period, i - 1)
}

/// The first bar at which the band is defined.
pub open spec fn first_bar(rule: SignalRule) -> int {
    if rule.sma_period - 1 >= rule.atr_period {
        rule.sma_period - 1
    } else {
        rule.atr_period
    }
}

/// The half-width of the band at bar `i`, in ticks: `threshold` basis points
/// of the average true range.
pub open spec fn band_width(s: Seq<i64>, rule: SignalRule, i: int) -> int {
    (atr_at(s, rule.atr_period, i) * rule.threshold) / (SCALE * SCALE)
}

/// The upper edge of the band at bar `i`.
pub open spec fn entry_threshold(s: Seq<i64>, rule: SignalRule, i: int) -> int {
    mean_at(s, rule.sma_period, i) + band_width(s, rule, i)
}

/// The lower edge of the band at bar `i`.
pub open spec fn exit_threshold(s: Seq<i64>, rule: SignalRule, i: int) -> int {
    mean_at(s, rule.sma_period, i) - band_width(s, rule, i)
}

/// Whether a price above the band opens a position: none is open yet.
pub open spec fn entry_signal(price: int, threshold: int, trend_up: bool) -> bool {
    !trend_up && price > threshold
}

/// Whether a price below the band closes a position: one is open.
pub open spec fn exit_signal(price: int, threshold: int, trend_up: bool) -> bool {
    trend_up && price < threshold
}

/// Whether a position is open once the first `n` bars have been read.
pub open spec fn trend_up(s: Seq<i64>, rule: SignalRule, n: int) -> bool
    decreases n,
{
    if n <= first_bar(rule) || n <= 0 {
        false
    } else {
        let before = trend_up(s, rule, n - 1);
        if entry_signal(s[n - 1] as int, entry_threshold(s, rule, n - 1), before) {
            true
        } else if exit_signal(s[n - 1] as int, exit_threshold(s, rule, n - 1), before) {
            false
        } else {
            before
        }
    }
}

/// The signals of the first `n` bars, each as kind, price and index.
pub open spec fn signals(s: Seq<i64>, rule: SignalRule, n: int) -> Seq<(u8, i32, usize)>
    decreases n,
{
    if n <= first_bar(rule) || n <= 0 {
        Seq::empty()
    } else {
        let before = trend_up(s, rule, n - 1);
        let earlier = signals(s, rule, n - 1);
        if entry_signal(s[n - 1] as int, entry_threshold(s, rule, n - 1), before) {
            earlier.push((ENTRY, s[n - 1] as i32, (n - 1) as usize))
        } else if exit_signal(s[n - 1] as int, exit_threshold(s, rule, n - 1), before) {
            earlier.push((EXIT, s[n - 1] as i32, (n - 1) as usize))
        } else {
            earlier
        }
    }
}

impl View for Signal {
    type V = (u8, i32, usize);

    closed spec fn view(&self) -> (u8, i32, usize) {
        (self.signal_type, self.price, self.index)
    }
}

impl Signal {
    /// A signal of the given kind, price and index.
    pub fn new(signal_type: u8, price: i32, index: usize) -> (r: Signal)
        ensures
            r@ == (signal_type, price, index),
    {
        Signal { signal_type, price, index }
    }

    /// The kind: [`ENTRY`] or [`EXIT`].
    pub fn signal_type(&self) -> (r: u8)
        ensures
            r == self@.0,
    {
        self.signal_type
    }

    /// The price that gave the signal.
    pub fn price(&self) -> (r: i32)
        ensures
            r == self@.1,
    {
        self.price
    }

    /// The index of that price.
    pub fn index(&self) -> (r: usize)
        ensures
            r == self@.2,
    {
        self.index
    }
}

/// Whether a price above the band opens a position.
pub fn is_entry_signal(price: i32, threshold: i64, trend_up: bool) -> (r: bool)
    ensures
        r == entry_signal(price as int, threshold as int, trend_up),
{
    !trend_up && price as i64 > threshold
}

/// Whether a price below the band closes a position.
pub fn is_exit_signal(price: i32, threshold: i64, trend_up: bool) -> (r: bool)
    ensures
        r == exit_signal(price as int, threshold as int, trend_up),
{
    trend_up && (price as i64) < threshold
}

/// The average true range of a price series, in ten-thousandths of a tick,
/// aligned with the prices: undefined before bar `period`, and from there on
/// Wilder's average of the distances between consecutive prices.
pub fn calculate_atr(prices: &[i32], period: usize) -> (out: Vec<Option<i64>>)
    requires
        period >= 1,
    ensures
        out@.len() == prices@.len(),
        forall|i: int|
            0 <= i < out@.len() ==> holds_if(
                #[trigger] out@[i],
                i >= period,
                atr_at(widened(prices@), period as int, i),
            ),
        forall|i: int|
            period <= i < out@.len() ==> 0 <= #[trigger] atr_at(widened(prices@), period as int, i)
                <= 0x2710_0000_0000,
{
    let n: usize = prices.len();
    let ghost s = widened(prices@);
    let mut steps: Vec<i64> = Vec::new();
    let mut j: usize = 0;
    while j + 1 < n
        invariant
            n == prices.len(),
            s == widened(prices@),
            j < n || n == 0,
            n == 0 ==> j == 0,
            steps@.len() == j,
            forall|k: int| 0 <= k < j ==> #[trigger] steps@[k] == moves(s)[k],
            all_within(steps@, 0, 0x2710_0000_0000),
        decreases n - j,
    {
        let a: i64 = prices[j] as i64;
        let b: i64 = prices[j + 1] as i64;
        let step: i64 = if b >= a {
            b - a
        } else {
            a - b
        };
        assert(0 <= SCALE * step <= 0x2710_0000_0000) by (nonlinear_arith)
            requires
                0 <= step <= 0xffff_ffff,
        ;
        steps.push(SCALE * step);
        j = j + 1;
    }
    proof {
        assert(steps@ =~= moves(s));
    }
    let averages: Vec<Option<i64>> = wilder_smooth(steps.as_slice(), period);
    let mut out: Vec<Option<i64>> = undefined(if n == 0 {
        0
    } else {
        1
    });
    let mut k: usize = 0;
    while k < averages.len()
        invariant
            period >= 1,
            n == prices.len(),
            s == widened(prices@),
            steps@ == moves(s),
            all_within(steps@, 0, 0x2710_0000_0000),
            averages@.len() == steps@.len(),
            n > 0 ==> steps@.len() == n - 1,
            n == 0 ==> steps@.len() == 0,
            forall|i: int|
                0 <= i < averages@.len() && (i < period - 1 || steps@.len() < period)
                    ==> #[trigger] averages@[i] == None::<i64>,
            forall|i: int|
                period - 1 <= i < averages@.len() && period <= steps@.len() ==> holds(
                    #[trigger] averages@[i],
                    wilder_at(steps@, period as int, i),
                ),
            k <= averages@.len(),
            out@.len() == (if n == 0 {
                0int
            } else {
                1int
            }) + k,
            forall|i: int|
                0 <= i < out@.len() ==> holds_if(
                    #[trigger] out@[i],
                    i >= period,
                    atr_at(s, period as int, i),
                ),
            forall|i: int|
                period <= i < out@.len() ==> 0 <= #[trigger] atr_at(s, period as int, i)
                    <= 0x2710_0000_0000,
        decreases averages@.len() - k,
    {
        proof {
            if k >= period - 1 {
                lemma_smoothed_within(steps@, period as int, 1, period as int, k as int, 0, 0x2710_0000_0000);
                assert(holds(averages@[k as int], wilder_at(steps@, period as int, k as int)));
            } else {
                assert(averages@[k as int] == None::<i64>);
            }
        }
        out.push(averages[k]);
        k = k + 1;
    }
    out
}

/// Whether the periods are rejected: one of them is zero.
pub open spec fn signals_rejected(sma_period: int, ema_period: int, atr_period: int) -> bool {
    sma_period == 0 || ema_period == 0 || atr_period == 0
}

/// The entry and exit signals of a price series, in the order of the bars.
/// The band lies around the moving average over `sma_period`, `threshold`
/// basis points of the average true range over `atr_period` to either side. A
/// series shorter than the three periods together gives no signal.
pub fn entry_exit_signals(
    prices: &[i32],
    sma_period: usize,
    ema_period: usize,
    atr_period: usize,
    threshold: u32,
) -> (r: Result<Vec<Signal>, IndicatorError>)
    ensures
        match r {
            Ok(out) => {
                let rule = SignalRule {
                    sma_period: sma_period as int,
                    atr_period: atr_period as int,
                    threshold: threshold as int,
                };
                let expected = if prices@.len() < sma_period + ema_period + atr_period {
                    Seq::<(u8, i32, usize)>::empty()
                } else {
                    signals(widened(prices@), rule, prices@.len() as int)
                };
                &&& !signals_rejected(sma_period as int, ema_period as int, atr_period as int)
                &&& out@.len() == expected.len()
                &&& forall|k: int| 0 <= k < out@.len() ==> (#[trigger] out@[k])@ == expected[k]
            },
            Err(e) => e == IndicatorError::InvalidPeriod && signals_rejected(
                sma_period as int,
                ema_period as int,
                atr_period as int,
            ),
        },
{
    if sma_period == 0 || ema_period == 0 || atr_period == 0 {
        return Err(IndicatorError::InvalidPeriod);
    }
    let n: usize = prices.len();
    let mut out: Vec<Signal> = Vec::new();
    if (n as u128) < sma_period as u128 + ema_period as u128 + atr_period as u128 {
        return Ok(out);
    }
    let ghost rule = SignalRule {
        sma_period: sma_period as int,
        atr_period: atr_period as int,
        threshold: threshold as int,
    };
    let ghost s = widened(prices@);
    let wide: Vec<i64> = widen(prices);
    let means: Vec<Option<i64>> = smooth(wide.as_slice(), sma_period);
    let ranges: Vec<Option<i64>> = calculate_atr(prices, atr_period);
    let first: usize = if sma_period - 1 >= atr_period {
        sma_period - 1
    } else {
        atr_period
    };
    let mut up: bool = false;
    let mut i: usize = first;
    while i < n
        invariant
            first <= i <= n,
            first == first_bar(rule),
            rule.sma_period == sma_period,
            rule.atr_period == atr_period,
            rule.threshold == threshold,
            1 <= sma_period,
            1 <= atr_period,
            n == prices.len(),
            s == widened(prices@),
            s == wide@,
            all_prices(s),
            s.len() == n,
            means@.len() == n,
            ranges@.len() == n,
            forall|j: int| sma_period - 1 <= j < n ==> holds(#[trigger] means@[j], mean_at(s, sma_period as int, j)),
            forall|j: int|
                0 <= j < n ==> holds_if(#[trigger] ranges@[j], j >= atr_period, atr_at(s, atr_period as int, j)),
            forall|j: int|
                atr_period <= j < n ==> 0 <= #[trigger] atr_at(s, atr_period as int, j)
                    <= 0x2710_0000_0000,
            up == trend_up(s, rule, i as int),
            out@.len() == signals(s, rule, i as int).len(),
            forall|k: int| 0 <= k < out@.len() ==> (#[trigger] out@[k])@ == signals(s, rule, i as int)[k],
        decreases n - i,
    {
        proof {
            assert(holds(means@[i as int], mean_at(s, sma_period as int, i as int)));
            assert(holds_if(ranges@[i as int], i >= atr_period, atr_at(s, atr_period as int, i as int)));
            lemma_mean_within(s, sma_period as int, i as int, -0x8000_0000, 0x7fff_ffff);
            let a = atr_at(s, atr_period as int, i as int);
            assert(0 <= a * threshold <= 0x2710_0000_0000 * 0xffff_ffff) by (nonlinear_arith)
                requires
                    0 <= a <= 0x2710_0000_0000,
                    0 <= threshold <= 0xffff_ffff,
            ;
            assert(SCALE * SCALE == 100_000_000);
            assert(100_000_000 * 0 == 0 && 0x2710_0000_0000 * 0xffff_ffff <= 100_000_000
                * 0x8_0000_0000_0000);
            lemma_quotient_bounds(a * threshold, 100_000_000, 0, 0x8_0000_0000_0000);
        }
        let mean: i64 = match means[i] {
            Some(v) => v,
            None => 0,
        };
        let range: i64 = match ranges[i] {
            Some(v) => v,
            None => 0,
        };
        let width: i64 = floor_div(
            (range as i128) * (threshold as i128),
            (SCALE as i128) * (SCALE as i128),
        ) as i64;
        let price: i32 = prices[i];
        if is_entry_signal(price, mean + width, up) {
            out.push(Signal::new(ENTRY, price, i));
            up = true;
        } else if is_exit_signal(price, mean - width, up) {
            out.push(Signal::new(EXIT, price, i));
            up = false;
        }
        i = i + 1;
    }
    Ok(out)
}

} // verus!
