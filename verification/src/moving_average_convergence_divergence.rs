use vstd::prelude::*;
use crate::error::IndicatorError;
use crate::fixed::max2;
use crate::series::{all_within, holds, holds_if, scale, scaled, undefined};
use crate::smoothing::{calculate_ema, ema_at, lemma_smoothed_within};

verus! {

/// A price series on which convergence and divergence of two moving averages
/// are measured.
pub struct MovingAverageConvergenceDivergence {
    prices: Vec<i32>,
}

/// The three lines of the indicator, each aligned with the prices and in
/// ten-thousandths of a tick.
#[derive(Debug)]
pub struct MACDResult {
    /// The main line less the signal line.
    pub histogram: Vec<Option<i64>>,
    /// The moving average of the main line.
    pub signal_line: Vec<Option<i64>>,
    /// The fast moving average less the slow one.
    pub macd_line: Vec<Option<i64>>,
}

/// The first index at which both moving averages are defined.
pub open spec fn macd_start(fast: int, slow: int) -> int {
    max2(fast, slow) - 1
}

/// The main line at `i >= macd_start(fast, slow)`.
pub open spec fn macd_at(s: Seq<i64>, fast: int, slow: int, i: int) -> int {
    ema_at(s, fast, i) - ema_at(s, slow, i)
}

/// The defined part of the main line, as a series of its own.
pub open spec fn macd_tail(s: Seq<i64>, fast: int, slow: int) -> Seq<i64> {
    Seq::new(
        (s.len() - macd_start(fast, slow)) as nat,
        |j: int| macd_at(s, fast, slow, j + macd_start(fast, slow)) as i64,
    )
}

/// The signal line at `i >= macd_start(fast, slow) + signal - 1`: the moving
/// average of the defined part of the main line.
pub open spec fn signal_at(s: Seq<i64>, fast: int, slow: int, signal: int, i: int) -> int {
    ema_at(macd_tail(s, fast, slow), signal, i - macd_start(fast, slow))
}

/// Whether the periods are rejected: one of them is zero or longer than the
/// series.
pub open spec fn macd_rejected(len: int, fast: int, slow: int, signal: int) -> bool {
    fast == 0 || slow == 0 || signal == 0 || len < fast || len < slow || len < signal
}

/// Whether `lines` are the three lines of `s` for the given periods.
pub open spec fn is_macd(lines: MACDResult, s: Seq<i64>, fast: int, slow: int, signal: int) -> bool {
    let start = macd_start(fast, slow);
    &&& lines.macd_line@.len() == s.len()
    &&& lines.signal_line@.len() == s.len()
    &&& lines.histogram@.len() == s.len()
    &&& forall|i: int|
        0 <= i < s.len() ==> holds_if(#[trigger] lines.macd_line@[i], i >= start, macd_at(s, fast, slow, i))
    &&& forall|i: int|
        0 <= i < s.len() ==> holds_if(#[trigger] lines.signal_line@[i], i >= start + signal - 1, signal_at(s, fast, slow, signal, i))
    &&& forall|i: int|
        0 <= i < s.len() ==> holds_if(#[trigger] lines.histogram@[i], i >= start + signal - 1, macd_at(s, fast, slow, i) - signal_at(s, fast, slow, signal, i))
}

impl View for MovingAverageConvergenceDivergence {
    type V = Seq<i32>;

    closed spec fn view(&self) -> Seq<i32> {
        self.prices@
    }
}

/// The three lines of a price series for a fast, a slow and a signal period.
/// The averages run over the prices in ten-thousandths of a tick, and the
/// lines are in that unit; the histogram is the main line less the signal
/// line exactly.
pub fn macd_lines(prices: &[i32], fast_period: usize, slow_period: usize, signal_period: usize) -> (r:
    Result<MACDResult, IndicatorError>)
    ensures
        match r {
            Ok(lines) => !macd_rejected(
                prices@.len() as int,
                fast_period as int,
                slow_period as int,
                signal_period as int,
            ) && is_macd(
                lines,
                scaled(prices@),
                fast_period as int,
                slow_period as int,
                signal_period as int,
            ),
            Err(e) => e == IndicatorError::InvalidPeriod && macd_rejected(
                prices@.len() as int,
                fast_period as int,
                slow_period as int,
                signal_period as int,
            ),
        },
{
    let n: usize = prices.len();
    if fast_period == 0 || slow_period == 0 || signal_period == 0 || n < fast_period || n
        < slow_period || n < signal_period {
        return Err(IndicatorError::InvalidPeriod);
    }
    let data: Vec<i64> = scale(prices);
    let ghost s = data@;
    let fast_ema: Vec<Option<i64>> = calculate_ema(data.as_slice(), fast_period);
    let slow_ema: Vec<Option<i64>> = calculate_ema(data.as_slice(), slow_period);
    let start: usize = if fast_period >= slow_period {
        fast_period - 1
    } else {
        slow_period - 1
    };
    let ghost fast = fast_period as int;
    let ghost slow = slow_period as int;
    let ghost signal = signal_period as int;
    let mut tail: Vec<i64> = Vec::new();
    let mut macd_line: Vec<Option<i64>> = undefined(start);
    let mut i: usize = start;
    while i < n
        invariant
            s == data@,
            n == s.len(),
            all_within(s, -0x1388_0000_0000, 0x1388_0000_0000),
            1 <= fast <= n,
            1 <= slow <= n,
            fast == fast_period,
            slow == slow_period,
            start == macd_start(fast, slow),
            start <= i <= n,
            fast_ema@.len() == n,
            slow_ema@.len() == n,
            forall|j: int|
                fast - 1 <= j < n ==> holds(#[trigger] fast_ema@[j], ema_at(s, fast, j)),
            forall|j: int|
                slow - 1 <= j < n ==> holds(#[trigger] slow_ema@[j], ema_at(s, slow, j)),
            tail@.len() == i - start,
            macd_line@.len() == i,
            forall|j: int|
                0 <= j < tail@.len() ==> #[trigger] tail@[j] == macd_at(s, fast, slow, j + start),
            all_within(tail@, -0x2710_0000_0000, 0x2710_0000_0000),
            forall|j: int|
                0 <= j < i ==> holds_if(#[trigger] macd_line@[j], j >= start, macd_at(s, fast, slow, j)),
        decreases n - i,
    {
        proof {
            lemma_smoothed_within(s, fast, 2, fast + 1, i as int, -0x1388_0000_0000, 0x1388_0000_0000);
            lemma_smoothed_within(s, slow, 2, slow + 1, i as int, -0x1388_0000_0000, 0x1388_0000_0000);
            assert(holds(fast_ema@[i as int], ema_at(s, fast, i as int)));
            assert(holds(slow_ema@[i as int], ema_at(s, slow, i as int)));
        }
        let f: i64 = match fast_ema[i] {
            Some(v) => v,
            None => 0,
        };
        let w: i64 = match slow_ema[i] {
            Some(v) => v,
            None => 0,
        };
        let d: i64 = f - w;
        tail.push(d);
        macd_line.push(Some(d));
        i = i + 1;
    }
    assert(tail@ =~= macd_tail(s, fast, slow));
    let signal_tail: Vec<Option<i64>> = calculate_ema(tail.as_slice(), signal_period);
    let mut signal_line: Vec<Option<i64>> = undefined(start);
    let mut histogram: Vec<Option<i64>> = undefined(start);
    let mut j: usize = 0;
    while j < signal_tail.len()
        invariant
            s == data@,
            n == s.len(),
            start == macd_start(fast, slow),
            start < n,
            signal == signal_period,
            signal >= 1,
            tail@ == macd_tail(s, fast, slow),
            tail@.len() == n - start,
            forall|k: int|
                0 <= k < tail@.len() ==> #[trigger] tail@[k] == macd_at(s, fast, slow, k + start),
            all_within(tail@, -0x2710_0000_0000, 0x2710_0000_0000),
            signal_tail@.len() == tail@.len(),
            forall|k: int|
                0 <= k < signal_tail@.len() && (k < signal - 1 || tail@.len() < signal)
                    ==> #[trigger] signal_tail@[k] == None::<i64>,
            forall|k: int|
                signal - 1 <= k < signal_tail@.len() && signal <= tail@.len()
                    ==> holds(#[trigger] signal_tail@[k], ema_at(tail@, signal, k)),
            j <= signal_tail@.len(),
            signal_line@.len() == start + j,
            histogram@.len() == start + j,
            forall|k: int|
                0 <= k < start + j ==> holds_if(#[trigger] signal_line@[k], k >= start + signal - 1, signal_at(s, fast, slow, signal, k)),
            forall|k: int|
                0 <= k < start + j ==> holds_if(#[trigger] histogram@[k], k >= start + signal - 1, macd_at(s, fast, slow, k) - signal_at(s, fast, slow, signal, k)),
        decreases signal_tail@.len() - j,
    {
        proof {
            if j >= signal - 1 {
                lemma_smoothed_within(
                    tail@,
                    signal,
                    2,
                    signal + 1,
                    j as int,
                    -0x2710_0000_0000,
                    0x2710_0000_0000,
                );
                assert(holds(signal_tail@[j as int], ema_at(tail@, signal, j as int)));
            } else {
                assert(signal_tail@[j as int] == None::<i64>);
            }
            assert(tail@[j as int] == macd_at(s, fast, slow, j + start));
        }
        match signal_tail[j] {
            Some(v) => {
                let m: i64 = tail[j];
                signal_line.push(Some(v));
                histogram.push(Some(m - v));
            },
            None => {
                signal_line.push(None);
                histogram.push(None);
            },
        }
        j = j + 1;
    }
    Ok(MACDResult { histogram, signal_line, macd_line })
}

impl MovingAverageConvergenceDivergence {
    /// Takes the prices to measure.
    pub fn new(prices: Vec<i32>) -> (r: Self)
        ensures
            r@ == prices@,
    {
        MovingAverageConvergenceDivergence { prices }
    }

    /// The three lines for a fast, a slow and a signal period, see
    /// [`macd_lines`]. The prices are left as they are.
    pub fn period(&mut self, fast_period: usize, slow_period: usize, signal_period: usize) -> (r:
        Result<MACDResult, IndicatorError>)
        ensures
            final(self)@ == old(self)@,
            match r {
                Ok(lines) => !macd_rejected(
                    old(self)@.len() as int,
                    fast_period as int,
                    slow_period as int,
                    signal_period as int,
                ) && is_macd(
                    lines,
                    scaled(old(self)@),
                    fast_period as int,
                    slow_period as int,
                    signal_period as int,
                ),
                Err(e) => e == IndicatorError::InvalidPeriod && macd_rejected(
                    old(self)@.len() as int,
                    fast_period as int,
                    slow_period as int,
                    signal_period as int,
                ),
            },
    {
        macd_lines(self.prices.as_slice(), fast_period, slow_period, signal_period)
    }
}

} // verus!
