use vstd::prelude::*;
use crate::error::IndicatorError;
use crate::fixed::{floor_div, lemma_quotient_bounds, max2, min2, SCALE};

verus! {

/// The acceleration factor a trend starts with when none is given: 0.02.
pub const DEFAULT_START: u32 = 200;

/// The growth of the acceleration factor when none is given: 0.02.
pub const DEFAULT_INCREMENT: u32 = 200;

/// The cap of the acceleration factor when none is given: 0.2.
pub const DEFAULT_MAX: u32 = 2_000;

/// What a stop-and-reverse walk carries from one bar to the next.
pub struct SarModel {
    /// The stop level of the bar.
    pub sar: int,
    /// Whether the trend is rising.
    pub is_uptrend: bool,
    /// The extreme price that the trend has reached.
    pub extreme_point: int,
    /// The acceleration factor, in basis points.
    pub acceleration_factor: int,
}

/// The executable form of [`SarModel`].
#[derive(Clone, Copy, Debug)]
pub struct SarState {
    pub sar: i64,
    pub is_uptrend: bool,
    pub extreme_point: i64,
    pub acceleration_factor: u32,
}

impl View for SarState {
    type V = SarModel;

    open spec fn view(&self) -> SarModel {
        SarModel {
            sar: self.sar as int,
            is_uptrend: self.is_uptrend,
            extreme_point: self.extreme_point as int,
            acceleration_factor: self.acceleration_factor as int,
        }
    }
}

/// Whether `x` lies in the range of a price.
pub open spec fn is_price(x: int) -> bool {
    -0x8000_0000 <= x < 0x8000_0000
}

/// The provisional stop: the previous stop moved towards the extreme point by
/// `af` basis points of their distance.
pub open spec fn new_sar(sar_prev: int, ep: int, af: int) -> int {
    sar_prev + (af * (ep - sar_prev)) / (SCALE as int)
}

/// The provisional stop kept clear of the last one or two bars: no higher than
/// their lows in a rising trend, no lower than their highs in a falling one.
pub open spec fn bounded_sar(is_uptrend: bool, sar: int, highs: Seq<i32>, lows: Seq<i32>, i: int) -> int {
    if is_uptrend {
        let bound = if i >= 2 {
            min2(lows[i - 1] as int, lows[i - 2] as int)
        } else {
            lows[i - 1] as int
        };
        min2(sar, bound)
    } else {
        let bound = if i >= 2 {
            max2(highs[i - 1] as int, highs[i - 2] as int)
        } else {
            highs[i - 1] as int
        };
        max2(sar, bound)
    }
}

/// The state after bar `i >= 1`. The trend reverses when the bar crosses the
/// bounded stop: the stop jumps to the extreme point, the extreme point to
/// the bar's opposite extreme, the factor back to `start`. Otherwise the
/// bounded stop stands, and a new extreme raises the factor by `increment`,
/// up to `max_value`.
pub open spec fn sar_step(
    st: SarModel,
    highs: Seq<i32>,
    lows: Seq<i32>,
    i: int,
    start: int,
    increment: int,
    max_value: int,
) -> SarModel {
    let bounded = bounded_sar(
        st.is_uptrend,
        new_sar(st.sar, st.extreme_point, st.acceleration_factor),
        highs,
        lows,
        i,
    );
    if st.is_uptrend && lows[i] < bounded {
        SarModel {
            sar: st.extreme_point,
            is_uptrend: false,
            extreme_point: lows[i] as int,
            acceleration_factor: start,
        }
    } else if !st.is_uptrend && highs[i] > bounded {
        SarModel {
            sar: st.extreme_point,
            is_uptrend: true,
            extreme_point: highs[i] as int,
            acceleration_factor: start,
        }
    } else if st.is_uptrend && highs[i] > st.extreme_point {
        SarModel {
            sar: bounded,
            is_uptrend: true,
            extreme_point: highs[i] as int,
            acceleration_factor: min2(st.acceleration_factor + increment, max_value),
        }
    } else if !st.is_uptrend && lows[i] < st.extreme_point {
        SarModel {
            sar: bounded,
            is_uptrend: false,
            extreme_point: lows[i] as int,
            acceleration_factor: min2(st.acceleration_factor + increment, max_value),
        }
    } else {
        SarModel { sar: bounded, ..st }
    }
}

/// The state after bar `i`: a rising trend that starts at the first close,
/// with the first high as extreme point, then one [`sar_step`] per bar.
pub open spec fn sar_state(
    highs: Seq<i32>,
    lows: Seq<i32>,
    closes: Seq<i32>,
    start: int,
    increment: int,
    max_value: int,
    i: int,
) -> SarModel
    decreases i,
{
    if i <= 0 {
        SarModel {
            sar: closes[0] as int,
            is_uptrend: true,
            extreme_point: highs[0] as int,
            acceleration_factor: start,
        }
    } else {
        sar_step(
            sar_state(highs, lows, closes, start, increment, max_value, i - 1),
            highs,
            lows,
            i,
            start,
            increment,
            max_value,
        )
    }
}

/// Why [`parabolic_sar`] rejects an input, if it does. The factors must obey
/// `0 < start <= max_value`.
pub open spec fn sar_rejection(
    highs: int,
    lows: int,
    closes: int,
    start: int,
    max_value: int,
) -> Option<IndicatorError> {
    if start <= 0 || start > max_value {
        Some(IndicatorError::InvalidParameter)
    } else if highs != lows || highs != closes {
        Some(IndicatorError::MismatchedLengths)
    } else if highs == 0 {
        Some(IndicatorError::EmptyInput)
    } else if highs < 2 {
        Some(IndicatorError::InsufficientData)
    } else {
        None
    }
}

/// How far a stop can lie from the range of a price: one step of the largest
/// factor over the largest distance between two prices.
pub const REACH: i64 = 0x8_0000_0000_0000;

/// Whether a state can be stepped: the extreme point is a price, the factor
/// is within `max_value`, and the stop lies on the side of the prices that
/// its trend allows, no further than [`REACH`] from them.
pub open spec fn sar_state_ok(st: SarModel, max_value: int) -> bool {
    &&& is_price(st.extreme_point)
    &&& 0 <= st.acceleration_factor <= max_value
    &&& st.is_uptrend ==> -0x8000_0000 - REACH <= st.sar < 0x8000_0000
    &&& !st.is_uptrend ==> -0x8000_0000 <= st.sar <= 0x7fff_ffff + REACH
}

/// The provisional stop moves from the previous stop towards the extreme
/// point and never away from it; from a stop that is a price it moves no
/// further than [`REACH`].
pub proof fn lemma_new_sar_moves_towards(sar_prev: int, ep: int, af: int)
    requires
        0 <= af <= 0xffff_ffff,
    ensures
        ep >= sar_prev ==> new_sar(sar_prev, ep, af) >= sar_prev,
        ep <= sar_prev ==> new_sar(sar_prev, ep, af) <= sar_prev,
        -0x1_0000_0000 <= ep - sar_prev <= 0x1_0000_0000 ==> sar_prev - REACH <= new_sar(
            sar_prev,
            ep,
            af,
        ) <= sar_prev + REACH,
{
    let d = ep - sar_prev;
    let s = SCALE as int;
    let v = af * d;
    if d >= 0 {
        assert(v >= 0) by (nonlinear_arith)
            requires
                v == af * d,
                af >= 0,
                d >= 0,
        ;
        assert(s * 0 <= v <= s * v) by (nonlinear_arith)
            requires
                v >= 0,
                s == 10_000,
        ;
        lemma_quotient_bounds(v, s, 0, v);
        if d == 0 {
            assert(v == 0) by (nonlinear_arith)
                requires
                    v == af * d,
                    d == 0,
            ;
        }
        if d <= 0x1_0000_0000 {
            assert(v <= 0xffff_ffff * 0x1_0000_0000) by (nonlinear_arith)
                requires
                    v == af * d,
                    0 <= af <= 0xffff_ffff,
                    0 <= d <= 0x1_0000_0000,
            ;
            lemma_quotient_bounds(v, s, 0, REACH as int);
        }
    } else {
        assert(v <= 0) by (nonlinear_arith)
            requires
                v == af * d,
                af >= 0,
                d < 0,
        ;
        assert(s * v <= v <= s * 0) by (nonlinear_arith)
            requires
                v <= 0,
                s == 10_000,
        ;
        lemma_quotient_bounds(v, s, v, 0);
        if d >= -0x1_0000_0000 {
            assert(v >= -0xffff_ffff * 0x1_0000_0000) by (nonlinear_arith)
                requires
                    v == af * d,
                    0 <= af <= 0xffff_ffff,
                    -0x1_0000_0000 <= d < 0,
            ;
            lemma_quotient_bounds(v, s, -REACH as int, 0);
        }
    }
}

/// The provisional stop for the next bar, in 128 bits: with a factor above
/// one it may lie far beyond the prices.
pub fn compute_new_sar(sar_prev: i64, ep: i64, af: u32) -> (r: i128)
    requires
        -0x8000_0000 - REACH <= sar_prev <= 0x7fff_ffff + REACH,
        is_price(ep as int),
    ensures
        r == new_sar(sar_prev as int, ep as int, af as int),
{
    let d: i128 = ep as i128 - sar_prev as i128;
    assert(-0xffff_ffff * 0x10_0000_0000_0000 <= af * d <= 0xffff_ffff * 0x10_0000_0000_0000)
        by (nonlinear_arith)
        requires
            0 <= af <= 0xffff_ffff,
            -0x10_0000_0000_0000 <= d <= 0x10_0000_0000_0000,
    ;
    let v: i128 = (af as i128) * d;
    proof {
        if v >= 0 {
            assert(10_000 * 0 <= v <= 10_000 * v) by (nonlinear_arith)
                requires
                    v >= 0,
            ;
            lemma_quotient_bounds(v as int, 10_000, 0, v as int);
        } else {
            assert(10_000 * v <= v <= 10_000 * 0) by (nonlinear_arith)
                requires
                    v < 0,
            ;
            lemma_quotient_bounds(v as int, 10_000, v as int, 0);
        }
    }
    let q: i128 = floor_div(v, SCALE as i128);
    sar_prev as i128 + q
}

/// The provisional stop kept clear of the last one or two bars.
pub fn apply_boundaries(is_uptrend: bool, sar: i128, highs: &[i32], lows: &[i32], i: usize) -> (r:
    i128)
    requires
        1 <= i,
        i <= highs.len(),
        i <= lows.len(),
    ensures
        r == bounded_sar(is_uptrend, sar as int, highs@, lows@, i as int),
        is_uptrend ==> r <= sar && r < 0x8000_0000 && (r == sar || is_price(r as int)),
        !is_uptrend ==> r >= sar && r >= -0x8000_0000 && (r == sar || is_price(r as int)),
{
    if is_uptrend {
        let bound: i32 = if i >= 2 && lows[i - 2] < lows[i - 1] {
            lows[i - 2]
        } else {
            lows[i - 1]
        };
        if sar <= bound as i128 {
            sar
        } else {
            bound as i128
        }
    } else {
        let bound: i32 = if i >= 2 && highs[i - 2] > highs[i - 1] {
            highs[i - 2]
        } else {
            highs[i - 1]
        };
        if sar >= bound as i128 {
            sar
        } else {
            bound as i128
        }
    }
}

/// The extreme point and factor after a bar that did not reverse the trend:
/// both change only when the bar sets a new extreme.
pub fn update_ep_and_af(
    is_uptrend: bool,
    current_ep: i64,
    current_af: u32,
    high: i32,
    low: i32,
    increment: u32,
    max_value: u32,
) -> (r: (i64, u32))
    ensures
        r.0 == if is_uptrend && high > current_ep {
            high as int
        } else if !is_uptrend && low < current_ep {
            low as int
        } else {
            current_ep as int
        },
        r.1 == if (is_uptrend && high > current_ep) || (!is_uptrend && low < current_ep) {
            min2(current_af + increment, max_value as int)
        } else {
            current_af as int
        },
{
    let grown: u64 = current_af as u64 + increment as u64;
    let capped: u32 = if grown <= max_value as u64 {
        grown as u32
    } else {
        max_value
    };
    if is_uptrend {
        if high as i64 > current_ep {
            return (high as i64, capped);
        }
    } else {
        if (low as i64) < current_ep {
            return (low as i64, capped);
        }
    }
    (current_ep, current_af)
}

/// One bar of the walk: the state after bar `i`.
pub fn sar_advance(
    st: SarState,
    highs: &[i32],
    lows: &[i32],
    i: usize,
    start: u32,
    increment: u32,
    max_value: u32,
) -> (next: SarState)
    requires
        1 <= i < highs.len(),
        i < lows.len(),
        sar_state_ok(st@, max_value as int),
        start <= max_value,
    ensures
        next@ == sar_step(st@, highs@, lows@, i as int, start as int, increment as int, max_value as int),
        sar_state_ok(next@, max_value as int),
{
    proof {
        lemma_new_sar_moves_towards(
            st.sar as int,
            st.extreme_point as int,
            st.acceleration_factor as int,
        );
    }
    let provisional: i128 = compute_new_sar(st.sar, st.extreme_point, st.acceleration_factor);
    let bounded: i128 = apply_boundaries(st.is_uptrend, provisional, highs, lows, i);
    if st.is_uptrend && (lows[i] as i128) < bounded {
        SarState {
            sar: st.extreme_point,
            is_uptrend: false,
            extreme_point: lows[i] as i64,
            acceleration_factor: start,
        }
    } else if !st.is_uptrend && highs[i] as i128 > bounded {
        SarState {
            sar: st.extreme_point,
            is_uptrend: true,
            extreme_point: highs[i] as i64,
            acceleration_factor: start,
        }
    } else {
        let (ep, af) = update_ep_and_af(
            st.is_uptrend,
            st.extreme_point,
            st.acceleration_factor,
            highs[i],
            lows[i],
            increment,
            max_value,
        );
        SarState {
            sar: bounded as i64,
            is_uptrend: st.is_uptrend,
            extreme_point: ep,
            acceleration_factor: af,
        }
    }
}

/// The parabolic stop-and-reverse series of a bar series: position `i` holds
/// the stop of [`sar_state`] at bar `i`. Factors are in basis points; a factor
/// left out takes its default.
pub fn parabolic_sar(
    highs: &[i32],
    lows: &[i32],
    closes: &[i32],
    start: Option<u32>,
    increment: Option<u32>,
    max_value: Option<u32>,
) -> (r: Result<Vec<i64>, IndicatorError>)
    ensures
        ({
            let s = start.unwrap_or(DEFAULT_START) as int;
            let inc = increment.unwrap_or(DEFAULT_INCREMENT) as int;
            let m = max_value.unwrap_or(DEFAULT_MAX) as int;
            match r {
                Ok(out) => {
                    &&& sar_rejection(
                        highs@.len() as int,
                        lows@.len() as int,
                        closes@.len() as int,
                        s,
                        m,
                    ) is None
                    &&& out@.len() == highs@.len()
                    &&& forall|i: int|
                        0 <= i < out@.len() ==> #[trigger] out@[i] == sar_state(
                            highs@,
                            lows@,
                            closes@,
                            s,
                            inc,
                            m,
                            i,
                        ).sar
                },
                Err(e) => sar_rejection(
                    highs@.len() as int,
                    lows@.len() as int,
                    closes@.len() as int,
                    s,
                    m,
                ) == Some(e),
            }
        }),
{
    let start: u32 = match start {
        Some(v) => v,
        None => DEFAULT_START,
    };
    let increment: u32 = match increment {
        Some(v) => v,
        None => DEFAULT_INCREMENT,
    };
    let max_value: u32 = match max_value {
        Some(v) => v,
        None => DEFAULT_MAX,
    };
    if start == 0 || start > max_value {
        return Err(IndicatorError::InvalidParameter);
    }
    let len: usize = highs.len();
    if len != lows.len() || len != closes.len() {
        return Err(IndicatorError::MismatchedLengths);
    }
    if len == 0 {
        return Err(IndicatorError::EmptyInput);
    }
    if len < 2 {
        return Err(IndicatorError::InsufficientData);
    }
    let mut st = SarState {
        sar: closes[0] as i64,
        is_uptrend: true,
        extreme_point: highs[0] as i64,
        acceleration_factor: start,
    };
    let mut out: Vec<i64> = Vec::new();
    out.push(st.sar);
    let mut i: usize = 1;
    while i < len
        invariant
            1 <= i <= len,
            len == highs.len(),
            len == lows.len(),
            len == closes.len(),
            start <= max_value,
            sar_state_ok(st@, max_value as int),
            st@ == sar_state(
                highs@,
                lows@,
                closes@,
                start as int,
                increment as int,
                max_value as int,
                i - 1,
            ),
            out@.len() == i,
            forall|j: int|
                0 <= j < i ==> #[trigger] out@[j] == sar_state(
                    highs@,
                    lows@,
                    closes@,
                    start as int,
                    increment as int,
                    max_value as int,
                    j,
                ).sar,
        decreases len - i,
    {
        st = sar_advance(st, highs, lows, i, start, increment, max_value);
        out.push(st.sar);
        i = i + 1;
    }
    Ok(out)
}

/// On a bar series whose highs and lows both rise strictly, the trend never
/// turns down: at every bar it is rising, its extreme point is the bar's high,
/// and its factor has grown by `increment` per bar from `start`, up to
/// `max_value`.
pub proof fn lemma_rising_series_never_reverses(
    highs: Seq<i32>,
    lows: Seq<i32>,
    closes: Seq<i32>,
    start: int,
    increment: int,
    max_value: int,
    i: int,
)
    requires
        highs.len() == lows.len(),
        0 <= i < highs.len(),
        0 < start <= max_value,
        0 <= increment,
        forall|j: int| 0 < j < highs.len() ==> highs[j - 1] < #[trigger] highs[j],
        forall|j: int| 0 < j < lows.len() ==> lows[j - 1] < #[trigger] lows[j],
    ensures
        sar_state(highs, lows, closes, start, increment, max_value, i).is_uptrend,
        sar_state(highs, lows, closes, start, increment, max_value, i).extreme_point == highs[i],
        sar_state(highs, lows, closes, start, increment, max_value, i).acceleration_factor == min2(
            start + i * increment,
            max_value,
        ),
    decreases i,
{
    if i <= 0 {
        assert(start + 0 * increment == start) by (nonlinear_arith);
    } else {
        lemma_rising_series_never_reverses(highs, lows, closes, start, increment, max_value, i - 1);
        let st = sar_state(highs, lows, closes, start, increment, max_value, i - 1);
        let bounded = bounded_sar(
            true,
            new_sar(st.sar, st.extreme_point, st.acceleration_factor),
            highs,
            lows,
            i,
        );
        assert(lows[i - 1] < lows[i]);
        assert(highs[i - 1] < highs[i]);
        assert(bounded <= lows[i - 1]);
        assert(i * increment == (i - 1) * increment + increment) by (nonlinear_arith);
    }
}

} // verus!
