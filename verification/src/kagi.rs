use vstd::prelude::*;
use crate::error::IndicatorError;

verus! {

/// The two kinds of Kagi line.
#[derive(Clone, Copy, Debug, PartialEq, Eq, Structural)]
pub enum Direction {
    /// A rising line.
    Yang,
    /// A falling line.
    Yin,
}

/// What a Kagi walk carries from one price to the next.
#[derive(Clone, Copy, Debug, PartialEq, Eq, Structural)]
pub struct KagiState {
    /// The kind of the line being drawn.
    pub direction: Direction,
    /// The extreme that the line has reached.
    pub reference: i32,
}

/// The confirmed lines of a Kagi chart, closed by the line that was being
/// drawn when the series ended: entry `k` of `prices` is the level at which
/// line `k` ended, entry `k` of `directions` its kind.
#[derive(Debug)]
pub struct KagiResult {
    pub prices: Vec<i32>,
    pub directions: Vec<Direction>,
}

impl KagiResult {
    /// A chart of the given levels and kinds.
    pub fn new(prices: Vec<i32>, directions: Vec<Direction>) -> (r: KagiResult)
        ensures
            r.prices@ == prices@,
            r.directions@ == directions@,
    {
        KagiResult { prices, directions }
    }
}

/// Whether `price` turns the line: it moves against the direction by at least
/// `reversal`.
pub open spec fn kagi_turns(st: KagiState, price: i32, reversal: int) -> bool {
    match st.direction {
        Direction::Yang => price < st.reference && st.reference - price >= reversal,
        Direction::Yin => price > st.reference && price - st.reference >= reversal,
    }
}

/// The state after `price`: a turn flips the direction and restarts at
/// `price`; a move with the direction carries the reference along; a smaller
/// move against it changes nothing.
pub open spec fn kagi_next(st: KagiState, price: i32, reversal: int) -> KagiState {
    if kagi_turns(st, price, reversal) {
        KagiState {
            direction: match st.direction {
                Direction::Yang => Direction::Yin,
                Direction::Yin => Direction::Yang,
            },
            reference: price,
        }
    } else if (st.direction == Direction::Yang && price >= st.reference) || (st.direction
        == Direction::Yin && price <= st.reference) {
        KagiState { direction: st.direction, reference: price }
    } else {
        st
    }
}

/// The state once `prices[0..=i]` have been read: a rising line from the
/// first price, then one [`kagi_next`] per price.
pub open spec fn kagi_state(prices: Seq<i32>, reversal: int, i: int) -> KagiState
    decreases i,
{
    if i <= 0 {
        KagiState { direction: Direction::Yang, reference: prices[0] }
    } else {
        kagi_next(kagi_state(prices, reversal, i - 1), prices[i], reversal)
    }
}

/// The lines confirmed once `prices[0..=i]` have been read: each turn
/// confirms the line that was being drawn, at its reference.
pub open spec fn kagi_confirmed(prices: Seq<i32>, reversal: int, i: int) -> Seq<KagiState>
    decreases i,
{
    if i <= 0 {
        Seq::empty()
    } else {
        let before = kagi_state(prices, reversal, i - 1);
        let lines = kagi_confirmed(prices, reversal, i - 1);
        if kagi_turns(before, prices[i], reversal) {
            lines.push(before)
        } else {
            lines
        }
    }
}

/// All lines of the chart: the confirmed ones, then the one being drawn at the
/// end of the series.
pub open spec fn kagi_lines(prices: Seq<i32>, reversal: int) -> Seq<KagiState> {
    kagi_confirmed(prices, reversal, prices.len() - 1).push(
        kagi_state(prices, reversal, prices.len() - 1),
    )
}

/// Why [`kagi_chart`] rejects an input, if it does.
pub open spec fn kagi_rejection(len: int, reversal: int) -> Option<IndicatorError> {
    if reversal <= 0 {
        Some(IndicatorError::InvalidParameter)
    } else if len == 0 {
        Some(IndicatorError::EmptyInput)
    } else {
        None
    }
}

/// One step of the walk: the state after `price`, and the line that `price`
/// confirmed, if it turned the chart.
pub fn kagi_advance(st: KagiState, price: i32, reversal_amount: i64) -> (r: (
    KagiState,
    Option<KagiState>,
))
    ensures
        r.0 == kagi_next(st, price, reversal_amount as int),
        r.1 == if kagi_turns(st, price, reversal_amount as int) {
            Some(st)
        } else {
            None::<KagiState>
        },
{
    let reference: i64 = st.reference as i64;
    let p: i64 = price as i64;
    match st.direction {
        Direction::Yang => {
            if p >= reference {
                (KagiState { direction: Direction::Yang, reference: price }, None)
            } else if reference - p >= reversal_amount {
                (KagiState { direction: Direction::Yin, reference: price }, Some(st))
            } else {
                (st, None)
            }
        },
        Direction::Yin => {
            if p <= reference {
                (KagiState { direction: Direction::Yin, reference: price }, None)
            } else if p - reference >= reversal_amount {
                (KagiState { direction: Direction::Yang, reference: price }, Some(st))
            } else {
                (st, None)
            }
        },
    }
}

/// The Kagi chart of a price series: the lines of [`kagi_lines`], levels and
/// kinds in two parallel vectors.
pub fn kagi_chart(prices: &[i32], reversal_amount: i64) -> (r: Result<KagiResult, IndicatorError>)
    ensures
        match r {
            Ok(chart) => {
                let lines = kagi_lines(prices@, reversal_amount as int);
                &&& kagi_rejection(prices@.len() as int, reversal_amount as int) is None
                &&& chart.prices@.len() == lines.len()
                &&& chart.directions@.len() == lines.len()
                &&& forall|k: int|
                    0 <= k < lines.len() ==> #[trigger] chart.prices@[k] == lines[k].reference
                &&& forall|k: int|
                    0 <= k < lines.len() ==> #[trigger] chart.directions@[k] == lines[k].direction
            },
            Err(e) => kagi_rejection(prices@.len() as int, reversal_amount as int) == Some(e),
        },
{
    if reversal_amount <= 0 {
        return Err(IndicatorError::InvalidParameter);
    }
    if prices.len() == 0 {
        return Err(IndicatorError::EmptyInput);
    }
    let mut levels: Vec<i32> = Vec::new();
    let mut directions: Vec<Direction> = Vec::new();
    let mut st = KagiState { direction: Direction::Yang, reference: prices[0] };
    let mut i: usize = 1;
    while i < prices.len()
        invariant
            1 <= i <= prices.len(),
            st == kagi_state(prices@, reversal_amount as int, i - 1),
            levels@.len() == kagi_confirmed(prices@, reversal_amount as int, i - 1).len(),
            directions@.len() == levels@.len(),
            forall|k: int|
                0 <= k < levels@.len() ==> #[trigger] levels@[k] == kagi_confirmed(
                    prices@,
                    reversal_amount as int,
                    i - 1,
                )[k].reference,
            forall|k: int|
                0 <= k < levels@.len() ==> #[trigger] directions@[k] == kagi_confirmed(
                    prices@,
                    reversal_amount as int,
                    i - 1,
                )[k].direction,
        decreases prices.len() - i,
    {
        let (next, line) = kagi_advance(st, prices[i], reversal_amount);
        match line {
            Some(done) => {
                levels.push(done.reference);
                directions.push(done.direction);
            },
            None => {},
        }
        st = next;
        i = i + 1;
    }
    levels.push(st.reference);
    directions.push(st.direction);
    Ok(KagiResult::new(levels, directions))
}

} // verus!
