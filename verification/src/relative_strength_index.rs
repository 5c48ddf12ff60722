use vstd::prelude::*;
use crate::error::IndicatorError;
use crate::fixed::{lemma_div_brackets, lemma_share_range, share, share_of, SCALE};
use crate::series::{all_prices, all_within, holds, widen, widened};
use crate::smoothing::{lemma_smoothed_within, wilder_at, wilder_smooth};
use crate::window::sum;

verus! {

/// The rise from each price to the next, in ten-thousandths of a tick, or
/// nothing where the price fell: entry `j` compares the prices at `j` and
/// `j + 1`.
pub open spec fn gains(s: Seq<i64>) -> Seq<i64> {
    Seq::new(
        if s.len() > 0 {
            (s.len() - 1) as nat
        } else {
            0
        },
        |j: int|
            if s[j + 1] > s[j] {
                (SCALE * (s[j + 1] - s[j])) as i64
            } else {
                0
            },
    )
}

/// The fall from each price to the next, in ten-thousandths of a tick and
/// with a minus sign, or nothing where the price rose. The sign makes a
/// rounded-down average of this series a rounded-up average of the falls.
pub open spec fn negated_losses(s: Seq<i64>) -> Seq<i64> {
    Seq::new(
        if s.len() > 0 {
            (s.len() - 1) as nat
        } else {
            0
        },
        |j: int|
            if s[j + 1] < s[j] {
                (SCALE * (s[j + 1] - s[j])) as i64
            } else {
                0
            },
    )
}

/// Wilder's average of the gains over the moves that end at price
/// `i >= period`, in ten-thousandths of a tick, rounded down.
pub open spec fn avg_gain_at(s: Seq<i64>, period: int, i: int) -> int {
    wilder_at(gains(s), period, i - 1)
}

/// Wilder's average of the losses over the moves that end at price
/// `i >= period`, in ten-thousandths of a tick, rounded up: a loss, however
/// small or long ago, keeps it above nothing.
pub open spec fn avg_loss_at(s: Seq<i64>, period: int, i: int) -> int {
    -wilder_at(negated_losses(s), period, i - 1)
}

/// The first move that Wilder's average at price `i` still weighs: with a
/// period of one it is the last move alone, otherwise every move counts.
pub open spec fn first_weighed(period: int, i: int) -> int {
    if period == 1 {
        i - 1
    } else {
        0
    }
}

/// Whether a loss lies behind price `i`: one of the moves that the average
/// weighs is a fall.
pub open spec fn loss_behind(s: Seq<i64>, period: int, i: int) -> bool {
    exists|j: int| first_weighed(period, i) <= j < i && #[trigger] s[j + 1] < s[j]
}

/// The strength index of an average gain and an average loss, in basis points:
/// the share of the gain in the sum of both, and one where nothing was lost.
pub open spec fn strength(avg_gain: int, avg_loss: int) -> int {
    if avg_loss == 0 {
        SCALE as int
    } else {
        share(avg_gain, avg_gain + avg_loss)
    }
}

/// The strength index always lies between nothing and one, and it is one
/// exactly where the average loss is nothing.
pub proof fn lemma_strength_range(avg_gain: int, avg_loss: int)
    requires
        avg_gain >= 0,
        avg_loss >= 0,
    ensures
        0 <= strength(avg_gain, avg_loss) <= SCALE,
        strength(avg_gain, avg_loss) == SCALE <==> avg_loss == 0,
{
    if avg_loss > 0 {
        lemma_share_range(avg_gain, avg_gain + avg_loss);
    }
}

/// A sum of samples none of which is positive is not positive, and it is
/// nothing exactly where every sample is.
pub proof fn lemma_sum_of_nonpositive(f: Seq<i64>, lo: int, hi: int)
    requires
        0 <= lo <= hi <= f.len(),
        forall|k: int| 0 <= k < f.len() ==> #[trigger] f[k] <= 0,
    ensures
        sum(f, lo, hi) <= 0,
        sum(f, lo, hi) == 0 <==> forall|k: int| lo <= k < hi ==> #[trigger] f[k] == 0,
    decreases hi - lo,
{
    if lo < hi {
        lemma_sum_of_nonpositive(f, lo, hi - 1);
        if sum(f, lo, hi) == 0 {
            assert forall|k: int| lo <= k < hi implies #[trigger] f[k] == 0 by {
                if k < hi - 1 {
                }
            }
        }
    }
}

/// Wilder's average of samples none of which is positive is not positive, and
/// it is nothing exactly where every sample that it weighs is.
pub proof fn lemma_wilder_of_nonpositive(f: Seq<i64>, period: int, j: int)
    requires
        1 <= period <= f.len(),
        period - 1 <= j < f.len(),
        forall|k: int| 0 <= k < f.len() ==> #[trigger] f[k] <= 0,
    ensures
        wilder_at(f, period, j) <= 0,
        wilder_at(f, period, j) == 0 <==> forall|k: int|
            first_weighed(period, j + 1) <= k <= j ==> #[trigger] f[k] == 0,
    decreases j,
{
    if j <= period - 1 || j <= 0 {
        let total = sum(f, 0, period);
        lemma_sum_of_nonpositive(f, 0, period);
        lemma_div_brackets(total, period);
        let q = total / period;
        if q > 0 {
            assert(period * q > 0) by (nonlinear_arith)
                requires
                    period >= 1,
                    q >= 1,
            ;
        }
        if q == 0 {
            assert(period * q == 0) by (nonlinear_arith)
                requires
                    q == 0,
            ;
        }
        if total == 0 {
            if q < 0 {
                assert(period * q + period <= 0) by (nonlinear_arith)
                    requires
                        period >= 1,
                        q <= -1,
                ;
            }
        }
        assert(wilder_at(f, period, j) == q);
        if q == 0 {
            assert forall|k: int| first_weighed(period, j + 1) <= k <= j implies #[trigger] f[k]
                == 0 by {
                assert(0 <= k < period);
            }
        }
        if forall|k: int| first_weighed(period, j + 1) <= k <= j ==> #[trigger] f[k] == 0 {
            assert forall|k: int| 0 <= k < period implies #[trigger] f[k] == 0 by {
                assert(first_weighed(period, j + 1) <= k <= j);
            }
        }
    } else {
        lemma_wilder_of_nonpositive(f, period, j - 1);
        let prev = wilder_at(f, period, j - 1);
        let x = f[j] as int;
        let v = 1 * x + (period - 1) * prev;
        assert((period - 1) * prev <= 0) by (nonlinear_arith)
            requires
                period >= 1,
                prev <= 0,
        ;
        lemma_div_brackets(v, period);
        let q = v / period;
        assert(wilder_at(f, period, j) == q);
        if q > 0 {
            assert(period * q > 0) by (nonlinear_arith)
                requires
                    period >= 1,
                    q >= 1,
            ;
        }
        if q == 0 {
            assert(period * q == 0) by (nonlinear_arith)
                requires
                    q == 0,
            ;
            assert(v == 0);
            assert(x == 0);
            if period >= 2 {
                if prev < 0 {
                    assert((period - 1) * prev < 0) by (nonlinear_arith)
                        requires
                            period >= 2,
                            prev <= -1,
                    ;
                }
                assert(prev == 0);
                assert forall|k: int| first_weighed(period, j + 1) <= k <= j implies #[trigger] f[k]
                    == 0 by {
                    if k < j {
                        assert(first_weighed(period, j) <= k <= j - 1);
                    }
                }
            }
        }
        if forall|k: int| first_weighed(period, j + 1) <= k <= j ==> #[trigger] f[k] == 0 {
            assert(f[j] == 0);
            if period >= 2 {
                assert forall|k: int| first_weighed(period, j) <= k <= j - 1 implies #[trigger] f[k]
                    == 0 by {
                    assert(first_weighed(period, j + 1) <= k <= j);
                }
                assert(prev == 0);
            }
            assert((period - 1) * prev == 0) by (nonlinear_arith)
                requires
                    period == 1 || prev == 0,
            ;
            assert(v == 0);
            if q < 0 {
                assert(period * q + period <= 0) by (nonlinear_arith)
                    requires
                        period >= 1,
                        q <= -1,
                ;
            }
        }
    }
}

/// The average loss is not negative, and it is nothing exactly where no loss
/// lies behind the price.
pub proof fn lemma_average_loss_is_nothing(s: Seq<i64>, period: int, i: int)
    requires
        1 <= period <= i < s.len(),
        all_prices(s),
    ensures
        avg_loss_at(s, period, i) >= 0,
        avg_loss_at(s, period, i) == 0 <==> !loss_behind(s, period, i),
{
    let f = negated_losses(s);
    assert forall|k: int| 0 <= k < f.len() implies #[trigger] f[k] <= 0 by {
        lemma_scaled_move(s, k);
    }
    lemma_wilder_of_nonpositive(f, period, i - 1);
    if loss_behind(s, period, i) {
        let j = choose|j: int| first_weighed(period, i) <= j < i && #[trigger] s[j + 1] < s[j];
        lemma_scaled_move(s, j);
        assert(f[j] < 0);
    } else {
        assert forall|k: int| first_weighed(period, i) <= k <= i - 1 implies #[trigger] f[k]
            == 0 by {
            if s[k + 1] < s[k] {
                assert(first_weighed(period, i) <= k < i && s[k + 1] < s[k]);
            }
        }
    }
}

/// A move between two prices, in ten-thousandths of a tick, fits in 64 bits
/// and keeps its sign.
pub proof fn lemma_scaled_move(s: Seq<i64>, j: int)
    requires
        0 <= j,
        j + 1 < s.len(),
        all_prices(s),
    ensures
        -0x2710_0000_0000 < SCALE * (s[j + 1] - s[j]) < 0x2710_0000_0000,
        s[j + 1] > s[j] ==> gains(s)[j] == SCALE * (s[j + 1] - s[j]) && gains(s)[j] > 0,
        s[j + 1] <= s[j] ==> gains(s)[j] == 0,
        s[j + 1] < s[j] ==> negated_losses(s)[j] == SCALE * (s[j + 1] - s[j]) && negated_losses(
            s,
        )[j] < 0,
        s[j + 1] >= s[j] ==> negated_losses(s)[j] == 0,
{
    let d = s[j + 1] - s[j];
    assert(-0x1_0000_0000 < d < 0x1_0000_0000);
    assert(-0x2710_0000_0000 < SCALE * d < 0x2710_0000_0000 && (d > 0 ==> SCALE * d > 0) && (d < 0
        ==> SCALE * d < 0)) by (nonlinear_arith)
        requires
            -0x1_0000_0000 < d < 0x1_0000_0000,
    ;
}

/// The strength index of an average gain and an average loss.
pub fn strength_index(avg_gain: i64, avg_loss: i64) -> (r: i64)
    requires
        0 <= avg_gain <= 0x2710_0000_0000,
        0 <= avg_loss <= 0x2710_0000_0000,
    ensures
        r == strength(avg_gain as int, avg_loss as int),
        0 <= r <= SCALE,
        r == SCALE <==> avg_loss == 0,
{
    if avg_loss == 0 {
        SCALE
    } else {
        share_of(avg_gain, avg_gain + avg_loss)
    }
}

/// The moves of a price series, split into [`gains`] and
/// [`negated_losses`].
pub fn gains_and_losses(data: &Vec<i64>) -> (r: (Vec<i64>, Vec<i64>))
    requires
        all_prices(data@),
    ensures
        r.0@ == gains(data@),
        r.1@ == negated_losses(data@),
        all_within(r.0@, 0, 0x2710_0000_0000),
        all_within(r.1@, -0x2710_0000_0000, 0),
{
    let mut up: Vec<i64> = Vec::new();
    let mut down: Vec<i64> = Vec::new();
    let mut j: usize = 0;
    while j + 1 < data.len()
        invariant
            all_prices(data@),
            j < data.len() || data.len() == 0,
            data.len() == 0 ==> j == 0,
            up@.len() == j,
            down@.len() == j,
            forall|k: int| 0 <= k < j ==> #[trigger] up@[k] == gains(data@)[k],
            forall|k: int| 0 <= k < j ==> #[trigger] down@[k] == negated_losses(data@)[k],
            all_within(up@, 0, 0x2710_0000_0000),
            all_within(down@, -0x2710_0000_0000, 0),
        decreases data.len() - j,
    {
        let a: i64 = data[j];
        let b: i64 = data[j + 1];
        proof {
            lemma_scaled_move(data@, j as int);
        }
        if b > a {
            up.push(SCALE * (b - a));
            down.push(0);
        } else {
            up.push(0);
            down.push(SCALE * (b - a));
        }
        j = j + 1;
    }
    assert(up@ =~= gains(data@));
    assert(down@ =~= negated_losses(data@));
    (up, down)
}

/// The relative strength index of a price series, in basis points, one entry
/// for every price from index `period` on: entry `k` is the [`strength`] of
/// Wilder's averages of the gains and of the losses at price `k + period`.
/// The averages are kept in ten-thousandths of a tick, that of the gains
/// rounded down and that of the losses rounded up, so the index never
/// overstates. Every entry lies between nothing and one, and is one exactly
/// where no loss lies behind its price.
pub fn relative_strength_index(prices: &[i32], period: usize) -> (r: Result<Vec<i64>, IndicatorError>)
    ensures
        match r {
            Ok(out) => {
                let s = widened(prices@);
                &&& period >= 1
                &&& out@.len() == if prices@.len() > period {
                    prices@.len() - period
                } else {
                    0
                }
                &&& forall|k: int|
                    0 <= k < out@.len() ==> #[trigger] out@[k] == strength(
                        avg_gain_at(s, period as int, k + period),
                        avg_loss_at(s, period as int, k + period),
                    )
                &&& forall|k: int| 0 <= k < out@.len() ==> 0 <= #[trigger] out@[k] <= SCALE
                &&& forall|k: int|
                    0 <= k < out@.len() ==> (#[trigger] out@[k] == SCALE <==> !loss_behind(
                        s,
                        period as int,
                        k + period,
                    ))
            },
            Err(e) => e == IndicatorError::InvalidPeriod && period == 0,
        },
{
    if period == 0 {
        return Err(IndicatorError::InvalidPeriod);
    }
    let data: Vec<i64> = widen(prices);
    let (up, down) = gains_and_losses(&data);
    let avg_up: Vec<Option<i64>> = wilder_smooth(up.as_slice(), period);
    let avg_down: Vec<Option<i64>> = wilder_smooth(down.as_slice(), period);
    let ghost s = data@;
    let mut out: Vec<i64> = Vec::new();
    if data.len() <= period {
        return Ok(out);
    }
    let count: usize = data.len() - period;
    let mut k: usize = 0;
    while k < count
        invariant
            period >= 1,
            s == data@,
            s.len() == data.len(),
            s.len() > period,
            all_prices(s),
            count == s.len() - period,
            k <= count,
            up@ == gains(s),
            down@ == negated_losses(s),
            all_within(up@, 0, 0x2710_0000_0000),
            all_within(down@, -0x2710_0000_0000, 0),
            avg_up@.len() == up@.len(),
            avg_down@.len() == down@.len(),
            forall|i: int|
                period - 1 <= i < avg_up@.len() ==> holds(#[trigger] avg_up@[i], wilder_at(up@, period as int, i)),
            forall|i: int|
                period - 1 <= i < avg_down@.len() ==> holds(#[trigger] avg_down@[i], wilder_at(down@, period as int, i)),
            out@.len() == k,
            forall|j: int|
                0 <= j < k ==> #[trigger] out@[j] == strength(
                    avg_gain_at(s, period as int, j + period),
                    avg_loss_at(s, period as int, j + period),
                ),
            forall|j: int| 0 <= j < k ==> 0 <= #[trigger] out@[j] <= SCALE,
            forall|j: int|
                0 <= j < k ==> (#[trigger] out@[j] == SCALE <==> !loss_behind(
                    s,
                    period as int,
                    j + period,
                )),
        decreases count - k,
    {
        let at: usize = k + period - 1;
        proof {
            lemma_smoothed_within(up@, period as int, 1, period as int, at as int, 0, 0x2710_0000_0000);
            lemma_smoothed_within(
                down@,
                period as int,
                1,
                period as int,
                at as int,
                -0x2710_0000_0000,
                0,
            );
            assert(holds(avg_up@[at as int], wilder_at(up@, period as int, at as int)));
            assert(holds(avg_down@[at as int], wilder_at(down@, period as int, at as int)));
            lemma_average_loss_is_nothing(s, period as int, k + period);
        }
        let g: i64 = match avg_up[at] {
            Some(v) => v,
            None => 0,
        };
        let l: i64 = match avg_down[at] {
            Some(v) => -v,
            None => 0,
        };
        out.push(strength_index(g, l));
        k = k + 1;
    }
    Ok(out)
}

} // verus!
