//! Relative Strength Index in exact arithmetic.
//!
//! The RSI compares the magnitude of recent price gains to recent price
//! losses through Wilder-smoothed averages. The textbook formula is
//! `RSI = 100 - 100 / (1 + AG / AL)` with average gain `AG` and average loss
//! `AL`; it is identical to `100 * AG / (AG + AL)` wherever `AL != 0`, and
//! the latter form also yields `100` when `AL == 0` and `AG > 0`, exactly
//! the limit the textbook form approaches. This module therefore reports
//! each RSI value as the exact ratio `100 * AG : AG + AL`, and both averages
//! are carried as integer numerators over a known common power-of-`period`
//! denominator, which cancels out of the ratio.

use vstd::arithmetic::power::pow;
use vstd::prelude::*;

use crate::types::IndicatorError;
use crate::types::Ratio;

verus! {

/// Price change from `prev` to `cur`, counted only when it is a rise.
pub open spec fn gain(prev: i64, cur: i64) -> int {
    if cur > prev {
        cur - prev
    } else {
        0
    }
}

/// Magnitude of the price change from `prev` to `cur`, counted only when it
/// is a fall. A change of exactly zero contributes to neither side.
pub open spec fn loss(prev: i64, cur: i64) -> int {
    if cur < prev {
        prev - cur
    } else {
        0
    }
}

/// Total gains over the first `k` consecutive price changes of `p`.
pub open spec fn gain_sum(p: Seq<i64>, k: int) -> int
    decreases k,
{
    if k <= 0 {
        0
    } else {
        gain_sum(p, k - 1) + gain(p[k - 1], p[k])
    }
}

/// Total losses over the first `k` consecutive price changes of `p`.
pub open spec fn loss_sum(p: Seq<i64>, k: int) -> int
    decreases k,
{
    if k <= 0 {
        0
    } else {
        loss_sum(p, k - 1) + loss(p[k - 1], p[k])
    }
}

/// Numerator of Wilder's smoothed average gain at output position `k`.
///
/// The smoothed average gain after the initial window is
/// `gain_sum / period`, and each later step updates it by
/// `AG <- (AG * (period - 1) + current_gain) / period`. Carrying the value
/// on the common denominator `period * pow(period, k)` keeps every state an
/// integer: the average itself is `avg_gain_num / (period * pow(period, k))`.
pub open spec fn avg_gain_num(p: Seq<i64>, period: int, k: int) -> int
    decreases k,
{
    if k <= 0 {
        gain_sum(p, period)
    } else {
        avg_gain_num(p, period, k - 1) * (period - 1) + gain(p[period + k - 1], p[period + k])
            * pow(period, k as nat)
    }
}

/// Numerator of Wilder's smoothed average loss at output position `k`, on
/// the same denominator as `avg_gain_num`.
pub open spec fn avg_loss_num(p: Seq<i64>, period: int, k: int) -> int
    decreases k,
{
    if k <= 0 {
        loss_sum(p, period)
    } else {
        avg_loss_num(p, period, k - 1) * (period - 1) + loss(p[period + k - 1], p[period + k])
            * pow(period, k as nat)
    }
}

/// Numerator of the RSI value at output position `k`: the value is
/// `rsi_num / rsi_den`, the shared power-of-`period` denominator of the two
/// averages having cancelled.
pub open spec fn rsi_num(p: Seq<i64>, period: int, k: int) -> int {
    100 * avg_gain_num(p, period, k)
}

/// Denominator of the RSI value at output position `k`. It is zero exactly
/// when both smoothed averages are zero, that is, when every price change
/// seen so far was zero.
pub open spec fn rsi_den(p: Seq<i64>, period: int, k: int) -> int {
    avg_gain_num(p, period, k) + avg_loss_num(p, period, k)
}

/// Every exact value the computation touches at output position `k` fits in
/// an `i128`.
pub open spec fn rsi_fits_at(p: Seq<i64>, period: int, k: int) -> bool {
    &&& rsi_num(p, period, k) <= i128::MAX
    &&& rsi_den(p, period, k) <= i128::MAX
    &&& pow(period, k as nat) <= i128::MAX
}

/// Output position `k` is computable: its values fit in an `i128` and its
/// denominator is not zero.
pub open spec fn rsi_ok_at(p: Seq<i64>, period: int, k: int) -> bool {
    rsi_fits_at(p, period, k) && rsi_den(p, period, k) != 0
}

/// Gain and loss totals are nonnegative and grow with the number of changes
/// they cover.
proof fn lemma_sums_nonneg_mono(p: Seq<i64>, j: int, k: int)
    requires
        0 <= j <= k,
    ensures
        0 <= gain_sum(p, j) <= gain_sum(p, k),
        0 <= loss_sum(p, j) <= loss_sum(p, k),
    decreases k,
{
    if j == k {
        if 0 < j {
            lemma_sums_nonneg_mono(p, j - 1, j - 1);
        }
    } else {
        lemma_sums_nonneg_mono(p, j, k - 1);
    }
}

/// Both smoothed-average numerators stay nonnegative at every step.
proof fn lemma_avg_nums_nonneg(p: Seq<i64>, period: int, k: int)
    requires
        1 <= period,
    ensures
        0 <= avg_gain_num(p, period, k),
        0 <= avg_loss_num(p, period, k),
    decreases (if k <= 0 { 0 } else { k }),
{
    if k <= 0 {
        lemma_sums_nonneg_mono(p, period, period);
    } else {
        lemma_avg_nums_nonneg(p, period, k - 1);
        vstd::arithmetic::power::lemma_pow_positive(period, k as nat);
        vstd::arithmetic::mul::lemma_mul_nonnegative(avg_gain_num(p, period, k - 1), period - 1);
        vstd::arithmetic::mul::lemma_mul_nonnegative(avg_loss_num(p, period, k - 1), period - 1);
        vstd::arithmetic::mul::lemma_mul_nonnegative(
            gain(p[period + k - 1], p[period + k]),
            pow(period, k as nat),
        );
        vstd::arithmetic::mul::lemma_mul_nonnegative(
            loss(p[period + k - 1], p[period + k]),
            pow(period, k as nat),
        );
    }
}

/// One Wilder smoothing step on the scaled numerators: grows the common
/// denominator by one factor of `period` and folds the current gain and
/// loss into the two numerators, reporting `None` as soon as an exact value
/// leaves the `i128` range.
fn wilder_step(a: i128, l: i128, cg: i128, cl: i128, scale: i128, period: i128) -> (r: Option<
    (i128, i128, i128),
>)
    requires
        0 <= a,
        0 <= l,
        0 <= cg,
        0 <= cl,
        1 <= scale,
        1 <= period,
    ensures
        match r {
            Some(t) => {
                &&& t.2 == scale * period
                &&& t.0 == a * (period - 1) + cg * (scale * period)
                &&& t.1 == l * (period - 1) + cl * (scale * period)
                &&& 0 <= t.0
                &&& 0 <= t.1
                &&& 1 <= t.2
            },
            None => {
                ||| scale * period > i128::MAX
                ||| a * (period - 1) + cg * (scale * period) > i128::MAX
                ||| l * (period - 1) + cl * (scale * period) > i128::MAX
            },
        },
{
    proof {
        assert(1 <= scale * period) by (nonlinear_arith)
            requires
                1 <= scale,
                1 <= period,
        ;
        vstd::arithmetic::mul::lemma_mul_nonnegative(a as int, period - 1);
        vstd::arithmetic::mul::lemma_mul_nonnegative(l as int, period - 1);
        vstd::arithmetic::mul::lemma_mul_nonnegative(cg as int, scale * period);
        vstd::arithmetic::mul::lemma_mul_nonnegative(cl as int, scale * period);
    }
    let s2: i128 = match scale.checked_mul(period) {
        Some(v) => v,
        None => {
            return None;
        },
    };
    let ta: i128 = match a.checked_mul(period - 1) {
        Some(v) => v,
        None => {
            return None;
        },
    };
    let ua: i128 = match cg.checked_mul(s2) {
        Some(v) => v,
        None => {
            return None;
        },
    };
    let a2: i128 = match ta.checked_add(ua) {
        Some(v) => v,
        None => {
            return None;
        },
    };
    let tl: i128 = match l.checked_mul(period - 1) {
        Some(v) => v,
        None => {
            return None;
        },
    };
    let ul: i128 = match cl.checked_mul(s2) {
        Some(v) => v,
        None => {
            return None;
        },
    };
    let l2: i128 = match tl.checked_add(ul) {
        Some(v) => v,
        None => {
            return None;
        },
    };
    Some((a2, l2, s2))
}

/// Computes the RSI sequence of `prices` for the given smoothing period.
///
/// With fewer than `period + 1` prices the run fails with
/// `InsufficientData`. The first value is the plain ratio of the initial
/// averages over the first `period` changes; each later value comes from
/// Wilder's smoothing recurrence, one value per further price,
/// `prices.len() - period` values in all, in chronological order. A window
/// of all-zero changes makes the value undefined and fails the run with
/// `DegenerateWindow`; an exact value beyond the `i128` range fails it with
/// `ValueTooLarge` (every returned value is exact, so the machine range is
/// the only size limit).
pub fn run(prices: &Vec<i64>, period: usize) -> (r: Result<Vec<Ratio>, IndicatorError>)
    requires
        1 <= period,
        period < usize::MAX,
    ensures
        ({
            let p = prices@;
            let per = period as int;
            let m: int = p.len() - per;
            match r {
                Ok(out) => {
                    &&& p.len() >= per + 1
                    &&& out@.len() == m
                    &&& forall|k: int| 0 <= k < m ==> #[trigger] rsi_ok_at(p, per, k)
                    &&& forall|k: int|
                        0 <= k < m ==> (#[trigger] out@[k]).num == rsi_num(p, per, k)
                            && out@[k].den == rsi_den(p, per, k)
                },
                Err(e) => match e {
                    IndicatorError::InsufficientData { received, required } => {
                        &&& received == p.len()
                        &&& required == per + 1
                        &&& p.len() < per + 1
                    },
                    IndicatorError::DegenerateWindow { index } => {
                        &&& p.len() >= per + 1
                        &&& index < m
                        &&& rsi_den(p, per, index as int) == 0
                        &&& rsi_fits_at(p, per, index as int)
                        &&& forall|j: int| 0 <= j < index ==> #[trigger] rsi_ok_at(p, per, j)
                    },
                    IndicatorError::ValueTooLarge => {
                        &&& p.len() >= per + 1
                        &&& exists|k: int|
                            0 <= k < m && !(#[trigger] rsi_fits_at(p, per, k)) && (forall|j: int|
                                0 <= j < k ==> #[trigger] rsi_ok_at(p, per, j))
                    },
                },
            }
        }),
{
    let n: usize = prices.len();
    if n < period + 1 {
        return Err(IndicatorError::InsufficientData { received: n, required: period + 1 });
    }
    let ghost p: Seq<i64> = prices@;
    let ghost per: int = period as int;

    // Initialization window: total gains and losses over the first `period`
    // price changes.
    let mut gs: i128 = 0;
    let mut ls: i128 = 0;
    let mut i: usize = 1;
    while i <= period
        invariant
            1 <= i <= period + 1,
            period + 1 <= n == p.len(),
            p == prices@,
            per == period as int,
            gs == gain_sum(p, i - 1),
            ls == loss_sum(p, i - 1),
            0 <= gs,
            0 <= ls,
        decreases period - i + 1,
    {
        let d: i128 = prices[i] as i128 - prices[i - 1] as i128;
        if d > 0 {
            gs = match gs.checked_add(d) {
                Some(v) => v,
                None => {
                    proof {
                        lemma_sums_nonneg_mono(p, i as int, per);
                        assert(!rsi_fits_at(p, per, 0));
                    }
                    return Err(IndicatorError::ValueTooLarge);
                },
            };
        } else if d < 0 {
            ls = match ls.checked_add(-d) {
                Some(v) => v,
                None => {
                    proof {
                        lemma_sums_nonneg_mono(p, i as int, per);
                        assert(rsi_den(p, per, 0) > i128::MAX);
                        assert(!rsi_fits_at(p, per, 0));
                    }
                    return Err(IndicatorError::ValueTooLarge);
                },
            };
        }
        i = i + 1;
    }
    assert(gs == avg_gain_num(p, per, 0));
    assert(ls == avg_loss_num(p, per, 0));

    // First value: the plain ratio of the two initial averages; their
    // common denominator `period` cancels.
    let den0: i128 = match gs.checked_add(ls) {
        Some(v) => v,
        None => {
            proof {
                assert(!rsi_fits_at(p, per, 0));
            }
            return Err(IndicatorError::ValueTooLarge);
        },
    };
    proof {
        vstd::arithmetic::power::lemma_pow0(per);
    }
    if den0 == 0 {
        return Err(IndicatorError::DegenerateWindow { index: 0 });
    }
    let num0: i128 = match gs.checked_mul(100) {
        Some(v) => v,
        None => {
            proof {
                assert(!rsi_fits_at(p, per, 0));
            }
            return Err(IndicatorError::ValueTooLarge);
        },
    };
    let mut out: Vec<Ratio> = Vec::new();
    out.push(Ratio { num: num0, den: den0 });

    // Recurrence phase: Wilder smoothing, one value per further price.
    let mut a: i128 = gs;
    let mut l: i128 = ls;
    let mut scale: i128 = 1;
    let per128: i128 = period as i128;
    let mut i: usize = period + 1;
    while i < n
        invariant
            period + 1 <= i <= n == p.len(),
            p == prices@,
            per == period as int,
            1 <= period < usize::MAX,
            per128 == per,
            a == avg_gain_num(p, per, i - period - 1),
            l == avg_loss_num(p, per, i - period - 1),
            scale == pow(per, (i - period - 1) as nat),
            0 <= a,
            0 <= l,
            1 <= scale,
            out@.len() == i - period,
            forall|k: int| 0 <= k < i - period ==> #[trigger] rsi_ok_at(p, per, k),
            forall|k: int|
                0 <= k < i - period ==> (#[trigger] out@[k]).num == rsi_num(p, per, k)
                    && out@[k].den == rsi_den(p, per, k),
        decreases n - i,
    {
        let ghost k: int = i - period;
        let d: i128 = prices[i] as i128 - prices[i - 1] as i128;
        let cg: i128 = if d > 0 {
            d
        } else {
            0
        };
        let cl: i128 = if d < 0 {
            -d
        } else {
            0
        };
        proof {
            assert(cg == gain(p[i - 1], p[i as int]));
            assert(cl == loss(p[i - 1], p[i as int]));
            reveal(pow);
            assert(pow(per, k as nat) == per * pow(per, (k - 1) as nat));
            assert(avg_gain_num(p, per, k) == avg_gain_num(p, per, k - 1) * (per - 1) + gain(
                p[i - 1],
                p[i as int],
            ) * pow(per, k as nat));
            assert(avg_loss_num(p, per, k) == avg_loss_num(p, per, k - 1) * (per - 1) + loss(
                p[i - 1],
                p[i as int],
            ) * pow(per, k as nat));
        }
        let stepped: Option<(i128, i128, i128)> = wilder_step(a, l, cg, cl, scale, per128);
        let t: (i128, i128, i128) = match stepped {
            Some(v) => v,
            None => {
                proof {
                    lemma_avg_nums_nonneg(p, per, k);
                    lemma_avg_nums_nonneg(p, per, k - 1);
                    assert(!rsi_fits_at(p, per, k));
                }
                return Err(IndicatorError::ValueTooLarge);
            },
        };
        let a2: i128 = t.0;
        let l2: i128 = t.1;
        let s2: i128 = t.2;
        proof {
            assert(a2 == avg_gain_num(p, per, k));
            assert(l2 == avg_loss_num(p, per, k));
            assert(s2 == pow(per, k as nat));
        }
        let den: i128 = match a2.checked_add(l2) {
            Some(v) => v,
            None => {
                proof {
                    assert(!rsi_fits_at(p, per, k));
                }
                return Err(IndicatorError::ValueTooLarge);
            },
        };
        if den == 0 {
            proof {
                assert(rsi_fits_at(p, per, k));
            }
            return Err(IndicatorError::DegenerateWindow { index: i - period });
        }
        let num: i128 = match a2.checked_mul(100) {
            Some(v) => v,
            None => {
                proof {
                    assert(!rsi_fits_at(p, per, k));
                }
                return Err(IndicatorError::ValueTooLarge);
            },
        };
        out.push(Ratio { num, den });
        a = a2;
        l = l2;
        scale = s2;
        i = i + 1;
    }
    Ok(out)
}

/// The first RSI value comes from the plain initial averages: it is the
/// ratio of total gains to total movement over the first window, not a
/// value of the smoothing recurrence.
pub proof fn lemma_first_value_from_initial_averages(p: Seq<i64>, period: int)
    ensures
        rsi_num(p, period, 0) == 100 * gain_sum(p, period),
        rsi_den(p, period, 0) == gain_sum(p, period) + loss_sum(p, period),
{
}

/// Every RSI value lies in [0, 100]: whenever the value at position `k` is
/// defined at all (its denominator is not zero), its numerator sits between
/// zero and one hundred times its denominator.
pub proof fn lemma_rsi_in_bounds(p: Seq<i64>, period: int, k: int)
    requires
        1 <= period,
        rsi_den(p, period, k) != 0,
    ensures
        0 < rsi_den(p, period, k),
        0 <= rsi_num(p, period, k) <= 100 * rsi_den(p, period, k),
{
    lemma_avg_nums_nonneg(p, period, k);
}

} // verus!
