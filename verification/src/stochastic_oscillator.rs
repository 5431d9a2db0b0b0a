//! Stochastic Oscillator %K in exact arithmetic.
//!
//! %K compares the latest close to the high/low range of a trailing window:
//! `%K = (close - low14) / (high14 - low14) * 100`, where `low14` is the
//! lowest session low and `high14` the highest session high over the last
//! `period` sessions. Each value is reported as the exact ratio
//! `100 * (close - low14) : high14 - low14`; a flat window, whose range is
//! zero, is reported as an error instead of a value.

use vstd::prelude::*;

use crate::types::IndicatorError;
use crate::types::OhlcSample;
use crate::types::Ratio;

verus! {

/// The smaller of two integers.
pub open spec fn int_min(a: int, b: int) -> int {
    if a <= b {
        a
    } else {
        b
    }
}

/// The larger of two integers.
pub open spec fn int_max(a: int, b: int) -> int {
    if a >= b {
        a
    } else {
        b
    }
}

/// Lowest session low over the index range `[lo, hi)`; meaningful for
/// `lo < hi`.
pub open spec fn lowest_low(s: Seq<OhlcSample>, lo: int, hi: int) -> int
    decreases hi - lo,
{
    if hi <= lo + 1 {
        s[lo].low as int
    } else {
        int_min(lowest_low(s, lo, hi - 1), s[hi - 1].low as int)
    }
}

/// Highest session high over the index range `[lo, hi)`; meaningful for
/// `lo < hi`.
pub open spec fn highest_high(s: Seq<OhlcSample>, lo: int, hi: int) -> int
    decreases hi - lo,
{
    if hi <= lo + 1 {
        s[lo].high as int
    } else {
        int_max(highest_high(s, lo, hi - 1), s[hi - 1].high as int)
    }
}

/// Numerator of the %K value at output position `k`: the window for that
/// position covers the `period` sessions ending at index `k + period - 1`,
/// and the value is `stoch_num / stoch_den`.
pub open spec fn stoch_num(s: Seq<OhlcSample>, period: int, k: int) -> int {
    100 * (s[k + period - 1].close - lowest_low(s, k, k + period))
}

/// Denominator of the %K value at output position `k`: the high/low range
/// of its window. It is zero exactly when the window is flat.
pub open spec fn stoch_den(s: Seq<OhlcSample>, period: int, k: int) -> int {
    highest_high(s, k, k + period) - lowest_low(s, k, k + period)
}

/// The window minimum is at or below every low in the window, and the
/// window maximum at or above every high in it.
proof fn lemma_window_extremes(s: Seq<OhlcSample>, lo: int, hi: int, m: int)
    requires
        lo <= m < hi,
    ensures
        lowest_low(s, lo, hi) <= s[m].low,
        highest_high(s, lo, hi) >= s[m].high,
    decreases hi - lo,
{
    if m < hi - 1 {
        lemma_window_extremes(s, lo, hi - 1, m);
    }
}

/// Every %K value lies in [0, 100]: with well-formed sessions
/// (`low <= close <= high`) and a window that is not flat, the numerator at
/// position `k` sits between zero and one hundred times the denominator.
pub proof fn lemma_stochastic_in_bounds(s: Seq<OhlcSample>, period: int, k: int)
    requires
        1 <= period,
        0 <= k,
        k + period <= s.len(),
        forall|j: int| 0 <= j < s.len() ==> (#[trigger] s[j]).low <= s[j].close <= s[j].high,
        stoch_den(s, period, k) != 0,
    ensures
        0 < stoch_den(s, period, k),
        0 <= stoch_num(s, period, k) <= 100 * stoch_den(s, period, k),
{
    lemma_window_extremes(s, k, k + period, k + period - 1);
}

/// The %K contract pins every output element down, so any two output
/// sequences that meet it — for instance one from the naive window rescan
/// and one from a windowed-min/max refinement — are identical.
pub proof fn lemma_output_determined(
    s: Seq<OhlcSample>,
    period: int,
    out1: Seq<Ratio>,
    out2: Seq<Ratio>,
)
    requires
        1 <= period <= s.len(),
        out1.len() == s.len() - period + 1,
        out2.len() == s.len() - period + 1,
        forall|k: int|
            0 <= k < out1.len() ==> (#[trigger] out1[k]).num == stoch_num(s, period, k)
                && out1[k].den == stoch_den(s, period, k),
        forall|k: int|
            0 <= k < out2.len() ==> (#[trigger] out2[k]).num == stoch_num(s, period, k)
                && out2[k].den == stoch_den(s, period, k),
    ensures
        out1 == out2,
{
    assert forall|k: int| 0 <= k < out1.len() implies out1[k] == out2[k] by {
        assert(out1[k].num == out2[k].num);
        assert(out1[k].den == out2[k].den);
    }
    assert(out1 =~= out2);
}

/// Splitting a range splits its extrema: the minimum over `[lo, hi)` is the
/// smaller of the minima over `[lo, mid)` and `[mid, hi)`, and likewise for
/// the maximum.
proof fn lemma_extremes_split(s: Seq<OhlcSample>, lo: int, mid: int, hi: int)
    requires
        lo < mid < hi,
    ensures
        lowest_low(s, lo, hi) == int_min(lowest_low(s, lo, mid), lowest_low(s, mid, hi)),
        highest_high(s, lo, hi) == int_max(highest_high(s, lo, mid), highest_high(s, mid, hi)),
    decreases hi - mid,
{
    if mid < hi - 1 {
        lemma_extremes_split(s, lo, mid, hi - 1);
    }
}

/// Start of the length-`period` block that index `j` falls in, blocks being
/// aligned at multiples of `period`.
pub open spec fn block_start(period: int, j: int) -> int {
    (j / period) * period
}

/// End of the block of index `j`, clipped to the input length `n`.
pub open spec fn block_end(period: int, n: int, j: int) -> int {
    int_min(block_start(period, j) + period, n)
}

/// An index between two consecutive multiples of `period` falls in the block
/// that starts at the lower one.
proof fn lemma_in_block(period: int, b: int, j: int)
    requires
        1 <= period,
        0 <= b,
        b * period <= j < b * period + period,
    ensures
        block_start(period, j) == b * period,
{
    vstd::arithmetic::div_mod::lemma_fundamental_div_mod_converse(
        j,
        period,
        b,
        j - b * period,
    );
}

/// Computes the %K sequence of `samples` for the given window size.
///
/// With fewer than `period` sessions the run fails with `InsufficientData`;
/// with a flat window it fails with `DegenerateWindow` at the first flat
/// position; otherwise it returns one exact value per window position, in
/// chronological order, `samples.len() - period + 1` values in all.
pub fn run(samples: &Vec<OhlcSample>, period: usize) -> (r: Result<Vec<Ratio>, IndicatorError>)
    requires
        1 <= period,
    ensures
        ({
            let s = samples@;
            let per = period as int;
            let m: int = s.len() - per + 1;
            match r {
                Ok(out) => {
                    &&& s.len() >= per
                    &&& out@.len() == m
                    &&& forall|k: int| 0 <= k < m ==> #[trigger] stoch_den(s, per, k) != 0
                    &&& forall|k: int|
                        0 <= k < m ==> (#[trigger] out@[k]).num == stoch_num(s, per, k)
                            && out@[k].den == stoch_den(s, per, k)
                },
                Err(e) => match e {
                    IndicatorError::InsufficientData { received, required } => {
                        &&& received == s.len()
                        &&& required == per
                        &&& s.len() < per
                    },
                    IndicatorError::DegenerateWindow { index } => {
                        &&& s.len() >= per
                        &&& index < m
                        &&& stoch_den(s, per, index as int) == 0
                        &&& forall|j: int| 0 <= j < index ==> #[trigger] stoch_den(s, per, j) != 0
                    },
                    IndicatorError::ValueTooLarge => false,
                },
            }
        }),
{
    let n: usize = samples.len();
    if n < period {
        return Err(IndicatorError::InsufficientData { received: n, required: period });
    }
    let ghost s: Seq<OhlcSample> = samples@;
    let ghost per: int = period as int;
    let mut out: Vec<Ratio> = Vec::new();
    let mut i: usize = period - 1;
    while i < n
        invariant
            1 <= period,
            period - 1 <= i <= n == s.len(),
            s == samples@,
            per == period as int,
            out@.len() == i - (period - 1),
            forall|k: int| 0 <= k < i - (period - 1) ==> #[trigger] stoch_den(s, per, k) != 0,
            forall|k: int|
                0 <= k < i - (period - 1) ==> (#[trigger] out@[k]).num == stoch_num(s, per, k)
                    && out@[k].den == stoch_den(s, per, k),
        decreases n - i,
    {
        let lo: usize = i + 1 - period;
        let cur: OhlcSample = samples[i];
        let mut low14: i64 = cur.low;
        let mut high14: i64 = cur.high;
        let mut j: usize = lo;
        while j < i
            invariant
                lo <= j <= i < n == s.len(),
                s == samples@,
                cur == s[i as int],
                low14 as int == (if j == lo {
                    s[i as int].low as int
                } else {
                    int_min(lowest_low(s, lo as int, j as int), s[i as int].low as int)
                }),
                high14 as int == (if j == lo {
                    s[i as int].high as int
                } else {
                    int_max(highest_high(s, lo as int, j as int), s[i as int].high as int)
                }),
            decreases i - j,
        {
            let prev: OhlcSample = samples[j];
            if low14 > prev.low {
                low14 = prev.low;
            }
            if high14 < prev.high {
                high14 = prev.high;
            }
            j = j + 1;
        }
        let ghost k: int = (i + 1 - period) as int;
        proof {
            assert(low14 as int == lowest_low(s, k, i + 1));
            assert(high14 as int == highest_high(s, k, i + 1));
        }
        let den: i128 = high14 as i128 - low14 as i128;
        if den == 0 {
            return Err(IndicatorError::DegenerateWindow { index: i + 1 - period });
        }
        let num: i128 = (cur.close as i128 - low14 as i128) * 100;
        out.push(Ratio { num, den });
        i = i + 1;
    }
    Ok(out)
}

/// Computes the %K sequence with a linear-time windowed-min/max scan.
///
/// The naive rescan in `run` walks every window in full. Here the input is
/// cut into blocks of length `period`; one backward pass per block records
/// suffix extrema, a running forward scan keeps prefix extrema of the
/// current block, and every window is the union of one block suffix and one
/// block prefix, so each of its extrema is the meet of two precomputed
/// values. The contract is the same as `run`'s, word for word; since that
/// contract pins every output element (see `lemma_output_determined`), the
/// refinement provably returns exactly the naive rescan's sequence.
pub fn run_linear(samples: &Vec<OhlcSample>, period: usize) -> (r: Result<
    Vec<Ratio>,
    IndicatorError,
>)
    requires
        1 <= period,
    ensures
        ({
            let s = samples@;
            let per = period as int;
            let m: int = s.len() - per + 1;
            match r {
                Ok(out) => {
                    &&& s.len() >= per
                    &&& out@.len() == m
                    &&& forall|k: int| 0 <= k < m ==> #[trigger] stoch_den(s, per, k) != 0
                    &&& forall|k: int|
                        0 <= k < m ==> (#[trigger] out@[k]).num == stoch_num(s, per, k)
                            && out@[k].den == stoch_den(s, per, k)
                },
                Err(e) => match e {
                    IndicatorError::InsufficientData { received, required } => {
                        &&& received == s.len()
                        &&& required == per
                        &&& s.len() < per
                    },
                    IndicatorError::DegenerateWindow { index } => {
                        &&& s.len() >= per
                        &&& index < m
                        &&& stoch_den(s, per, index as int) == 0
                        &&& forall|j: int| 0 <= j < index ==> #[trigger] stoch_den(s, per, j) != 0
                    },
                    IndicatorError::ValueTooLarge => false,
                },
            }
        }),
{
    let n: usize = samples.len();
    if n < period {
        return Err(IndicatorError::InsufficientData { received: n, required: period });
    }
    let ghost s: Seq<OhlcSample> = samples@;
    let ghost per: int = period as int;

    // One backward pass per block: suf_low[j] and suf_high[j] hold the
    // extrema from j to the end of j's block.
    let mut suf_low: Vec<i64> = vec![0i64; n];
    let mut suf_high: Vec<i64> = vec![0i64; n];
    let mut bs: usize = 0;
    let ghost mut bnum: int = 0;
    while bs < n
        invariant
            1 <= period <= n == s.len(),
            s == samples@,
            per == period as int,
            bs <= n,
            bs == bnum * per || bs == n,
            0 <= bnum,
            suf_low@.len() == n,
            suf_high@.len() == n,
            forall|j: int|
                0 <= j < bs ==> #[trigger] suf_low@[j] == lowest_low(
                    s,
                    j,
                    block_end(per, n as int, j),
                ),
            forall|j: int|
                0 <= j < bs ==> #[trigger] suf_high@[j] == highest_high(
                    s,
                    j,
                    block_end(per, n as int, j),
                ),
        decreases n - bs,
    {
        let be: usize = if n - bs > period {
            bs + period
        } else {
            n
        };
        let mut j: usize = be;
        let mut rlow: i64 = 0;
        let mut rhigh: i64 = 0;
        while j > bs
            invariant
                1 <= period <= n == s.len(),
                s == samples@,
                per == period as int,
                bs <= j <= be <= n,
                bs < be,
                be == int_min(bs + per, n as int),
                bs == bnum * per,
                0 <= bnum,
                suf_low@.len() == n,
                suf_high@.len() == n,
                j < be ==> rlow as int == lowest_low(s, j as int, be as int),
                j < be ==> rhigh as int == highest_high(s, j as int, be as int),
                forall|j2: int|
                    j <= j2 < be ==> #[trigger] suf_low@[j2] == lowest_low(s, j2, be as int),
                forall|j2: int|
                    j <= j2 < be ==> #[trigger] suf_high@[j2] == highest_high(s, j2, be as int),
                forall|j2: int|
                    0 <= j2 < bs ==> #[trigger] suf_low@[j2] == lowest_low(
                        s,
                        j2,
                        block_end(per, n as int, j2),
                    ),
                forall|j2: int|
                    0 <= j2 < bs ==> #[trigger] suf_high@[j2] == highest_high(
                        s,
                        j2,
                        block_end(per, n as int, j2),
                    ),
            decreases j,
        {
            j = j - 1;
            let smp: OhlcSample = samples[j];
            if j + 1 == be {
                rlow = smp.low;
                rhigh = smp.high;
            } else {
                if smp.low < rlow {
                    rlow = smp.low;
                }
                if smp.high > rhigh {
                    rhigh = smp.high;
                }
                proof {
                    lemma_extremes_split(s, j as int, j + 1, be as int);
                }
            }
            suf_low[j] = rlow;
            suf_high[j] = rhigh;
        }
        proof {
            assert forall|j2: int| bs <= j2 < be implies #[trigger] block_end(per, n as int, j2)
                == be as int by {
                lemma_in_block(per, bnum, j2);
            };
            assert((bnum + 1) * per == bnum * per + per) by (nonlinear_arith);
            bnum = bnum + 1;
        }
        bs = be;
    }

    // Forward scan: one running prefix-extremum of the current block, and
    // one window per index from `period - 1` on.
    let mut out: Vec<Ratio> = Vec::new();
    let mut i: usize = 0;
    let mut cbs: usize = 0;
    let ghost mut cb: int = 0;
    let mut runl: i64 = 0;
    let mut runh: i64 = 0;
    while i < n
        invariant
            1 <= period <= n == s.len(),
            s == samples@,
            per == period as int,
            i <= n,
            cbs == cb * per,
            0 <= cb,
            cbs <= i <= cbs + period,
            cbs < i ==> runl as int == lowest_low(s, cbs as int, i as int),
            cbs < i ==> runh as int == highest_high(s, cbs as int, i as int),
            suf_low@.len() == n,
            suf_high@.len() == n,
            forall|j: int|
                0 <= j < n ==> #[trigger] suf_low@[j] == lowest_low(
                    s,
                    j,
                    block_end(per, n as int, j),
                ),
            forall|j: int|
                0 <= j < n ==> #[trigger] suf_high@[j] == highest_high(
                    s,
                    j,
                    block_end(per, n as int, j),
                ),
            out@.len() == (if period <= i {
                i - period + 1
            } else {
                0
            }),
            forall|k: int| 0 <= k < out@.len() ==> #[trigger] stoch_den(s, per, k) != 0,
            forall|k: int|
                0 <= k < out@.len() ==> (#[trigger] out@[k]).num == stoch_num(s, per, k)
                    && out@[k].den == stoch_den(s, per, k),
        decreases n - i,
    {
        if i - cbs == period {
            proof {
                assert((cb + 1) * per == cb * per + per) by (nonlinear_arith);
                cb = cb + 1;
            }
            cbs = i;
        }
        let smp: OhlcSample = samples[i];
        if i == cbs {
            runl = smp.low;
            runh = smp.high;
        } else {
            if smp.low < runl {
                runl = smp.low;
            }
            if smp.high > runh {
                runh = smp.high;
            }
        }
        // runl and runh now cover the block prefix up to and including i.
        if i + 1 >= period {
            let lo: usize = i + 1 - period;
            let ghost k: int = lo as int;
            let wl: i64;
            let wh: i64;
            if lo == cbs {
                wl = runl;
                wh = runh;
            } else {
                proof {
                    assert(lo < cbs);
                    assert(1 <= cb) by (nonlinear_arith)
                        requires
                            cbs == cb * per,
                            1 <= cbs,
                            1 <= per,
                            0 <= cb,
                    ;
                    assert((cb - 1) * per == cb * per - per) by (nonlinear_arith);
                    lemma_in_block(per, cb - 1, k);
                    assert(block_end(per, n as int, k) == cbs as int);
                    lemma_extremes_split(s, k, cbs as int, i + 1);
                }
                let sl: i64 = suf_low[lo];
                let sh: i64 = suf_high[lo];
                wl = if sl < runl {
                    sl
                } else {
                    runl
                };
                wh = if sh > runh {
                    sh
                } else {
                    runh
                };
            }
            proof {
                assert(wl as int == lowest_low(s, k, k + per));
                assert(wh as int == highest_high(s, k, k + per));
            }
            let den: i128 = wh as i128 - wl as i128;
            if den == 0 {
                return Err(IndicatorError::DegenerateWindow { index: lo });
            }
            let num: i128 = (smp.close as i128 - wl as i128) * 100;
            out.push(Ratio { num, den });
        }
        i = i + 1;
    }
    Ok(out)
}

} // verus!
