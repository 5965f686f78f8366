use vstd::prelude::*;
use vstd::arithmetic::div_mod::{
    lemma_div_is_ordered, lemma_div_multiples_vanish, lemma_div_pos_is_pos,
};
use crate::candle::{Candle, candles_wf, MAX_FACTOR, MAX_LEN, MAX_PRICE};

verus! {

// ---------------------------------------------------------------------------
// Volume confirmation
// ---------------------------------------------------------------------------

/// Sum of the volumes of bars `from..to`.
pub open spec fn vol_sum(s: Seq<Candle>, from: int, to: int) -> int
    decreases to - from,
{
    if from >= to {
        0
    } else {
        vol_sum(s, from, to - 1) + s[to - 1].volume
    }
}

/// The last bar's volume exceeds the mean volume of the trailing `period`
/// bars scaled by the threshold (in hundredths). False whenever fewer than
/// `period` bars exist.
pub open spec fn spec_volume_confirmed(s: Seq<Candle>, period: int, threshold_h: int) -> bool {
    if period <= 0 || s.len() < period {
        false
    } else {
        s.last().volume * 100 > (vol_sum(s, s.len() - period, s.len() as int) / period)
            * threshold_h
    }
}

/// Bound on a volume sum over a window.
pub proof fn lemma_vol_sum_in_range(s: Seq<Candle>, from: int, to: int)
    requires
        candles_wf(s),
        0 <= from <= to,
        to <= s.len(),
    ensures
        0 <= vol_sum(s, from, to) <= (to - from) * MAX_PRICE,
    decreases to - from,
{
    if from < to {
        lemma_vol_sum_in_range(s, from, to - 1);
        assert(s[to - 1].wf());
    }
}

/// Compares the current volume against the trailing average; see
/// `spec_volume_confirmed`.
pub fn volume_confirmed(candles: &Vec<Candle>, period: usize, threshold_h: u64) -> (r: bool)
    requires
        candles_wf(candles@),
        candles@.len() <= MAX_LEN,
        1 <= period,
        threshold_h <= MAX_FACTOR,
    ensures
        r == spec_volume_confirmed(candles@, period as int, threshold_h as int),
{
    let ghost s = candles@;
    let n = candles.len();
    if n < period {
        return false;
    }
    let start = n - period;
    let mut total: u64 = 0;
    let mut i: usize = start;
    while i < n
        invariant
            start <= i <= n == s.len() <= MAX_LEN,
            start == n - period,
            candles_wf(s),
            s == candles@,
            total == vol_sum(s, start as int, i as int),
            total <= (i - start) * MAX_PRICE,
        decreases n - i,
    {
        proof {
            assert(s[i as int].wf());
        }
        total = total + candles[i].volume;
        i = i + 1;
    }
    let mean = total / (period as u64);
    proof {
        lemma_vol_sum_in_range(s, start as int, n as int);
        lemma_div_pos_is_pos(vol_sum(s, start as int, n as int), period as int);
        lemma_div_is_ordered(
            vol_sum(s, start as int, n as int),
            period as int * MAX_PRICE,
            period as int,
        );
        lemma_div_multiples_vanish(MAX_PRICE as int, period as int);
        assert(mean * threshold_h <= 1_000_000_000_000_000_000) by (nonlinear_arith)
            requires
                0 <= mean <= MAX_PRICE,
                0 <= threshold_h <= MAX_FACTOR,
        ;
        assert(s[n - 1].wf());
        assert(s.last() == s[n - 1]);
    }
    let cur = candles[n - 1].volume;
    cur * 100 > mean * threshold_h
}

// ---------------------------------------------------------------------------
// Swing extremes
// ---------------------------------------------------------------------------

/// Greatest high among bars `from..to` (0 for an empty window).
pub open spec fn max_high(s: Seq<Candle>, from: int, to: int) -> int
    decreases to - from,
{
    if from >= to {
        0
    } else {
        vstd::math::max(max_high(s, from, to - 1), s[to - 1].high as int)
    }
}

/// Least low among bars `from..to` (0 for an empty window).
pub open spec fn min_low(s: Seq<Candle>, from: int, to: int) -> int
    decreases to - from,
{
    if from >= to {
        0
    } else if from == to - 1 {
        s[from].low as int
    } else {
        vstd::math::min(min_low(s, from, to - 1), s[to - 1].low as int)
    }
}

/// Highest high over the trailing `min(lookback, length)` bars; 0 when the
/// series or the window is empty.
pub open spec fn spec_highest_high(s: Seq<Candle>, lookback: int) -> int {
    if s.len() == 0 || lookback <= 0 {
        0
    } else {
        max_high(s, s.len() - vstd::math::min(lookback, s.len() as int), s.len() as int)
    }
}

/// Lowest low over the trailing `min(lookback, length)` bars; 0 when the
/// series or the window is empty.
pub open spec fn spec_lowest_low(s: Seq<Candle>, lookback: int) -> int {
    if s.len() == 0 || lookback <= 0 {
        0
    } else {
        min_low(s, s.len() - vstd::math::min(lookback, s.len() as int), s.len() as int)
    }
}

/// Highest high over the trailing window, for the short-side stop loss.
pub fn highest_high(candles: &Vec<Candle>, lookback: usize) -> (r: u64)
    requires
        candles_wf(candles@),
        candles@.len() <= MAX_LEN,
    ensures
        r as int == spec_highest_high(candles@, lookback as int),
        r <= MAX_PRICE,
{
    let ghost s = candles@;
    let n = candles.len();
    if n == 0 || lookback == 0 {
        return 0;
    }
    let w = if lookback < n {
        lookback
    } else {
        n
    };
    let start = n - w;
    let mut m: u64 = 0;
    let mut i: usize = start;
    while i < n
        invariant
            start <= i <= n == s.len() <= MAX_LEN,
            candles_wf(s),
            s == candles@,
            m == max_high(s, start as int, i as int),
            m <= MAX_PRICE,
        decreases n - i,
    {
        proof {
            assert(s[i as int].wf());
        }
        let h = candles[i].high;
        if h > m {
            m = h;
        }
        i = i + 1;
    }
    m
}

/// Lowest low over the trailing window, for the long-side stop loss.
pub fn lowest_low(candles: &Vec<Candle>, lookback: usize) -> (r: u64)
    requires
        candles_wf(candles@),
        candles@.len() <= MAX_LEN,
    ensures
        r as int == spec_lowest_low(candles@, lookback as int),
        r <= MAX_PRICE,
{
    let ghost s = candles@;
    let n = candles.len();
    if n == 0 || lookback == 0 {
        return 0;
    }
    let w = if lookback < n {
        lookback
    } else {
        n
    };
    let start = n - w;
    proof {
        assert(s[start as int].wf());
    }
    let mut m: u64 = candles[start].low;
    let mut i: usize = start + 1;
    while i < n
        invariant
            start + 1 <= i <= n == s.len() <= MAX_LEN,
            candles_wf(s),
            s == candles@,
            m == min_low(s, start as int, i as int),
            m <= MAX_PRICE,
        decreases n - i,
    {
        proof {
            assert(s[i as int].wf());
        }
        let l = candles[i].low;
        if l < m {
            m = l;
        }
        i = i + 1;
    }
    m
}

} // verus!
