use vstd::prelude::*;
use vstd::arithmetic::div_mod::{
    lemma_div_is_ordered, lemma_div_multiples_vanish, lemma_div_multiples_vanish_fancy,
    lemma_div_pos_is_pos,
};
use crate::candle::{Candle, candles_wf, MAX_LEN, MAX_PRICE};

verus! {

// ---------------------------------------------------------------------------
// True range and Wilder-smoothed ATR
// ---------------------------------------------------------------------------

/// `max(high - low, |high - prev_close|, |low - prev_close|)`.
pub open spec fn spec_true_range(c: Candle, prev_close: int) -> int {
    vstd::math::max3(
        c.high - c.low,
        vstd::math::abs(c.high - prev_close) as int,
        vstd::math::abs(c.low - prev_close) as int,
    )
}

/// True range of bar `i` against the close of bar `i - 1`; meaningful for `i >= 1`.
pub open spec fn tr_at(s: Seq<Candle>, i: int) -> int {
    spec_true_range(s[i], s[i - 1].close as int)
}

/// Sum of the true ranges of bars `1..=n`.
pub open spec fn tr_sum(s: Seq<Candle>, n: int) -> int
    decreases n,
{
    if n <= 0 {
        0
    } else {
        tr_sum(s, n - 1) + tr_at(s, n)
    }
}

/// One step of Wilder smoothing: `(prev * (period - 1) + tr) / period`.
pub open spec fn wilder_step(prev: int, tr: int, period: int) -> int {
    (prev * (period - 1) + tr) / period
}

/// The ATR series value at index `i`:
/// - index 0 is seeded as `high - low` of the first bar (no prior close exists);
/// - indices `1..period` are undefined placeholders held at 0;
/// - index `period` is the simple mean of the true ranges of bars `1..=period`;
/// - later indices follow the Wilder recursion.
pub open spec fn spec_atr(s: Seq<Candle>, period: int, i: int) -> int
    decreases i,
{
    if i <= 0 {
        s[0].high - s[0].low
    } else if i < period {
        0
    } else if i == period {
        tr_sum(s, period) / period
    } else {
        wilder_step(spec_atr(s, period, i - 1), tr_at(s, i), period)
    }
}

/// The true range is never negative, and for well-formed candles it stays
/// below the fixed-point cap.
pub proof fn lemma_tr_in_range(s: Seq<Candle>, i: int)
    requires
        candles_wf(s),
        1 <= i < s.len(),
    ensures
        0 <= tr_at(s, i) <= MAX_PRICE,
{
    assert(s[i].wf());
    assert(s[i - 1].wf());
}

/// Bound on a prefix sum of true ranges.
pub proof fn lemma_tr_sum_in_range(s: Seq<Candle>, n: int)
    requires
        candles_wf(s),
        0 <= n < s.len(),
    ensures
        0 <= tr_sum(s, n) <= n * MAX_PRICE,
    decreases n,
{
    if n > 0 {
        lemma_tr_sum_in_range(s, n - 1);
        lemma_tr_in_range(s, n);
    }
}

/// Every ATR value lies between 0 and the fixed-point cap for a well-formed
/// series.
pub proof fn lemma_atr_in_range(s: Seq<Candle>, period: int, i: int)
    requires
        candles_wf(s),
        1 <= period,
        0 <= i < s.len(),
    ensures
        0 <= spec_atr(s, period, i) <= MAX_PRICE,
    decreases i,
{
    if i <= 0 {
        assert(s[0].wf());
    } else if i < period {
    } else if i == period {
        lemma_tr_sum_in_range(s, period);
        lemma_div_pos_is_pos(tr_sum(s, period), period);
        lemma_div_is_ordered(tr_sum(s, period), period * MAX_PRICE, period);
        lemma_div_multiples_vanish(MAX_PRICE as int, period);
    } else {
        lemma_atr_in_range(s, period, i - 1);
        lemma_tr_in_range(s, i);
        let prev = spec_atr(s, period, i - 1);
        let tr = tr_at(s, i);
        let num = prev * (period - 1) + tr;
        assert(prev * (period - 1) + tr <= period * MAX_PRICE) by (nonlinear_arith)
            requires
                0 <= prev <= MAX_PRICE,
                0 <= tr <= MAX_PRICE,
                1 <= period,
        ;
        lemma_div_pos_is_pos(num, period);
        lemma_div_is_ordered(num, period * MAX_PRICE, period);
        lemma_div_multiples_vanish(MAX_PRICE as int, period);
    }
}

/// Law: one step of Wilder smoothing moves the value toward the incoming true
/// range and never overshoots it; with a constant true range thereafter, the
/// ATR therefore converges to that constant monotonically.
pub proof fn lemma_wilder_step_converges(prev: int, tr: int, period: int)
    requires
        1 <= period,
        0 <= prev,
        0 <= tr,
    ensures
        prev == tr ==> wilder_step(prev, tr, period) == tr,
        prev > tr ==> tr <= wilder_step(prev, tr, period) < prev,
        prev < tr ==> prev <= wilder_step(prev, tr, period) <= tr,
{
    let num = prev * (period - 1) + tr;
    if prev == tr {
        assert(prev * (period - 1) + tr == period * tr) by (nonlinear_arith)
            requires
                prev == tr,
        ;
        lemma_div_multiples_vanish(tr, period);
    } else if prev > tr {
        assert(prev * (period - 1) + tr >= period * tr) by (nonlinear_arith)
            requires
                1 <= period,
                tr <= prev,
        ;
        lemma_div_is_ordered(period * tr, num, period);
        lemma_div_multiples_vanish(tr, period);
        assert(prev * (period - 1) + tr <= period * (prev - 1) + (period - 1)) by (nonlinear_arith)
            requires
                1 <= period,
                tr <= prev - 1,
        ;
        lemma_div_is_ordered(num, period * (prev - 1) + (period - 1), period);
        lemma_div_multiples_vanish_fancy(prev - 1, period - 1, period);
    } else {
        assert(prev * (period - 1) + tr >= period * prev) by (nonlinear_arith)
            requires
                1 <= period,
                prev <= tr,
        ;
        lemma_div_is_ordered(period * prev, num, period);
        lemma_div_multiples_vanish(prev, period);
        assert(prev * (period - 1) + tr <= period * tr) by (nonlinear_arith)
            requires
                1 <= period,
                prev <= tr,
        ;
        lemma_div_is_ordered(num, period * tr, period);
        lemma_div_multiples_vanish(tr, period);
    }
}

/// Law: past the seed, each ATR value lies between the previous ATR value and
/// the current true range, strictly closer whenever they differ. Instantiated
/// bar after bar with a constant true range `c`, this is exactly monotone
/// convergence of the ATR toward `c`.
pub proof fn lemma_atr_step_converges(s: Seq<Candle>, period: int, i: int)
    requires
        candles_wf(s),
        1 <= period,
        period <= i,
        i + 1 < s.len(),
    ensures
        spec_atr(s, period, i) == tr_at(s, i + 1) ==> spec_atr(s, period, i + 1) == tr_at(s, i + 1),
        spec_atr(s, period, i) > tr_at(s, i + 1) ==> tr_at(s, i + 1) <= spec_atr(s, period, i + 1)
            < spec_atr(s, period, i),
        spec_atr(s, period, i) < tr_at(s, i + 1) ==> spec_atr(s, period, i) <= spec_atr(
            s,
            period,
            i + 1,
        ) <= tr_at(s, i + 1),
{
    lemma_atr_in_range(s, period, i);
    lemma_tr_in_range(s, i + 1);
    lemma_wilder_step_converges(spec_atr(s, period, i), tr_at(s, i + 1), period);
}

/// Law: over a run of bars whose true range is a constant `c`, the ATR stays
/// between its value at the start of the run and `c`, and while it still
/// differs from `c` it moves strictly closer on every bar: monotone
/// convergence of Wilder smoothing toward a constant input.
pub proof fn lemma_atr_constant_tr_convergence(s: Seq<Candle>, period: int, i: int, c: int)
    requires
        candles_wf(s),
        1 <= period,
        period <= i < s.len(),
        forall|j: int| period < j <= i ==> #[trigger] tr_at(s, j) == c,
        0 <= c,
    ensures
        spec_atr(s, period, period) >= c ==> c <= spec_atr(s, period, i) <= spec_atr(
            s,
            period,
            period,
        ),
        spec_atr(s, period, period) <= c ==> spec_atr(s, period, period) <= spec_atr(s, period, i)
            <= c,
        i > period && spec_atr(s, period, i - 1) > c ==> spec_atr(s, period, i) < spec_atr(
            s,
            period,
            i - 1,
        ),
    decreases i,
{
    if i > period {
        lemma_atr_constant_tr_convergence(s, period, i - 1, c);
        lemma_atr_in_range(s, period, i - 1);
        assert(tr_at(s, i) == c);
        lemma_wilder_step_converges(spec_atr(s, period, i - 1), c, period);
    }
}

/// True range of one candle against the previous close.
pub fn true_range(c: &Candle, prev_close: u64) -> (r: u64)
    requires
        c.wf(),
        prev_close <= MAX_PRICE,
    ensures
        r == spec_true_range(*c, prev_close as int),
        r <= MAX_PRICE,
{
    let hl = c.high - c.low;
    let hc = if c.high >= prev_close {
        c.high - prev_close
    } else {
        prev_close - c.high
    };
    let lc = if c.low >= prev_close {
        c.low - prev_close
    } else {
        prev_close - c.low
    };
    let mut m = hl;
    if hc > m {
        m = hc;
    }
    if lc > m {
        m = lc;
    }
    m
}

/// Dense ATR series aligned with the candle series. If fewer than
/// `period + 1` candles exist the ATR is undefined and the result is empty.
pub fn atr_series(candles: &Vec<Candle>, period: usize) -> (r: Vec<u64>)
    requires
        candles_wf(candles@),
        candles@.len() <= MAX_LEN,
        1 <= period,
    ensures
        candles@.len() <= period ==> r@.len() == 0,
        candles@.len() > period ==> r@.len() == candles@.len(),
        candles@.len() > period ==> forall|i: int|
            0 <= i < r@.len() ==> #[trigger] r@[i] == spec_atr(candles@, period as int, i),
{
    let ghost s = candles@;
    let n = candles.len();
    let mut r: Vec<u64> = Vec::new();
    if n <= period {
        return r;
    }
    let mut tr_total: u64 = 0;
    let mut i: usize = 1;
    while i <= period
        invariant
            1 <= i <= period + 1,
            period < n == s.len() <= MAX_LEN,
            candles_wf(s),
            s == candles@,
            tr_total == tr_sum(s, i - 1),
            tr_total <= (i - 1) * MAX_PRICE,
        decreases period + 1 - i,
    {
        proof {
            assert(s[i - 1].wf());
        }
        let t = true_range(&candles[i], candles[i - 1].close);
        tr_total = tr_total + t;
        i = i + 1;
    }
    proof {
        assert(s[0].wf());
    }
    r.push(candles[0].high - candles[0].low);
    let mut j: usize = 1;
    while j < period
        invariant
            1 <= j <= period,
            period < n == s.len() <= MAX_LEN,
            candles_wf(s),
            s == candles@,
            r@.len() == j,
            forall|m: int| 0 <= m < j ==> #[trigger] r@[m] == spec_atr(s, period as int, m),
        decreases period - j,
    {
        r.push(0);
        j = j + 1;
    }
    let seed = tr_total / (period as u64);
    proof {
        lemma_tr_sum_in_range(s, period as int);
        lemma_div_pos_is_pos(tr_sum(s, period as int), period as int);
        lemma_div_is_ordered(tr_sum(s, period as int), period as int * MAX_PRICE, period as int);
        lemma_div_multiples_vanish(MAX_PRICE as int, period as int);
    }
    r.push(seed);
    let mut k: usize = period + 1;
    while k < n
        invariant
            period + 1 <= k <= n,
            period < n == s.len() <= MAX_LEN,
            1 <= period,
            candles_wf(s),
            s == candles@,
            r@.len() == k,
            forall|m: int| 0 <= m < k ==> #[trigger] r@[m] == spec_atr(s, period as int, m),
        decreases n - k,
    {
        let prev = r[k - 1];
        proof {
            lemma_atr_in_range(s, period as int, k - 1);
            assert(s[k - 1].wf());
        }
        let t = true_range(&candles[k], candles[k - 1].close);
        proof {
            assert(prev * (period as u64 - 1) <= MAX_PRICE * MAX_LEN) by (nonlinear_arith)
                requires
                    prev <= MAX_PRICE,
                    0 < period <= MAX_LEN,
            ;
            let num = prev * (period as int - 1) + t;
            assert(prev * (period as int - 1) + t <= period as int * MAX_PRICE) by (nonlinear_arith)
                requires
                    0 <= prev <= MAX_PRICE,
                    0 <= t <= MAX_PRICE,
                    1 <= period as int,
            ;
            lemma_div_pos_is_pos(num, period as int);
            lemma_div_is_ordered(num, period as int * MAX_PRICE, period as int);
            lemma_div_multiples_vanish(MAX_PRICE as int, period as int);
        }
        let v = (prev * (period as u64 - 1) + t) / (period as u64);
        r.push(v);
        k = k + 1;
    }
    r
}

// ---------------------------------------------------------------------------
// Exponential moving average
// ---------------------------------------------------------------------------

/// Sum of the closes of bars `0..n`.
pub open spec fn close_sum(s: Seq<Candle>, n: int) -> int
    decreases n,
{
    if n <= 0 {
        0
    } else {
        close_sum(s, n - 1) + s[n - 1].close
    }
}

/// One EMA update with multiplier `2 / (period + 1)`, in fixed point:
/// the value moves from `prev` toward `close` by `|close - prev| * 2 / (period + 1)`.
pub open spec fn ema_step(prev: int, close: int, period: int) -> int {
    if close >= prev {
        prev + (close - prev) * 2 / (period + 1)
    } else {
        prev - (prev - close) * 2 / (period + 1)
    }
}

/// The EMA series value at index `i`: zero before the warm-up boundary, the
/// simple average of the first `period` closes at index `period - 1`, and the
/// EMA recursion afterwards.
pub open spec fn spec_ema(s: Seq<Candle>, period: int, i: int) -> int
    decreases i,
{
    if period <= 0 {
        0
    } else if i < period - 1 {
        0
    } else if i == period - 1 {
        close_sum(s, period) / period
    } else {
        ema_step(spec_ema(s, period, i - 1), s[i].close as int, period)
    }
}

/// Law: the EMA seed equals the simple average of the first `period` closes.
pub proof fn lemma_ema_seed(s: Seq<Candle>, period: int)
    requires
        1 <= period,
    ensures
        spec_ema(s, period, period - 1) == close_sum(s, period) / period,
{
}

/// An EMA step never overshoots: the result stays between the previous value
/// and the current close.
pub proof fn lemma_ema_step_in_range(prev: int, close: int, period: int)
    requires
        1 <= period,
        0 <= prev,
        0 <= close,
    ensures
        vstd::math::min(prev, close) <= ema_step(prev, close, period) <= vstd::math::max(
            prev,
            close,
        ),
{
    if close >= prev {
        let d = close - prev;
        lemma_div_pos_is_pos(d * 2, period + 1);
        assert(d * 2 <= (period + 1) * d) by (nonlinear_arith)
            requires
                1 <= period,
                0 <= d,
        ;
        lemma_div_is_ordered(d * 2, (period + 1) * d, period + 1);
        lemma_div_multiples_vanish(d, period + 1);
    } else {
        let d = prev - close;
        lemma_div_pos_is_pos(d * 2, period + 1);
        assert(d * 2 <= (period + 1) * d) by (nonlinear_arith)
            requires
                1 <= period,
                0 <= d,
        ;
        lemma_div_is_ordered(d * 2, (period + 1) * d, period + 1);
        lemma_div_multiples_vanish(d, period + 1);
    }
}

/// Law: whenever the close differs from the previous EMA by at least
/// `(period + 1) / 2` fixed-point units, the next EMA lies strictly between
/// the previous EMA and the close. (For smaller gaps the fixed-point step can
/// round to zero, and for `period == 1` the multiplier is 1, so the EMA lands
/// exactly on the close; those inputs are excluded.)
pub proof fn lemma_ema_step_strictly_between(prev: int, close: int, period: int)
    requires
        2 <= period,
        0 <= prev,
        0 <= close,
        2 * vstd::math::abs(close - prev) >= period + 1,
    ensures
        close > prev ==> prev < ema_step(prev, close, period) < close,
        close < prev ==> close < ema_step(prev, close, period) < prev,
{
    if close > prev {
        let d = close - prev;
        assert(d * 2 >= period + 1);
        lemma_div_is_ordered(period + 1, d * 2, period + 1);
        lemma_div_multiples_vanish(1, period + 1);
        assert((period + 1) * 1 == period + 1);
        assert(d * 2 <= (period + 1) * (d - 1) + period) by (nonlinear_arith)
            requires
                2 <= period,
                1 <= d,
        ;
        lemma_div_is_ordered(d * 2, (period + 1) * (d - 1) + period, period + 1);
        lemma_div_multiples_vanish_fancy(d - 1, period, period + 1);
    } else if close < prev {
        let d = prev - close;
        assert(d * 2 >= period + 1);
        lemma_div_is_ordered(period + 1, d * 2, period + 1);
        lemma_div_multiples_vanish(1, period + 1);
        assert((period + 1) * 1 == period + 1);
        assert(d * 2 <= (period + 1) * (d - 1) + period) by (nonlinear_arith)
            requires
                2 <= period,
                1 <= d,
        ;
        lemma_div_is_ordered(d * 2, (period + 1) * (d - 1) + period, period + 1);
        lemma_div_multiples_vanish_fancy(d - 1, period, period + 1);
    }
}

/// Bound on a prefix sum of closes.
pub proof fn lemma_close_sum_in_range(s: Seq<Candle>, n: int)
    requires
        candles_wf(s),
        0 <= n <= s.len(),
    ensures
        0 <= close_sum(s, n) <= n * MAX_PRICE,
    decreases n,
{
    if n > 0 {
        lemma_close_sum_in_range(s, n - 1);
        assert(s[n - 1].wf());
    }
}

/// Every EMA value lies between 0 and the fixed-point cap for a well-formed
/// series.
pub proof fn lemma_ema_in_range(s: Seq<Candle>, period: int, i: int)
    requires
        candles_wf(s),
        1 <= period,
        i < s.len(),
    ensures
        0 <= spec_ema(s, period, i) <= MAX_PRICE,
    decreases i,
{
    if i < period - 1 {
    } else if i == period - 1 {
        lemma_close_sum_in_range(s, period);
        lemma_div_pos_is_pos(close_sum(s, period), period);
        lemma_div_is_ordered(close_sum(s, period), period * MAX_PRICE, period);
        lemma_div_multiples_vanish(MAX_PRICE as int, period);
    } else {
        lemma_ema_in_range(s, period, i - 1);
        assert(s[i].wf());
        lemma_ema_step_in_range(spec_ema(s, period, i - 1), s[i].close as int, period);
    }
}

/// Dense EMA series aligned with the candle series. If fewer than `period`
/// candles exist, every entry is zero (the explicit "not computable" marker);
/// otherwise entries before the warm-up boundary are zero and the rest follow
/// the seed-then-recursion definition.
pub fn ema_series(candles: &Vec<Candle>, period: usize) -> (r: Vec<u64>)
    requires
        candles_wf(candles@),
        candles@.len() <= MAX_LEN,
        1 <= period <= MAX_LEN,
    ensures
        r@.len() == candles@.len(),
        forall|i: int| 0 <= i < r@.len() ==> #[trigger] r@[i] == spec_ema(candles@, period as int, i),
{
    let ghost s = candles@;
    let n = candles.len();
    let mut r: Vec<u64> = Vec::new();
    if n < period {
        let mut j: usize = 0;
        while j < n
            invariant
                j <= n < period,
                s == candles@,
                r@.len() == j,
                forall|m: int| 0 <= m < j ==> #[trigger] r@[m] == spec_ema(s, period as int, m),
            decreases n - j,
        {
            r.push(0);
            j = j + 1;
        }
        return r;
    }
    let mut j: usize = 0;
    while j + 1 < period
        invariant
            j < period <= n,
            s == candles@,
            r@.len() == j,
            forall|m: int| 0 <= m < j ==> #[trigger] r@[m] == spec_ema(s, period as int, m),
        decreases period - j,
    {
        r.push(0);
        j = j + 1;
    }
    let mut total: u64 = 0;
    let mut i: usize = 0;
    while i < period
        invariant
            i <= period <= n == s.len() <= MAX_LEN,
            candles_wf(s),
            s == candles@,
            total == close_sum(s, i as int),
            total <= i * MAX_PRICE,
        decreases period - i,
    {
        proof {
            assert(s[i as int].wf());
        }
        total = total + candles[i].close;
        i = i + 1;
    }
    let seed = total / (period as u64);
    proof {
        lemma_close_sum_in_range(s, period as int);
        lemma_div_pos_is_pos(close_sum(s, period as int), period as int);
        lemma_div_is_ordered(close_sum(s, period as int), period as int * MAX_PRICE, period as int);
        lemma_div_multiples_vanish(MAX_PRICE as int, period as int);
    }
    r.push(seed);
    let mut k: usize = period;
    while k < n
        invariant
            period <= k <= n,
            period <= n == s.len() <= MAX_LEN,
            1 <= period <= MAX_LEN,
            candles_wf(s),
            s == candles@,
            r@.len() == k,
            forall|m: int| 0 <= m < k ==> #[trigger] r@[m] == spec_ema(s, period as int, m),
        decreases n - k,
    {
        let prev = r[k - 1];
        let c = candles[k].close;
        proof {
            lemma_ema_in_range(s, period as int, k - 1);
            assert(s[k as int].wf());
            lemma_ema_step_in_range(prev as int, c as int, period as int);
        }
        let v = if c >= prev {
            prev + (c - prev) * 2 / (period as u64 + 1)
        } else {
            prev - (prev - c) * 2 / (period as u64 + 1)
        };
        r.push(v);
        k = k + 1;
    }
    r
}

} // verus!
