use vstd::prelude::*;
use vstd::arithmetic::div_mod::{
    lemma_div_is_ordered, lemma_div_multiples_vanish, lemma_div_pos_is_pos,
};
use crate::candle::{Candle, candles_wf, MAX_LEN, MAX_PRICE};

verus! {

// ---------------------------------------------------------------------------
// Pivot detection
// ---------------------------------------------------------------------------

/// Bar `i` is a confirmed pivot high: it lies at least `lookback` bars away
/// from both series edges and its high strictly dominates every high in the
/// window of `lookback` bars on each side. A tie on either side disqualifies
/// the candidate.
pub open spec fn is_pivot_high(s: Seq<Candle>, lookback: int, i: int) -> bool {
    &&& lookback <= i
    &&& i + lookback < s.len()
    &&& forall|j: int| i - lookback <= j < i ==> #[trigger] s[j].high < s[i].high
    &&& forall|j: int| i < j <= i + lookback ==> #[trigger] s[j].high < s[i].high
}

/// Mirror image of `is_pivot_high` on the lows.
pub open spec fn is_pivot_low(s: Seq<Candle>, lookback: int, i: int) -> bool {
    &&& lookback <= i
    &&& i + lookback < s.len()
    &&& forall|j: int| i - lookback <= j < i ==> #[trigger] s[j].low > s[i].low
    &&& forall|j: int| i < j <= i + lookback ==> #[trigger] s[j].low > s[i].low
}

/// Law: a bar of equal high immediately after a candidate pivot high
/// disqualifies it (ties break against the later bar).
pub proof fn lemma_pivot_high_forward_tie(s: Seq<Candle>, lookback: int, i: int)
    requires
        1 <= lookback,
        0 <= i,
        i + 1 < s.len(),
        s[i + 1].high == s[i].high,
    ensures
        !is_pivot_high(s, lookback, i),
{
    if is_pivot_high(s, lookback, i) {
        assert(s[i + 1].high < s[i].high);
    }
}

/// Law: a bar of equal high immediately before a candidate pivot high
/// disqualifies it as well.
pub proof fn lemma_pivot_high_backward_tie(s: Seq<Candle>, lookback: int, i: int)
    requires
        1 <= lookback,
        1 <= i,
        i < s.len(),
        s[i - 1].high == s[i].high,
    ensures
        !is_pivot_high(s, lookback, i),
{
    if is_pivot_high(s, lookback, i) {
        assert(s[i - 1].high < s[i].high);
    }
}

/// Law: a bar of equal low immediately after a candidate pivot low
/// disqualifies it.
pub proof fn lemma_pivot_low_forward_tie(s: Seq<Candle>, lookback: int, i: int)
    requires
        1 <= lookback,
        0 <= i,
        i + 1 < s.len(),
        s[i + 1].low == s[i].low,
    ensures
        !is_pivot_low(s, lookback, i),
{
    if is_pivot_low(s, lookback, i) {
        assert(s[i + 1].low > s[i].low);
    }
}

/// Law: a bar of equal low immediately before a candidate pivot low
/// disqualifies it as well.
pub proof fn lemma_pivot_low_backward_tie(s: Seq<Candle>, lookback: int, i: int)
    requires
        1 <= lookback,
        1 <= i,
        i < s.len(),
        s[i - 1].low == s[i].low,
    ensures
        !is_pivot_low(s, lookback, i),
{
    if is_pivot_low(s, lookback, i) {
        assert(s[i - 1].low > s[i].low);
    }
}

/// Decides whether bar `i` is a confirmed pivot high.
pub fn find_pivot_high(candles: &Vec<Candle>, i: usize, lookback: usize) -> (r: bool)
    requires
        i < candles@.len(),
        candles@.len() <= MAX_LEN,
        lookback <= MAX_LEN,
    ensures
        r == is_pivot_high(candles@, lookback as int, i as int),
{
    let n = candles.len();
    if i < lookback || i + lookback >= n {
        return false;
    }
    let hi = candles[i].high;
    let mut j: usize = i - lookback;
    while j < i
        invariant
            i - lookback <= j <= i,
            lookback <= i,
            i + lookback < n == candles@.len(),
            hi == candles@[i as int].high,
            forall|m: int| i - lookback <= m < j ==> #[trigger] candles@[m].high < hi,
        decreases i - j,
    {
        if candles[j].high >= hi {
            return false;
        }
        j = j + 1;
    }
    let mut j: usize = i + 1;
    while j <= i + lookback
        invariant
            i + 1 <= j <= i + lookback + 1,
            lookback <= i,
            i + lookback < n == candles@.len(),
            hi == candles@[i as int].high,
            forall|m: int| i - lookback <= m < i ==> #[trigger] candles@[m].high < hi,
            forall|m: int| i < m < j ==> #[trigger] candles@[m].high < hi,
        decreases i + lookback + 1 - j,
    {
        if candles[j].high >= hi {
            return false;
        }
        j = j + 1;
    }
    true
}

/// Decides whether bar `i` is a confirmed pivot low.
pub fn find_pivot_low(candles: &Vec<Candle>, i: usize, lookback: usize) -> (r: bool)
    requires
        i < candles@.len(),
        candles@.len() <= MAX_LEN,
        lookback <= MAX_LEN,
    ensures
        r == is_pivot_low(candles@, lookback as int, i as int),
{
    let n = candles.len();
    if i < lookback || i + lookback >= n {
        return false;
    }
    let lo = candles[i].low;
    let mut j: usize = i - lookback;
    while j < i
        invariant
            i - lookback <= j <= i,
            lookback <= i,
            i + lookback < n == candles@.len(),
            lo == candles@[i as int].low,
            forall|m: int| i - lookback <= m < j ==> #[trigger] candles@[m].low > lo,
        decreases i - j,
    {
        if candles[j].low <= lo {
            return false;
        }
        j = j + 1;
    }
    let mut j: usize = i + 1;
    while j <= i + lookback
        invariant
            i + 1 <= j <= i + lookback + 1,
            lookback <= i,
            i + lookback < n == candles@.len(),
            lo == candles@[i as int].low,
            forall|m: int| i - lookback <= m < i ==> #[trigger] candles@[m].low > lo,
            forall|m: int| i < m < j ==> #[trigger] candles@[m].low > lo,
        decreases i + lookback + 1 - j,
    {
        if candles[j].low <= lo {
            return false;
        }
        j = j + 1;
    }
    true
}

// ---------------------------------------------------------------------------
// Pivot collection and the dynamic centerline
// ---------------------------------------------------------------------------

/// Highs of all confirmed pivot highs among bars `0..n`, in chronological
/// order.
pub open spec fn pivot_highs(s: Seq<Candle>, lookback: int, n: int) -> Seq<u64>
    decreases n,
{
    if n <= 0 {
        Seq::empty()
    } else {
        let rest = pivot_highs(s, lookback, n - 1);
        if is_pivot_high(s, lookback, n - 1) {
            rest.push(s[n - 1].high)
        } else {
            rest
        }
    }
}

/// Lows of all confirmed pivot lows among bars `0..n`, in chronological order.
pub open spec fn pivot_lows(s: Seq<Candle>, lookback: int, n: int) -> Seq<u64>
    decreases n,
{
    if n <= 0 {
        Seq::empty()
    } else {
        let rest = pivot_lows(s, lookback, n - 1);
        if is_pivot_low(s, lookback, n - 1) {
            rest.push(s[n - 1].low)
        } else {
            rest
        }
    }
}

/// The suffix of the most recent `k` entries (all of them if fewer exist).
pub open spec fn last_k(q: Seq<u64>, k: int) -> Seq<u64> {
    if q.len() <= k {
        q
    } else {
        q.skip(q.len() - k)
    }
}

/// Sum of a sequence of fixed-point values.
pub open spec fn seq_sum(q: Seq<u64>) -> int
    decreases q.len(),
{
    if q.len() == 0 {
        0
    } else {
        seq_sum(q.drop_last()) + q.last()
    }
}

/// Average (rounded down) of the most recent `k` entries.
pub open spec fn avg_last(q: Seq<u64>, k: int) -> int {
    seq_sum(last_k(q, k)) / last_k(q, k).len() as int
}

/// The pivot-based centerline, if any pivot was confirmed: the midpoint of
/// the average recent pivot high and the average recent pivot low, or
/// whichever of the two averages exists alone.
pub open spec fn spec_pivot_center(s: Seq<Candle>, lookback: int, max_pivots: int) -> Option<int> {
    let hs = pivot_highs(s, lookback, s.len() as int);
    let ls = pivot_lows(s, lookback, s.len() as int);
    if hs.len() > 0 && ls.len() > 0 {
        Some((avg_last(hs, max_pivots) + avg_last(ls, max_pivots)) / 2)
    } else if hs.len() > 0 {
        Some(avg_last(hs, max_pivots))
    } else if ls.len() > 0 {
        Some(avg_last(ls, max_pivots))
    } else {
        None
    }
}

/// The reference level the band engine centers on: the pivot centerline
/// blended half-and-half with the latest bar's HL2 midpoint when a pivot
/// center exists, else the plain HL2 midpoint.
pub open spec fn spec_dynamic_center(s: Seq<Candle>, lookback: int, max_pivots: int) -> int {
    match spec_pivot_center(s, lookback, max_pivots) {
        Some(pc) => (pc + s.last().spec_hl2()) / 2,
        None => s.last().spec_hl2(),
    }
}

/// The centerline on its own: the pivot centerline when one exists, else the
/// typical price `(high + low + close) / 3` of the last bar.
pub open spec fn spec_centerline(s: Seq<Candle>, lookback: int, max_pivots: int) -> int {
    match spec_pivot_center(s, lookback, max_pivots) {
        Some(pc) => pc,
        None => s.last().spec_typical(),
    }
}

/// All entries of a pivot-price sequence are prices of well-formed candles,
/// hence bounded by the cap.
pub proof fn lemma_pivot_highs_in_range(s: Seq<Candle>, lookback: int, n: int)
    requires
        candles_wf(s),
        0 <= n <= s.len(),
    ensures
        pivot_highs(s, lookback, n).len() <= n,
        forall|j: int|
            0 <= j < pivot_highs(s, lookback, n).len() ==> #[trigger] pivot_highs(
                s,
                lookback,
                n,
            )[j] <= MAX_PRICE,
    decreases n,
{
    if n > 0 {
        lemma_pivot_highs_in_range(s, lookback, n - 1);
        assert(s[n - 1].wf());
        let rest = pivot_highs(s, lookback, n - 1);
        let cur = pivot_highs(s, lookback, n);
        assert forall|j: int| 0 <= j < cur.len() implies cur[j] <= MAX_PRICE by {
            if is_pivot_high(s, lookback, n - 1) {
                assert(cur == rest.push(s[n - 1].high));
                if j < rest.len() {
                    assert(cur[j] == rest[j]);
                } else {
                    assert(cur[j] == s[n - 1].high);
                }
            } else {
                assert(cur == rest);
            }
        }
    }
}

/// Mirror of `lemma_pivot_highs_in_range` for pivot lows.
pub proof fn lemma_pivot_lows_in_range(s: Seq<Candle>, lookback: int, n: int)
    requires
        candles_wf(s),
        0 <= n <= s.len(),
    ensures
        pivot_lows(s, lookback, n).len() <= n,
        forall|j: int|
            0 <= j < pivot_lows(s, lookback, n).len() ==> #[trigger] pivot_lows(
                s,
                lookback,
                n,
            )[j] <= MAX_PRICE,
    decreases n,
{
    if n > 0 {
        lemma_pivot_lows_in_range(s, lookback, n - 1);
        assert(s[n - 1].wf());
        let rest = pivot_lows(s, lookback, n - 1);
        let cur = pivot_lows(s, lookback, n);
        assert forall|j: int| 0 <= j < cur.len() implies cur[j] <= MAX_PRICE by {
            if is_pivot_low(s, lookback, n - 1) {
                assert(cur == rest.push(s[n - 1].low));
                if j < rest.len() {
                    assert(cur[j] == rest[j]);
                } else {
                    assert(cur[j] == s[n - 1].low);
                }
            } else {
                assert(cur == rest);
            }
        }
    }
}

/// A sum of bounded entries is bounded by count times the cap.
pub proof fn lemma_seq_sum_in_range(q: Seq<u64>)
    requires
        forall|j: int| 0 <= j < q.len() ==> #[trigger] q[j] <= MAX_PRICE,
    ensures
        0 <= seq_sum(q) <= q.len() * MAX_PRICE,
    decreases q.len(),
{
    if q.len() > 0 {
        assert(q.last() <= MAX_PRICE);
        assert(forall|j: int|
            0 <= j < q.drop_last().len() ==> #[trigger] q.drop_last()[j] <= MAX_PRICE);
        lemma_seq_sum_in_range(q.drop_last());
    }
}

/// The average of the most recent `k` bounded entries is itself bounded.
pub proof fn lemma_avg_last_in_range(q: Seq<u64>, k: int)
    requires
        q.len() > 0,
        1 <= k,
        forall|j: int| 0 <= j < q.len() ==> #[trigger] q[j] <= MAX_PRICE,
    ensures
        0 <= avg_last(q, k) <= MAX_PRICE,
{
    let t = last_k(q, k);
    assert(forall|j: int| 0 <= j < t.len() ==> #[trigger] t[j] <= MAX_PRICE);
    lemma_seq_sum_in_range(t);
    let len = t.len() as int;
    assert(len >= 1);
    lemma_div_pos_is_pos(seq_sum(t), len);
    lemma_div_is_ordered(seq_sum(t), len * MAX_PRICE, len);
    lemma_div_multiples_vanish(MAX_PRICE as int, len);
}

/// Collects the highs of all confirmed pivot highs, oldest first.
pub fn pivot_high_prices(candles: &Vec<Candle>, lookback: usize) -> (r: Vec<u64>)
    requires
        candles@.len() <= MAX_LEN,
        lookback <= MAX_LEN,
    ensures
        r@ == pivot_highs(candles@, lookback as int, candles@.len() as int),
{
    let n = candles.len();
    let mut r: Vec<u64> = Vec::new();
    let mut i: usize = 0;
    while i < n
        invariant
            i <= n == candles@.len() <= MAX_LEN,
            lookback <= MAX_LEN,
            r@ == pivot_highs(candles@, lookback as int, i as int),
        decreases n - i,
    {
        if find_pivot_high(candles, i, lookback) {
            r.push(candles[i].high);
        }
        i = i + 1;
    }
    r
}

/// Collects the lows of all confirmed pivot lows, oldest first.
pub fn pivot_low_prices(candles: &Vec<Candle>, lookback: usize) -> (r: Vec<u64>)
    requires
        candles@.len() <= MAX_LEN,
        lookback <= MAX_LEN,
    ensures
        r@ == pivot_lows(candles@, lookback as int, candles@.len() as int),
{
    let n = candles.len();
    let mut r: Vec<u64> = Vec::new();
    let mut i: usize = 0;
    while i < n
        invariant
            i <= n == candles@.len() <= MAX_LEN,
            lookback <= MAX_LEN,
            r@ == pivot_lows(candles@, lookback as int, i as int),
        decreases n - i,
    {
        if find_pivot_low(candles, i, lookback) {
            r.push(candles[i].low);
        }
        i = i + 1;
    }
    r
}

/// Average of the most recent `max_pivots` entries of a nonempty price list.
fn average_recent(prices: &Vec<u64>, max_pivots: usize) -> (r: u64)
    requires
        1 <= prices@.len() <= MAX_LEN,
        1 <= max_pivots,
        forall|j: int| 0 <= j < prices@.len() ==> #[trigger] prices@[j] <= MAX_PRICE,
    ensures
        r == avg_last(prices@, max_pivots as int),
        r <= MAX_PRICE,
{
    let n = prices.len();
    let count = if n <= max_pivots {
        n
    } else {
        max_pivots
    };
    let start = n - count;
    let ghost t = last_k(prices@, max_pivots as int);
    proof {
        assert(t =~= prices@.subrange(start as int, n as int));
    }
    let mut total: u64 = 0;
    let mut i: usize = start;
    while i < n
        invariant
            start <= i <= n == prices@.len() <= MAX_LEN,
            forall|j: int| 0 <= j < prices@.len() ==> #[trigger] prices@[j] <= MAX_PRICE,
            total == seq_sum(prices@.subrange(start as int, i as int)),
            total <= (i - start) * MAX_PRICE,
        decreases n - i,
    {
        proof {
            let pre = prices@.subrange(start as int, i as int);
            let post = prices@.subrange(start as int, i + 1);
            assert(post.drop_last() =~= pre);
            assert(post.last() == prices@[i as int]);
        }
        total = total + prices[i];
        i = i + 1;
    }
    proof {
        assert(prices@.subrange(start as int, n as int) =~= t);
        lemma_seq_sum_in_range(t);
        lemma_div_pos_is_pos(seq_sum(t), count as int);
        lemma_div_is_ordered(seq_sum(t), count as int * MAX_PRICE, count as int);
        lemma_div_multiples_vanish(MAX_PRICE as int, count as int);
    }
    total / (count as u64)
}

/// The pivot-based centerline, if at least one pivot was confirmed.
pub fn pivot_center(candles: &Vec<Candle>, lookback: usize, max_pivots: usize) -> (r: Option<u64>)
    requires
        candles_wf(candles@),
        candles@.len() <= MAX_LEN,
        lookback <= MAX_LEN,
        1 <= max_pivots,
    ensures
        r is Some <==> spec_pivot_center(candles@, lookback as int, max_pivots as int) is Some,
        r is Some ==> r.unwrap() as int == spec_pivot_center(
            candles@,
            lookback as int,
            max_pivots as int,
        ).unwrap(),
        r is Some ==> r.unwrap() <= MAX_PRICE,
{
    let highs = pivot_high_prices(candles, lookback);
    let lows = pivot_low_prices(candles, lookback);
    proof {
        lemma_pivot_highs_in_range(candles@, lookback as int, candles@.len() as int);
        lemma_pivot_lows_in_range(candles@, lookback as int, candles@.len() as int);
    }
    if highs.len() > 0 && lows.len() > 0 {
        let ah = average_recent(&highs, max_pivots);
        let al = average_recent(&lows, max_pivots);
        Some((ah + al) / 2)
    } else if highs.len() > 0 {
        Some(average_recent(&highs, max_pivots))
    } else if lows.len() > 0 {
        Some(average_recent(&lows, max_pivots))
    } else {
        None
    }
}

/// The reference level the band engine centers on; see `spec_dynamic_center`.
pub fn dynamic_center(candles: &Vec<Candle>, lookback: usize, max_pivots: usize) -> (r: u64)
    requires
        candles_wf(candles@),
        1 <= candles@.len() <= MAX_LEN,
        lookback <= MAX_LEN,
        1 <= max_pivots,
    ensures
        r == spec_dynamic_center(candles@, lookback as int, max_pivots as int),
        r <= MAX_PRICE,
{
    let n = candles.len();
    let last = candles[n - 1];
    proof {
        assert(candles@[n - 1].wf());
        assert(candles@.last() == candles@[n - 1]);
    }
    let hl2 = (last.high + last.low) / 2;
    match pivot_center(candles, lookback, max_pivots) {
        Some(pc) => (pc + hl2) / 2,
        None => hl2,
    }
}

/// The centerline on its own; see `spec_centerline`.
pub fn centerline(candles: &Vec<Candle>, lookback: usize, max_pivots: usize) -> (r: u64)
    requires
        candles_wf(candles@),
        1 <= candles@.len() <= MAX_LEN,
        lookback <= MAX_LEN,
        1 <= max_pivots,
    ensures
        r == spec_centerline(candles@, lookback as int, max_pivots as int),
        r <= MAX_PRICE,
{
    let n = candles.len();
    let last = candles[n - 1];
    proof {
        assert(candles@[n - 1].wf());
        assert(candles@.last() == candles@[n - 1]);
    }
    match pivot_center(candles, lookback, max_pivots) {
        Some(pc) => pc,
        None => (last.high + last.low + last.close) / 3,
    }
}

} // verus!
