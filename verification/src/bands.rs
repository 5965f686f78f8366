use vstd::prelude::*;
use vstd::arithmetic::div_mod::{lemma_div_is_ordered, lemma_div_pos_is_pos};
use crate::candle::{Candle, candles_wf, MAX_FACTOR, MAX_LEN, MAX_PRICE};

verus! {

/// Direction of the resolved trend regime.
#[derive(Clone, Copy, PartialEq, Eq, Structural, Debug)]
pub enum TrendDirection {
    Bullish,
    Bearish,
    Neutral,
}

/// Snapshot of the SuperTrend state for the most recent bar.
#[derive(Clone, Copy, PartialEq, Eq, Structural, Debug)]
pub struct SuperTrendResult {
    /// The active stop level: the ratcheted lower band in a bullish regime,
    /// the ratcheted upper band in a bearish one.
    pub supertrend: i64,
    /// Basic upper band of the current bar.
    pub upper_band: i64,
    /// Basic lower band of the current bar.
    pub lower_band: i64,
    /// Resolved regime for the current bar.
    pub trend: TrendDirection,
}

/// Band half-width: `multiplier * ATR`, with the multiplier in hundredths.
pub open spec fn spec_band_offset(atr: int, mult_h: int) -> int {
    mult_h * atr / 100
}

/// `center + multiplier * ATR`.
pub open spec fn spec_basic_upper(center: int, atr: int, mult_h: int) -> int {
    center + spec_band_offset(atr, mult_h)
}

/// `center - multiplier * ATR`.
pub open spec fn spec_basic_lower(center: int, atr: int, mult_h: int) -> int {
    center - spec_band_offset(atr, mult_h)
}

/// Trend-flip resolution. A close beyond a basic band starts a fresh regime
/// outright; otherwise the previous bar's regime continues or flips against
/// the band ratcheted toward the price (the lower band may only rise while
/// bullish, the upper band only fall while bearish).
pub open spec fn spec_trend_decision(
    close: int,
    prev_close: int,
    basic_upper: int,
    basic_lower: int,
    prev_upper: int,
    prev_lower: int,
) -> (TrendDirection, int) {
    if close > basic_upper {
        (TrendDirection::Bullish, basic_lower)
    } else if close < basic_lower {
        (TrendDirection::Bearish, basic_upper)
    } else if prev_close > prev_lower {
        let final_lower = vstd::math::max(basic_lower, prev_lower);
        if close > final_lower {
            (TrendDirection::Bullish, final_lower)
        } else {
            (TrendDirection::Bearish, basic_upper)
        }
    } else {
        let final_upper = vstd::math::min(basic_upper, prev_upper);
        if close < final_upper {
            (TrendDirection::Bearish, final_upper)
        } else {
            (TrendDirection::Bullish, basic_lower)
        }
    }
}

/// The full SuperTrend state of the last bar of a series: basic bands around
/// the supplied center from the last ATR value, continuation judged against
/// the previous bar's bands rebuilt from its own HL2 midpoint and ATR value.
///
/// Design choice, stated deliberately: only the last two bars' bands are
/// recomputed per call, instead of folding band state over the whole history.
/// After several consecutive sideways bars this can differ numerically from a
/// full-history fold; every contract here speaks of the two-bar form.
pub open spec fn spec_supertrend(s: Seq<Candle>, atr: Seq<u64>, center: int, mult_h: int) -> (
    TrendDirection,
    int,
) {
    let n = s.len() as int;
    let prev_center = s[n - 2].spec_hl2();
    spec_trend_decision(
        s[n - 1].close as int,
        s[n - 2].close as int,
        spec_basic_upper(center, atr[n - 1] as int, mult_h),
        spec_basic_lower(center, atr[n - 1] as int, mult_h),
        spec_basic_upper(prev_center, atr[n - 2] as int, mult_h),
        spec_basic_lower(prev_center, atr[n - 2] as int, mult_h),
    )
}

/// Law (bullish band ratchet): while the prior regime is bullish and the
/// close stays inside the basic bands, a continuation that remains bullish
/// places the supertrend at `max(basic_lower, prev_lower)`, which never lies
/// below the previous bar's lower band: the stop can only rise.
pub proof fn lemma_bullish_ratchet(
    close: int,
    prev_close: int,
    basic_upper: int,
    basic_lower: int,
    prev_upper: int,
    prev_lower: int,
)
    requires
        prev_close > prev_lower,
        basic_lower <= close <= basic_upper,
    ensures
        spec_trend_decision(close, prev_close, basic_upper, basic_lower, prev_upper, prev_lower).0
            == TrendDirection::Bullish ==> spec_trend_decision(
            close,
            prev_close,
            basic_upper,
            basic_lower,
            prev_upper,
            prev_lower,
        ).1 >= prev_lower,
{
}

/// Law (bearish band ratchet): the mirror image; while the prior regime is
/// bearish, a continuation that remains bearish places the supertrend at
/// `min(basic_upper, prev_upper)`, never above the previous bar's upper band:
/// the stop can only fall.
pub proof fn lemma_bearish_ratchet(
    close: int,
    prev_close: int,
    basic_upper: int,
    basic_lower: int,
    prev_upper: int,
    prev_lower: int,
)
    requires
        prev_close <= prev_lower,
        basic_lower <= close <= basic_upper,
    ensures
        spec_trend_decision(close, prev_close, basic_upper, basic_lower, prev_upper, prev_lower).0
            == TrendDirection::Bearish ==> spec_trend_decision(
            close,
            prev_close,
            basic_upper,
            basic_lower,
            prev_upper,
            prev_lower,
        ).1 <= prev_upper,
{
}

/// Bound on the band half-width for admissible multipliers and ATR values.
pub proof fn lemma_band_offset_in_range(atr: int, mult_h: int)
    requires
        0 <= atr <= MAX_PRICE,
        0 <= mult_h <= MAX_FACTOR,
    ensures
        0 <= spec_band_offset(atr, mult_h) <= 10_000_000_000_000_000,
{
    assert(mult_h * atr <= 1_000_000_000_000_000_000) by (nonlinear_arith)
        requires
            0 <= atr <= MAX_PRICE,
            0 <= mult_h <= MAX_FACTOR,
    ;
    assert(mult_h * atr >= 0) by (nonlinear_arith)
        requires
            0 <= atr,
            0 <= mult_h,
    ;
    lemma_div_pos_is_pos(mult_h * atr, 100);
    lemma_div_is_ordered(mult_h * atr, 1_000_000_000_000_000_000, 100);
}

/// Resolves the SuperTrend state of the last bar; see `spec_supertrend`.
pub fn supertrend_bands(candles: &Vec<Candle>, atr: &Vec<u64>, center: u64, mult_h: u64) -> (r:
    SuperTrendResult)
    requires
        candles_wf(candles@),
        2 <= candles@.len() <= MAX_LEN,
        atr@.len() == candles@.len(),
        forall|i: int| 0 <= i < atr@.len() ==> #[trigger] atr@[i] <= MAX_PRICE,
        center <= MAX_PRICE,
        mult_h <= MAX_FACTOR,
    ensures
        r.trend == spec_supertrend(candles@, atr@, center as int, mult_h as int).0,
        r.supertrend as int == spec_supertrend(candles@, atr@, center as int, mult_h as int).1,
        r.upper_band as int == spec_basic_upper(
            center as int,
            atr@.last() as int,
            mult_h as int,
        ),
        r.lower_band as int == spec_basic_lower(
            center as int,
            atr@.last() as int,
            mult_h as int,
        ),
{
    let ghost s = candles@;
    let n = candles.len();
    let atr_cur = atr[n - 1];
    let atr_prev = atr[n - 2];
    proof {
        assert(atr@[n - 1] <= MAX_PRICE);
        assert(atr@[n - 2] <= MAX_PRICE);
        assert(s[n - 1].wf());
        assert(s[n - 2].wf());
        assert(mult_h * atr_cur <= 1_000_000_000_000_000_000) by (nonlinear_arith)
            requires
                0 <= atr_cur <= MAX_PRICE,
                0 <= mult_h <= MAX_FACTOR,
        ;
        lemma_band_offset_in_range(atr_cur as int, mult_h as int);
        lemma_band_offset_in_range(atr_prev as int, mult_h as int);
    }
    let off = mult_h * atr_cur / 100;
    let upper = center as i64 + off as i64;
    let lower = center as i64 - off as i64;
    let close = candles[n - 1].close as i64;
    let prev_close = candles[n - 2].close as i64;
    if close > upper {
        SuperTrendResult {
            supertrend: lower,
            upper_band: upper,
            lower_band: lower,
            trend: TrendDirection::Bullish,
        }
    } else if close < lower {
        SuperTrendResult {
            supertrend: upper,
            upper_band: upper,
            lower_band: lower,
            trend: TrendDirection::Bearish,
        }
    } else {
        let prev_bar = candles[n - 2];
        let prev_hl2 = (prev_bar.high + prev_bar.low) / 2;
        proof {
            assert(mult_h * atr_prev <= 1_000_000_000_000_000_000) by (nonlinear_arith)
                requires
                    0 <= atr_prev <= MAX_PRICE,
                    0 <= mult_h <= MAX_FACTOR,
            ;
        }
        let poff = mult_h * atr_prev / 100;
        let prev_upper = prev_hl2 as i64 + poff as i64;
        let prev_lower = prev_hl2 as i64 - poff as i64;
        if prev_close > prev_lower {
            let final_lower = if lower >= prev_lower {
                lower
            } else {
                prev_lower
            };
            if close > final_lower {
                SuperTrendResult {
                    supertrend: final_lower,
                    upper_band: upper,
                    lower_band: lower,
                    trend: TrendDirection::Bullish,
                }
            } else {
                SuperTrendResult {
                    supertrend: upper,
                    upper_band: upper,
                    lower_band: lower,
                    trend: TrendDirection::Bearish,
                }
            }
        } else {
            let final_upper = if upper <= prev_upper {
                upper
            } else {
                prev_upper
            };
            if close < final_upper {
                SuperTrendResult {
                    supertrend: final_upper,
                    upper_band: upper,
                    lower_band: lower,
                    trend: TrendDirection::Bearish,
                }
            } else {
                SuperTrendResult {
                    supertrend: lower,
                    upper_band: upper,
                    lower_band: lower,
                    trend: TrendDirection::Bullish,
                }
            }
        }
    }
}

} // verus!
