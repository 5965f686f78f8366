use vstd::prelude::*;
use crate::bands::{
    spec_basic_lower, spec_basic_upper, spec_trend_decision, supertrend_bands, TrendDirection,
};
use crate::candle::{Candle, candles_wf, MAX_FACTOR, MAX_LEN, MAX_PRICE};
use crate::confirm::{
    highest_high, lowest_low, spec_highest_high, spec_lowest_low, spec_volume_confirmed,
    volume_confirmed,
};
use crate::indicators::{atr_series, ema_series, lemma_atr_in_range, spec_atr, spec_ema};
use crate::pivots::{dynamic_center, spec_dynamic_center};

verus! {

/// How many of the most recent pivots of each kind feed the centerline.
pub const MAX_PIVOTS: usize = 5;

/// The discrete trading decision.
#[derive(Clone, Copy, PartialEq, Eq, Structural, Debug)]
pub enum Signal {
    Long,
    Short,
    Hold,
}

/// Tuning parameters of the signal engine. Ratio parameters (`mult_h`,
/// `volume_threshold_h`) are in hundredths: 200 means a multiplier of 2.
#[derive(Clone, Copy, PartialEq, Eq, Structural, Debug)]
pub struct EngineParams {
    pub atr_period: usize,
    pub mult_h: u64,
    pub pivot_lookback: usize,
    pub volume_period: usize,
    pub volume_threshold_h: u64,
    pub swing_lookback: usize,
}

impl EngineParams {
    /// Machine bounds the engine needs: positive smoothing periods and
    /// capped lengths and ratios, so that no intermediate sum or product
    /// leaves `u64`/`i64`.
    pub open spec fn wf(self) -> bool {
        &&& 1 <= self.atr_period <= MAX_LEN
        &&& self.mult_h <= MAX_FACTOR
        &&& self.pivot_lookback <= MAX_LEN
        &&& 1 <= self.volume_period
        &&& self.volume_threshold_h <= MAX_FACTOR
    }
}

impl Default for EngineParams {
    /// The stock parameterisation: ATR period 14, multiplier 2.00, pivot
    /// lookback 5, volume period 20, volume threshold 1.50, swing lookback 20.
    fn default() -> (r: Self)
        ensures
            r == (EngineParams {
                atr_period: 14,
                mult_h: 200,
                pivot_lookback: 5,
                volume_period: 20,
                volume_threshold_h: 150,
                swing_lookback: 20,
            }),
            r.wf(),
    {
        EngineParams {
            atr_period: 14,
            mult_h: 200,
            pivot_lookback: 5,
            volume_period: 20,
            volume_threshold_h: 150,
            swing_lookback: 20,
        }
    }
}

/// Everything the engine reports for one invocation.
#[derive(Clone, Copy, PartialEq, Eq, Structural, Debug)]
pub struct SignalOutput {
    pub signal: Signal,
    pub trend: TrendDirection,
    pub supertrend: i64,
    pub upper_band: i64,
    pub lower_band: i64,
    pub atr: u64,
    pub ema_50: u64,
    pub ema_200: u64,
    pub current_price: u64,
    pub stop_loss: u64,
    pub volume_confirmed: bool,
}

/// Minimum history required before any indicator value is surfaced:
/// `max(atr_period, 200, pivot_lookback * 2)`.
pub open spec fn spec_min_len(p: EngineParams) -> int {
    vstd::math::max3(p.atr_period as int, 200, p.pivot_lookback as int * 2)
}

/// The neutral result emitted below the minimum-data gate: Hold, no trend,
/// every indicator zeroed, only the current price carried over (0 when the
/// series is empty).
pub open spec fn spec_hold_output(s: Seq<Candle>) -> SignalOutput {
    SignalOutput {
        signal: Signal::Hold,
        trend: TrendDirection::Neutral,
        supertrend: 0,
        upper_band: 0,
        lower_band: 0,
        atr: 0,
        ema_50: 0,
        ema_200: 0,
        current_price: if s.len() == 0 {
            0
        } else {
            s.last().close
        },
        stop_loss: 0,
        volume_confirmed: false,
    }
}

/// The final decision: Long only when the SuperTrend regime is bullish, the
/// EMAs align bullishly and volume confirms; Short only in the mirrored
/// bearish case; Hold otherwise.
pub open spec fn spec_signal(
    trend: TrendDirection,
    bullish_aligned: bool,
    bearish_aligned: bool,
    volume_ok: bool,
) -> Signal {
    if trend == TrendDirection::Bullish && bullish_aligned && volume_ok {
        Signal::Long
    } else if trend == TrendDirection::Bearish && bearish_aligned && volume_ok {
        Signal::Short
    } else {
        Signal::Hold
    }
}

/// The whole engine as a function of the candle series and the parameters.
pub open spec fn spec_run(s: Seq<Candle>, p: EngineParams) -> SignalOutput {
    if s.len() < spec_min_len(p) || s.len() < p.atr_period + 1 {
        spec_hold_output(s)
    } else {
        let n = s.len() as int;
        let atr_last = spec_atr(s, p.atr_period as int, n - 1);
        let atr_prev = spec_atr(s, p.atr_period as int, n - 2);
        let e50 = spec_ema(s, 50, n - 1);
        let e200 = spec_ema(s, 200, n - 1);
        let close = s[n - 1].close as int;
        let center = spec_dynamic_center(s, p.pivot_lookback as int, MAX_PIVOTS as int);
        let bu = spec_basic_upper(center, atr_last, p.mult_h as int);
        let bl = spec_basic_lower(center, atr_last, p.mult_h as int);
        let pair = spec_trend_decision(
            close,
            s[n - 2].close as int,
            bu,
            bl,
            spec_basic_upper(s[n - 2].spec_hl2(), atr_prev, p.mult_h as int),
            spec_basic_lower(s[n - 2].spec_hl2(), atr_prev, p.mult_h as int),
        );
        let vol = spec_volume_confirmed(s, p.volume_period as int, p.volume_threshold_h as int);
        let bullish_aligned = e50 > e200 && close > e50;
        let bearish_aligned = e50 < e200 && close < e50;
        let sig = spec_signal(pair.0, bullish_aligned, bearish_aligned, vol);
        let stop = if sig == Signal::Long {
            spec_lowest_low(s, p.swing_lookback as int)
        } else if sig == Signal::Short {
            spec_highest_high(s, p.swing_lookback as int)
        } else {
            0
        };
        SignalOutput {
            signal: sig,
            trend: pair.0,
            supertrend: pair.1 as i64,
            upper_band: bu as i64,
            lower_band: bl as i64,
            atr: atr_last as u64,
            ema_50: e50 as u64,
            ema_200: e200 as u64,
            current_price: s[n - 1].close,
            stop_loss: stop as u64,
            volume_confirmed: vol,
        }
    }
}

/// Law: below the minimum-data gate the engine emits the neutral Hold result
/// with every indicator field zero and only the current price populated.
pub proof fn lemma_short_series_holds(s: Seq<Candle>, p: EngineParams)
    requires
        s.len() < spec_min_len(p),
    ensures
        spec_run(s, p) == spec_hold_output(s),
        spec_run(s, p).signal == Signal::Hold,
        spec_run(s, p).trend == TrendDirection::Neutral,
        spec_run(s, p).supertrend == 0,
        spec_run(s, p).upper_band == 0,
        spec_run(s, p).lower_band == 0,
        spec_run(s, p).atr == 0,
        spec_run(s, p).stop_loss == 0,
        s.len() > 0 ==> spec_run(s, p).current_price == s.last().close,
        s.len() == 0 ==> spec_run(s, p).current_price == 0,
{
}

/// Law: the signal demands all three confirmations at once. Long holds
/// exactly when the trend is bullish, the EMAs align bullishly and volume
/// confirms; Short exactly in the mirrored case; without volume confirmation
/// the decision is always Hold.
pub proof fn lemma_signal_requires_all(
    trend: TrendDirection,
    bullish_aligned: bool,
    bearish_aligned: bool,
    volume_ok: bool,
)
    ensures
        spec_signal(trend, bullish_aligned, bearish_aligned, volume_ok) == Signal::Long <==> (trend
            == TrendDirection::Bullish && bullish_aligned && volume_ok),
        spec_signal(trend, bullish_aligned, bearish_aligned, volume_ok) == Signal::Short <==> (
        trend == TrendDirection::Bearish && bearish_aligned && volume_ok),
        !volume_ok ==> spec_signal(trend, bullish_aligned, bearish_aligned, volume_ok)
            == Signal::Hold,
{
}

/// Law: the engine is a pure function of its inputs; two results computed
/// from the same candles and parameters are identical in every field.
pub proof fn lemma_engine_deterministic(
    s: Seq<Candle>,
    p: EngineParams,
    r1: SignalOutput,
    r2: SignalOutput,
)
    requires
        r1 == spec_run(s, p),
        r2 == spec_run(s, p),
    ensures
        r1 == r2,
{
}

/// Combines the three confirmations into the discrete signal.
pub fn decide_signal(
    trend: TrendDirection,
    bullish_aligned: bool,
    bearish_aligned: bool,
    volume_ok: bool,
) -> (r: Signal)
    ensures
        r == spec_signal(trend, bullish_aligned, bearish_aligned, volume_ok),
{
    if trend == TrendDirection::Bullish && bullish_aligned && volume_ok {
        Signal::Long
    } else if trend == TrendDirection::Bearish && bearish_aligned && volume_ok {
        Signal::Short
    } else {
        Signal::Hold
    }
}

/// Runs the whole Pivot-Point SuperTrend engine over one candle history and
/// returns the snapshot for the most recent bar; see `spec_run`.
pub fn run_signal_engine(candles: &Vec<Candle>, p: EngineParams) -> (r: SignalOutput)
    requires
        candles_wf(candles@),
        candles@.len() <= MAX_LEN,
        p.wf(),
    ensures
        r == spec_run(candles@, p),
{
    let ghost s = candles@;
    let n = candles.len();
    let lb2 = p.pivot_lookback * 2;
    let mut required = p.atr_period;
    if required < 200 {
        required = 200;
    }
    if required < lb2 {
        required = lb2;
    }
    if n < required || n < p.atr_period + 1 {
        let price = if n == 0 {
            0
        } else {
            candles[n - 1].close
        };
        proof {
            if n > 0 {
                assert(s.last() == s[n - 1]);
            }
        }
        return SignalOutput {
            signal: Signal::Hold,
            trend: TrendDirection::Neutral,
            supertrend: 0,
            upper_band: 0,
            lower_band: 0,
            atr: 0,
            ema_50: 0,
            ema_200: 0,
            current_price: price,
            stop_loss: 0,
            volume_confirmed: false,
        };
    }
    let atrv = atr_series(candles, p.atr_period);
    let e50v = ema_series(candles, 50);
    let e200v = ema_series(candles, 200);
    let atr_last = atrv[n - 1];
    let e50 = e50v[n - 1];
    let e200 = e200v[n - 1];
    let close = candles[n - 1].close;
    let center = dynamic_center(candles, p.pivot_lookback, MAX_PIVOTS);
    proof {
        assert forall|i: int| 0 <= i < atrv@.len() implies #[trigger] atrv@[i] <= MAX_PRICE by {
            lemma_atr_in_range(s, p.atr_period as int, i);
        }
    }
    let st = supertrend_bands(candles, &atrv, center, p.mult_h);
    let vol = volume_confirmed(candles, p.volume_period, p.volume_threshold_h);
    let bullish_aligned = e50 > e200 && close > e50;
    let bearish_aligned = e50 < e200 && close < e50;
    let sig = decide_signal(st.trend, bullish_aligned, bearish_aligned, vol);
    let stop = if sig == Signal::Long {
        lowest_low(candles, p.swing_lookback)
    } else if sig == Signal::Short {
        highest_high(candles, p.swing_lookback)
    } else {
        0
    };
    proof {
        assert(s[n - 1].wf());
        assert(s.last() == s[n - 1]);
        assert(atrv@.last() == atrv@[n - 1]);
    }
    SignalOutput {
        signal: sig,
        trend: st.trend,
        supertrend: st.supertrend,
        upper_band: st.upper_band,
        lower_band: st.lower_band,
        atr: atr_last,
        ema_50: e50,
        ema_200: e200,
        current_price: close,
        stop_loss: stop,
        volume_confirmed: vol,
    }
}

} // verus!
