use pivot_supertrend::{
    atr_series, decide_signal, dynamic_center, ema_series, run_signal_engine, Candle,
    EngineParams, Signal, SignalOutput, TrendDirection,
};

fn bar(open: u64, high: u64, low: u64, close: u64, volume: u64) -> Candle {
    Candle { open, high, low, close, volume }
}

/// A bar whose four prices coincide (a "flat" bar).
fn flat(v: u64, volume: u64) -> Candle {
    bar(v, v, v, v, volume)
}

/// The rising synthetic series: close climbs by 100 per bar, high/low offset
/// by one unit (100), volume flat except doubled on the last bar.
fn rising_series(n: usize) -> Vec<Candle> {
    let mut v = Vec::new();
    for i in 0..n {
        let close = 100_000 + 100 * (i as u64);
        let volume = if i + 1 == n { 2000 } else { 1000 };
        v.push(bar(close, close + 100, close - 100, close, volume));
    }
    v
}

fn hold_like(r: &SignalOutput) -> bool {
    r.signal == Signal::Hold
        && r.trend == TrendDirection::Neutral
        && r.supertrend == 0
        && r.upper_band == 0
        && r.lower_band == 0
        && r.atr == 0
        && r.ema_50 == 0
        && r.ema_200 == 0
        && r.stop_loss == 0
        && !r.volume_confirmed
}

#[test]
fn short_series_yields_hold() {
    let candles = rising_series(150);
    let r = run_signal_engine(&candles, EngineParams::default());
    assert!(hold_like(&r));
    assert_eq!(r.current_price, 100_000 + 100 * 149);
}

#[test]
fn empty_series_yields_hold_with_zero_price() {
    let candles: Vec<Candle> = Vec::new();
    let r = run_signal_engine(&candles, EngineParams::default());
    assert!(hold_like(&r));
    assert_eq!(r.current_price, 0);
}

#[test]
fn series_exactly_at_gate_is_computed() {
    // 200 bars meet the default gate of max(14, 200, 10).
    let candles = rising_series(200);
    let r = run_signal_engine(&candles, EngineParams::default());
    assert_ne!(r.atr, 0);
}

#[test]
fn rising_series_goes_long() {
    let candles = rising_series(250);
    let r = run_signal_engine(&candles, EngineParams::default());
    // Constant true range of 200, so the ATR settles at exactly 200.
    assert_eq!(r.atr, 200);
    // No pivots exist in a strictly monotonic series, so the center is the
    // last bar's HL2 = its close.
    let last_close = 100_000 + 100 * 249;
    assert_eq!(r.current_price, last_close);
    assert_eq!(r.upper_band, last_close as i64 + 400);
    assert_eq!(r.lower_band, last_close as i64 - 400);
    // Continuation of a bullish regime ratchets the lower band.
    assert_eq!(r.trend, TrendDirection::Bullish);
    assert_eq!(r.supertrend, last_close as i64 - 400);
    // EMA alignment must hold on a monotonically rising series.
    assert!(r.ema_50 > r.ema_200);
    assert!(r.current_price > r.ema_50);
    assert!(r.volume_confirmed);
    assert_eq!(r.signal, Signal::Long);
    // Stop loss: lowest low over the trailing 20 bars, i.e. bar 230.
    assert_eq!(r.stop_loss, 100_000 + 100 * 230 - 100);
}

#[test]
fn series_no_longer_than_atr_period_holds() {
    // 250 bars pass the minimum-length gate of max(250, 200, 10), but the ATR
    // itself needs period + 1 bars, so the engine still degrades to Hold.
    let mut p = EngineParams::default();
    p.atr_period = 250;
    let candles = rising_series(250);
    let r = run_signal_engine(&candles, p);
    assert!(hold_like(&r));
    assert_eq!(r.current_price, 100_000 + 100 * 249);
    // One more bar and the ATR becomes computable.
    let candles = rising_series(251);
    let r = run_signal_engine(&candles, p);
    assert_ne!(r.atr, 0);
}

#[test]
fn engine_is_idempotent() {
    let candles = rising_series(250);
    let r1 = run_signal_engine(&candles, EngineParams::default());
    let r2 = run_signal_engine(&candles, EngineParams::default());
    assert_eq!(r1, r2);
}

#[test]
fn engine_agrees_with_components_when_pivots_exist() {
    // A rising series with one spike high and one dipped low: both become
    // confirmed pivots and pull the centerline away from the last bar's HL2.
    let mut candles = rising_series(250);
    candles[100].high += 5000;
    candles[120].low -= 5000;
    let r = run_signal_engine(&candles, EngineParams::default());
    let atr = atr_series(&candles, 14);
    let center = dynamic_center(&candles, 5, 5);
    let last_hl2 = (candles[249].high + candles[249].low) / 2;
    assert_ne!(center, last_hl2);
    let off = (200 * atr[249] / 100) as i64;
    assert_eq!(r.atr, atr[249]);
    assert_eq!(r.upper_band, center as i64 + off);
    assert_eq!(r.lower_band, center as i64 - off);
    let e50 = ema_series(&candles, 50);
    let e200 = ema_series(&candles, 200);
    assert_eq!(r.ema_50, e50[249]);
    assert_eq!(r.ema_200, e200[249]);
}

#[test]
fn signal_requires_all_three_confirmations() {
    // Bullish trend and bullish EMA alignment, but volume unconfirmed: Hold.
    assert_eq!(decide_signal(TrendDirection::Bullish, true, false, false), Signal::Hold);
    assert_eq!(decide_signal(TrendDirection::Bullish, true, false, true), Signal::Long);
    assert_eq!(decide_signal(TrendDirection::Bearish, false, true, true), Signal::Short);
    assert_eq!(decide_signal(TrendDirection::Bearish, false, true, false), Signal::Hold);
    assert_eq!(decide_signal(TrendDirection::Bullish, false, true, true), Signal::Hold);
    assert_eq!(decide_signal(TrendDirection::Bearish, true, false, true), Signal::Hold);
    assert_eq!(decide_signal(TrendDirection::Neutral, true, true, true), Signal::Hold);
}

#[test]
fn volume_gate_flips_long_to_hold() {
    // Same rising series, but the last bar's volume matches the flat average,
    // so the strict threshold comparison fails and the signal degrades to Hold.
    let mut candles = rising_series(250);
    let n = candles.len();
    candles[n - 1].volume = 1000;
    let r = run_signal_engine(&candles, EngineParams::default());
    assert_eq!(r.trend, TrendDirection::Bullish);
    assert!(!r.volume_confirmed);
    assert_eq!(r.signal, Signal::Hold);
    assert_eq!(r.stop_loss, 0);
}

#[test]
fn default_params_match_documentation() {
    let p = EngineParams::default();
    assert_eq!(p.atr_period, 14);
    assert_eq!(p.mult_h, 200);
    assert_eq!(p.pivot_lookback, 5);
    assert_eq!(p.volume_period, 20);
    assert_eq!(p.volume_threshold_h, 150);
    assert_eq!(p.swing_lookback, 20);
}

#[test]
fn atr_series_too_short_is_empty() {
    let candles = rising_series(14);
    assert!(atr_series(&candles, 14).is_empty());
    let candles = rising_series(15);
    assert_eq!(atr_series(&candles, 14).len(), 15);
}

#[test]
fn ema_series_too_short_is_all_zero() {
    let candles = rising_series(9);
    let e = ema_series(&candles, 10);
    assert_eq!(e.len(), 9);
    assert!(e.iter().all(|&v| v == 0));
}

#[test]
fn atr_placeholders_seed_and_constancy() {
    // Constant true range of 200 everywhere: the seed mean is 200 and the
    // Wilder recursion keeps it there.
    let candles = rising_series(30);
    let a = atr_series(&candles, 14);
    // Index 0 is seeded as high - low of the first bar.
    assert_eq!(a[0], 200);
    for i in 1..14 {
        assert_eq!(a[i], 0);
    }
    for i in 14..30 {
        assert_eq!(a[i], 200);
    }
}

#[test]
fn atr_converges_monotonically_to_constant_true_range() {
    // Fifteen volatile flat bars (true range 100 via close jumps), then a
    // constant price: the true range drops to 0 and the ATR decays toward 0
    // monotonically.
    let mut candles = Vec::new();
    for i in 0..15 {
        let v = if i % 2 == 0 { 1000 } else { 1100 };
        candles.push(flat(v, 50));
    }
    for _ in 15..40 {
        candles.push(flat(1000, 50));
    }
    let a = atr_series(&candles, 14);
    // Bar 14 closes at 1000 (even index), bar 15 equals it: TR is 0 from 15 on.
    assert_eq!(a[14], 100);
    for i in 15..40 {
        assert!(a[i] <= a[i - 1]);
        if a[i - 1] > 0 {
            assert!(a[i] < a[i - 1]);
        }
    }
}

#[test]
fn ema_seed_is_simple_average_and_steps_stay_between() {
    let closes: [u64; 6] = [1000, 2000, 3000, 4000, 2000, 2000];
    let candles: Vec<Candle> = closes.iter().map(|&c| flat(c, 1)).collect();
    let e = ema_series(&candles, 3);
    assert_eq!(e[0], 0);
    assert_eq!(e[1], 0);
    // Seed: mean of the first three closes.
    assert_eq!(e[2], 2000);
    // Step: 2000 + (4000 - 2000) * 2 / 4 = 3000, strictly between.
    assert_eq!(e[3], 3000);
    assert!(e[2] < e[3] && e[3] < 4000);
    // Step down: 3000 - (3000 - 2000) * 2 / 4 = 2500, strictly between.
    assert_eq!(e[4], 2500);
    assert!(2000 < e[4] && e[4] < e[3]);
}
