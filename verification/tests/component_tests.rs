use pivot_supertrend::{
    centerline, dynamic_center, find_pivot_high, find_pivot_low, highest_high, lowest_low,
    supertrend_bands, true_range, volume_confirmed, Candle, TrendDirection,
};

fn bar(open: u64, high: u64, low: u64, close: u64, volume: u64) -> Candle {
    Candle { open, high, low, close, volume }
}

fn flat(v: u64) -> Candle {
    bar(v, v, v, v, 1)
}

#[test]
fn true_range_takes_the_largest_of_three() {
    let c = bar(100, 110, 90, 100, 1);
    // high - low = 20, |high - prev| = 30, |low - prev| = 10.
    assert_eq!(true_range(&c, 80), 30);
    // high - low dominates when the previous close sits inside the bar.
    assert_eq!(true_range(&c, 100), 20);
    // A gap down: |low - prev| = 60 dominates.
    assert_eq!(true_range(&c, 150), 60);
}

#[test]
fn pivot_high_confirmed_in_the_middle() {
    let candles: Vec<Candle> = [10u64, 30, 20, 5, 15].iter().map(|&v| flat(v)).collect();
    assert!(find_pivot_high(&candles, 1, 1));
    assert!(!find_pivot_high(&candles, 2, 1));
    assert!(find_pivot_low(&candles, 3, 1));
    assert!(!find_pivot_low(&candles, 2, 1));
}

#[test]
fn pivot_near_edges_never_confirmed() {
    let candles: Vec<Candle> = [50u64, 10, 20, 10, 40].iter().map(|&v| flat(v)).collect();
    // Bar 0 towers over everything but sits within lookback of the edge.
    assert!(!find_pivot_high(&candles, 0, 2));
    // Bar 4 likewise at the right edge.
    assert!(!find_pivot_high(&candles, 4, 2));
    // Bar 2 is genuinely confirmed with lookback 1 but not 2 (bar 0 is higher).
    assert!(find_pivot_high(&candles, 2, 1));
    assert!(!find_pivot_high(&candles, 2, 2));
}

#[test]
fn forward_tie_disqualifies_pivot_high() {
    // Candidate at index 2; the duplicate high immediately after kills it.
    let candles: Vec<Candle> = [10u64, 20, 30, 30, 10, 5].iter().map(|&v| flat(v)).collect();
    assert!(!find_pivot_high(&candles, 2, 1));
    // And the later duplicate is killed by the equal bar behind it.
    assert!(!find_pivot_high(&candles, 3, 1));
}

#[test]
fn backward_tie_disqualifies_pivot_high() {
    let candles: Vec<Candle> = [10u64, 30, 30, 10, 5].iter().map(|&v| flat(v)).collect();
    assert!(!find_pivot_high(&candles, 2, 1));
}

#[test]
fn ties_disqualify_pivot_lows_too() {
    let candles: Vec<Candle> = [30u64, 20, 5, 5, 30, 40].iter().map(|&v| flat(v)).collect();
    assert!(!find_pivot_low(&candles, 2, 1));
    assert!(!find_pivot_low(&candles, 3, 1));
}

#[test]
fn centerline_midpoint_of_pivot_averages() {
    // One pivot high (30 at index 1), one pivot low (5 at index 3).
    let candles: Vec<Candle> = [10u64, 30, 20, 5, 15].iter().map(|&v| flat(v)).collect();
    assert_eq!(centerline(&candles, 1, 5), (30 + 5) / 2);
    // Blended with the last bar's HL2 (15): (17 + 15) / 2 = 16.
    assert_eq!(dynamic_center(&candles, 1, 5), 16);
}

#[test]
fn centerline_falls_back_without_pivots() {
    // A strictly rising staircase has no pivots at all.
    let candles: Vec<Candle> = (0..6u64).map(|i| bar(100 + i, 110 + i, 90 + i, 105 + i, 1)).collect();
    // Typical price of the last bar: (115 + 95 + 110) / 3.
    assert_eq!(centerline(&candles, 1, 5), (115 + 95 + 110) / 3);
    // Dynamic center: plain HL2 of the last bar.
    assert_eq!(dynamic_center(&candles, 1, 5), (115 + 95) / 2);
}

#[test]
fn bullish_ratchet_keeps_previous_lower_band() {
    // Previous bar: HL2 = 100, ATR 10, multiplier 2 -> bands 80/120; its
    // close of 105 sits above 80, so the prior regime is bullish. Current
    // bar: center 95, ATR 20 -> basic bands 55/135; the close of 105 stays
    // inside, and the ratchet keeps max(55, 80) = 80 as the stop.
    let candles = vec![bar(100, 110, 90, 105, 1), bar(100, 110, 90, 105, 1)];
    let atr = vec![10u64, 20];
    let r = supertrend_bands(&candles, &atr, 95, 200);
    assert_eq!(r.trend, TrendDirection::Bullish);
    assert_eq!(r.lower_band, 55);
    assert_eq!(r.upper_band, 135);
    assert_eq!(r.supertrend, 80);
}

#[test]
fn bearish_ratchet_keeps_previous_upper_band() {
    // Mirror image: the previous bar has HL2 = 90, ATR 10 -> bands 70/110,
    // and its close of 70 does not exceed the lower band, so the prior regime
    // is bearish; min(135, 110) = 110 is the ratcheted stop and the current
    // close of 105 stays below it.
    let candles = vec![bar(100, 110, 70, 70, 1), bar(100, 110, 90, 105, 1)];
    let atr = vec![10u64, 20];
    let r = supertrend_bands(&candles, &atr, 95, 200);
    assert_eq!(r.trend, TrendDirection::Bearish);
    assert_eq!(r.supertrend, 110);
}

#[test]
fn breakout_starts_fresh_regime() {
    // Close far above the basic upper band: immediate bullish regime with the
    // basic lower band as the stop, no ratchet involved.
    let candles = vec![bar(100, 110, 90, 100, 1), bar(100, 400, 90, 390, 1)];
    let atr = vec![10u64, 10];
    let r = supertrend_bands(&candles, &atr, 100, 200);
    assert_eq!(r.trend, TrendDirection::Bullish);
    assert_eq!(r.supertrend, 80);
    assert_eq!(r.lower_band, 80);
    assert_eq!(r.upper_band, 120);
}

#[test]
fn volume_confirmation_is_strict() {
    // Flat volume: the current volume equals the trailing mean, and with a
    // threshold of 1.00 the strict comparison fails.
    let candles: Vec<Candle> = (0..5).map(|_| bar(10, 10, 10, 10, 1000)).collect();
    assert!(!volume_confirmed(&candles, 5, 100));
    // A doubled last volume beats mean * 1.5.
    let mut candles = candles;
    candles[4].volume = 2000;
    // Mean = (4 * 1000 + 2000) / 5 = 1200; 2000 * 100 > 1200 * 150.
    assert!(volume_confirmed(&candles, 5, 150));
    // Fewer candles than the period: never confirmed.
    assert!(!volume_confirmed(&candles, 6, 100));
}

#[test]
fn swing_extremes_over_trailing_window() {
    let candles: Vec<Candle> = [
        (50u64, 10u64),
        (90, 30),
        (60, 20),
        (70, 5),
        (65, 25),
    ]
        .iter()
        .map(|&(h, l)| bar(l, h, l, l, 1))
        .collect();
    // Window of the last 3 bars: highs 60/70/65, lows 20/5/25.
    assert_eq!(highest_high(&candles, 3), 70);
    assert_eq!(lowest_low(&candles, 3), 5);
    // A window larger than the series covers everything.
    assert_eq!(highest_high(&candles, 10), 90);
    assert_eq!(lowest_low(&candles, 10), 5);
    // Empty input yields zero.
    let empty: Vec<Candle> = Vec::new();
    assert_eq!(highest_high(&empty, 3), 0);
    assert_eq!(lowest_low(&empty, 3), 0);
}
