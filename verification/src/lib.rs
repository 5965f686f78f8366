//! Pivot-Point SuperTrend signal engine.
//!
//! Computes technical-analysis signals from OHLCV candle series: Wilder-smoothed
//! ATR, EMA trend filters, pivot-based dynamic centerlines, SuperTrend band
//! ratcheting, volume confirmation, and a final discrete trading signal with a
//! stop-loss level.
//!
//! All prices and volumes are fixed-point integers (the caller picks the scale,
//! e.g. hundredths of a currency unit); every division is integer division.
//! Ratio parameters (band multiplier, volume threshold) are given in hundredths.

pub mod bands;
pub mod candle;
pub mod confirm;
pub mod engine;
pub mod indicators;
pub mod pivots;

pub use bands::SuperTrendResult;
pub use bands::TrendDirection;
pub use bands::supertrend_bands;
pub use candle::Candle;
pub use candle::MAX_FACTOR;
pub use candle::MAX_LEN;
pub use candle::MAX_PRICE;
pub use engine::decide_signal;
pub use engine::run_signal_engine;
pub use engine::EngineParams;
pub use engine::Signal;
pub use engine::SignalOutput;
pub use engine::MAX_PIVOTS;
pub use confirm::highest_high;
pub use confirm::lowest_low;
pub use confirm::volume_confirmed;
pub use indicators::atr_series;
pub use indicators::ema_series;
pub use indicators::true_range;
pub use pivots::centerline;
pub use pivots::dynamic_center;
pub use pivots::find_pivot_high;
pub use pivots::find_pivot_low;
pub use pivots::pivot_center;
pub use pivots::pivot_high_prices;
pub use pivots::pivot_low_prices;
