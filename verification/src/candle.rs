use vstd::prelude::*;

verus! {

/// Largest admissible fixed-point price or volume value. Keeping every input
/// below this cap lets all sums and products in the engine stay inside `u64`
/// and `i64` without checked arithmetic.
pub const MAX_PRICE: u64 = 1_000_000_000_000;

/// Largest admissible candle-series length, for the same reason.
pub const MAX_LEN: usize = 1_000_000;

/// Largest admissible ratio parameter, in hundredths (a band multiplier or
/// volume threshold of up to 10000x).
pub const MAX_FACTOR: u64 = 1_000_000;

/// One OHLCV bar. Prices and volume are fixed-point integers; the sequence a
/// series of these forms is chronological, oldest first.
#[derive(Clone, Copy, PartialEq, Eq, Structural, Debug)]
pub struct Candle {
    pub open: u64,
    pub high: u64,
    pub low: u64,
    pub close: u64,
    pub volume: u64,
}

impl Candle {
    /// Shape every candle handed to the engine must have: the high dominates,
    /// the low is dominated, and all magnitudes stay below the fixed-point cap.
    pub open spec fn wf(self) -> bool {
        &&& self.high <= MAX_PRICE
        &&& self.volume <= MAX_PRICE
        &&& self.low <= self.high
        &&& self.open <= self.high
        &&& self.close <= self.high
        &&& self.low <= self.open
        &&& self.low <= self.close
    }

    /// Midpoint of high and low (HL2), rounded down.
    pub open spec fn spec_hl2(self) -> int {
        (self.high + self.low) / 2
    }

    /// Typical price `(high + low + close) / 3`, rounded down.
    pub open spec fn spec_typical(self) -> int {
        (self.high + self.low + self.close) / 3
    }
}

/// Every candle of the sequence is well-formed.
pub open spec fn candles_wf(s: Seq<Candle>) -> bool {
    forall|i: int| 0 <= i < s.len() ==> #[trigger] s[i].wf()
}

} // verus!
