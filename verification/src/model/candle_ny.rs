use vstd::prelude::*;

use super::decimal::{price_bounded, DecimalVec};
use crate::time::TIMESTAMP_LIMIT;

verus! {

/// One OHLC bar keyed by its open timestamp in epoch seconds; the breakout
/// engine reads the bar's New York time of day off that timestamp.
#[derive(Clone, Copy, Debug, PartialEq, Eq, Structural)]
pub struct CandleNY {
    pub open_time: i64,
    pub open: DecimalVec,
    pub high: DecimalVec,
    pub low: DecimalVec,
    pub close: DecimalVec,
}

/// Prices within the engine's arithmetic range and a timestamp the calendar
/// conversion accepts.
pub open spec fn candle_ny_bounded(c: CandleNY) -> bool {
    &&& price_bounded(c.open)
    &&& price_bounded(c.high)
    &&& price_bounded(c.low)
    &&& price_bounded(c.close)
    &&& -TIMESTAMP_LIMIT <= c.open_time <= TIMESTAMP_LIMIT
}

/// A bar that closed at or above its open.
pub open spec fn spec_bullish(c: CandleNY) -> bool {
    c.close.0 >= c.open.0
}

impl CandleNY {
    pub fn bullish(self) -> (r: bool)
        ensures
            r == spec_bullish(self),
    {
        self.close.0 >= self.open.0
    }

    pub fn bearish(self) -> (r: bool)
        ensures
            r == !spec_bullish(self),
    {
        !self.bullish()
    }
}

} // verus!
