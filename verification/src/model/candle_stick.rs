use vstd::prelude::*;

use super::decimal::{price_bounded, DecimalVec};

verus! {

/// One OHLC bar with open and close timestamps in epoch seconds.
#[derive(Clone, Copy, Debug, PartialEq, Eq, Structural)]
pub struct CandleStick {
    pub open_time: i64,
    pub open: DecimalVec,
    pub high: DecimalVec,
    pub low: DecimalVec,
    pub close: DecimalVec,
    pub close_time: i64,
}

/// All four prices within the engine's arithmetic range.
pub open spec fn candle_stick_bounded(c: CandleStick) -> bool {
    &&& price_bounded(c.open)
    &&& price_bounded(c.high)
    &&& price_bounded(c.low)
    &&& price_bounded(c.close)
}

} // verus!
