use vstd::prelude::*;

use super::decimal::{DecimalVec, PRICE_LIMIT};
use super::position_direction::PositionDirection;
use super::ratio::{ratio_bounded, ratio_wf, Ratio};

verus! {

/// A simulated position while it is open: direction, entry, stop (`sl`),
/// target (`tp`), and whether it has been promoted to break-even.
#[derive(Clone, Copy, Debug, PartialEq, Eq, Structural)]
pub struct Position {
    pub direction: PositionDirection,
    pub open_time: i64,
    pub entry: DecimalVec,
    pub sl: DecimalVec,
    pub tp: DecimalVec,
    pub at_break_even: bool,
}

/// Largest magnitude a position price can take: a projected target can lie a
/// whole session range beyond a candle price, up to three times the candle
/// bound.
pub const POSITION_PRICE_LIMIT: i64 = 3 * PRICE_LIMIT;

/// A price that may stand in a position: a candle price, or a target
/// projected from candle prices.
pub open spec fn position_price_bounded(p: DecimalVec) -> bool {
    -POSITION_PRICE_LIMIT <= p.0 <= POSITION_PRICE_LIMIT
}

/// All prices within the engine's arithmetic range.
pub open spec fn position_bounded(p: Position) -> bool {
    &&& position_price_bounded(p.entry)
    &&& position_price_bounded(p.sl)
    &&& position_price_bounded(p.tp)
}

/// A position the engine may open: bounded prices and a nonzero risk
/// distance, so the risk:reward ratio is defined.
pub open spec fn position_wf(p: Position) -> bool {
    &&& position_bounded(p)
    &&& p.sl.0 != p.entry.0
}

/// The reward:risk ratio of closing `p` at `price`: reward is the favourable
/// distance from entry to `price`, risk the distance from entry to the stop.
/// In normal form (positive denominator).
pub open spec fn spec_actual_rr(p: Position, price: DecimalVec) -> Ratio {
    let raw_num: int = match p.direction {
        PositionDirection::Short => p.entry.0 - price.0,
        PositionDirection::Long => price.0 - p.entry.0,
    };
    let raw_den: int = match p.direction {
        PositionDirection::Short => p.sl.0 - p.entry.0,
        PositionDirection::Long => p.entry.0 - p.sl.0,
    };
    if raw_den < 0 {
        Ratio { num: (-raw_num) as i128, den: (-raw_den) as i128 }
    } else {
        Ratio { num: raw_num as i128, den: raw_den as i128 }
    }
}

/// The planned risk:reward of the position: the ratio at its own target.
pub open spec fn spec_rr(p: Position) -> Ratio {
    spec_actual_rr(p, p.tp)
}

impl Position {
    /// Risk:reward of the position as planned, an exact rational.
    pub fn rr(&self) -> (r: Ratio)
        requires
            position_wf(*self),
        ensures
            r == spec_rr(*self),
            ratio_wf(r),
            ratio_bounded(r),
    {
        self.actual_rr(self.tp)
    }

    /// Reward:risk of closing at `actual_price`, an exact rational.
    pub fn actual_rr(&self, actual_price: DecimalVec) -> (r: Ratio)
        requires
            position_wf(*self),
            position_price_bounded(actual_price),
        ensures
            r == spec_actual_rr(*self, actual_price),
            ratio_wf(r),
            ratio_bounded(r),
    {
        let num: i64 = match self.direction {
            PositionDirection::Short => self.entry.0 - actual_price.0,
            PositionDirection::Long => actual_price.0 - self.entry.0,
        };
        let den: i64 = match self.direction {
            PositionDirection::Short => self.sl.0 - self.entry.0,
            PositionDirection::Long => self.entry.0 - self.sl.0,
        };
        if den < 0 {
            Ratio { num: -(num as i128), den: -(den as i128) }
        } else {
            Ratio { num: num as i128, den: den as i128 }
        }
    }

    /// Flags the position as break-even; a later stop-out is then classified
    /// `BreakEven` instead of `Expense`. Idempotent; nothing else changes.
    pub fn move_to_break_even(&mut self)
        ensures
            *final(self) == (Position { at_break_even: true, ..*old(self) }),
    {
        self.at_break_even = true;
    }
}

} // verus!
