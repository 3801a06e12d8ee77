use vstd::prelude::*;

use super::decimal::DecimalVec;
use super::position::{position_price_bounded, Position};
use super::position_direction::PositionDirection;
use super::ratio::{ratio_bounded, ratio_wf, Ratio};
use super::trade_result::TradeResult;

verus! {

/// An immutable snapshot of a closed position: the position's prices, its
/// close time, and the terminal classification.
#[derive(Clone, Copy, Debug, PartialEq, Eq, Structural)]
pub struct Trade {
    pub direction: PositionDirection,
    pub open_time: i64,
    pub close_time: i64,
    pub entry: DecimalVec,
    pub sl: DecimalVec,
    pub tp: DecimalVec,
    pub result: TradeResult,
}

/// Bounded prices and a nonzero risk distance, inherited from the position
/// the trade was made from.
pub open spec fn trade_wf(t: Trade) -> bool {
    &&& position_price_bounded(t.entry)
    &&& position_price_bounded(t.sl)
    &&& position_price_bounded(t.tp)
    &&& t.sl.0 != t.entry.0
}

/// The trade a position closes into at `close_time` with outcome `result`.
pub open spec fn spec_from_position(p: Position, close_time: i64, result: TradeResult) -> Trade {
    Trade {
        direction: p.direction,
        open_time: p.open_time,
        close_time,
        entry: p.entry,
        sl: p.sl,
        tp: p.tp,
        result,
    }
}

/// The planned risk:reward the trade was taken at, in normal form.
pub open spec fn spec_trade_rr(t: Trade) -> Ratio {
    let raw_num: int = match t.direction {
        PositionDirection::Short => t.entry.0 - t.tp.0,
        PositionDirection::Long => t.tp.0 - t.entry.0,
    };
    let raw_den: int = match t.direction {
        PositionDirection::Short => t.sl.0 - t.entry.0,
        PositionDirection::Long => t.entry.0 - t.sl.0,
    };
    if raw_den < 0 {
        Ratio { num: (-raw_num) as i128, den: (-raw_den) as i128 }
    } else {
        Ratio { num: raw_num as i128, den: raw_den as i128 }
    }
}

/// Trade intervals in a list do not overlap: each trade closes no later
/// than the next one opens, so at most one position is open at any
/// simulated moment.
pub open spec fn trades_disjoint(ts: Seq<Trade>) -> bool {
    forall|k: int|
        #![trigger ts[k], ts[k + 1]]
        0 <= k < ts.len() - 1 ==> ts[k].close_time <= ts[k + 1].open_time
}

/// Every trade in the list closes no earlier than it opened. Together with
/// `trades_disjoint` this makes both the open and the close times of the
/// list non-decreasing.
pub open spec fn trades_open_before_close(ts: Seq<Trade>) -> bool {
    forall|k: int| 0 <= k < ts.len() ==> (#[trigger] ts[k]).open_time <= ts[k].close_time
}

/// Appending a trade that opens no earlier than the last one closed keeps
/// the list's intervals disjoint.
pub proof fn lemma_disjoint_push(ts: Seq<Trade>, t: Trade)
    requires
        trades_disjoint(ts),
        ts.len() > 0 ==> ts.last().close_time <= t.open_time,
    ensures
        trades_disjoint(ts.push(t)),
{
    assert forall|k: int|
        #![trigger ts.push(t)[k], ts.push(t)[k + 1]]
        0 <= k < ts.push(t).len() - 1 implies ts.push(t)[k].close_time <= ts.push(t)[k
        + 1].open_time by {
        if k < ts.len() - 1 {
            assert(ts.push(t)[k] == ts[k]);
            assert(ts.push(t)[k + 1] == ts[k + 1]);
            assert(ts[k].close_time <= ts[k + 1].open_time);
        } else {
            assert(ts.push(t)[k] == ts[k]);
            assert(ts.push(t)[k + 1] == t);
        }
    }
}

impl Trade {
    /// Risk:reward the trade was taken at, an exact rational.
    pub fn rr(&self) -> (r: Ratio)
        requires
            trade_wf(*self),
        ensures
            r == spec_trade_rr(*self),
            ratio_wf(r),
            ratio_bounded(r),
    {
        let num: i64 = match self.direction {
            PositionDirection::Short => self.entry.0 - self.tp.0,
            PositionDirection::Long => self.tp.0 - self.entry.0,
        };
        let den: i64 = match self.direction {
            PositionDirection::Short => self.sl.0 - self.entry.0,
            PositionDirection::Long => self.entry.0 - self.sl.0,
        };
        if den < 0 {
            Ratio { num: -(num as i128), den: -(den as i128) }
        } else {
            Ratio { num: num as i128, den: den as i128 }
        }
    }

    pub(crate) fn from_position(position: Position, close_time: i64, result: TradeResult) -> (t:
        Trade)
        ensures
            t == spec_from_position(position, close_time, result),
    {
        Trade {
            direction: position.direction,
            open_time: position.open_time,
            close_time,
            entry: position.entry,
            sl: position.sl,
            tp: position.tp,
            result,
        }
    }
}

} // verus!
