use vstd::prelude::*;

use super::backtest_result::BacktestResult;
use super::trade::{trade_wf, Trade};

verus! {

/// A strategy that can be run over its candle series. `execute` is a pure
/// function of the model's inputs: the trade list is pinned down by
/// `spec_trades`, so re-running an identical model yields an identical
/// result.
pub trait TradingModel {
    /// Inputs the strategy accepts: bounded prices, timestamps and
    /// thresholds.
    spec fn wf(&self) -> bool;

    /// The exact trade list one run produces.
    spec fn spec_trades(&self) -> Seq<Trade>;

    /// Runs the strategy once over the whole candle series.
    fn execute(&self) -> (r: BacktestResult)
        requires
            self.wf(),
        ensures
            r.trades@ == self.spec_trades(),
            forall|i: int| 0 <= i < r.trades@.len() ==> trade_wf(#[trigger] r.trades@[i]),
    ;
}

/// Determinism: `execute` pins its trade list to `spec_trades`, a function
/// of the model's inputs alone, so any two runs over an identical candle
/// sequence and parameters yield an identical trade list.
pub proof fn lemma_execute_deterministic<M: TradingModel>(
    m: &M,
    first: Seq<Trade>,
    second: Seq<Trade>,
)
    requires
        first == m.spec_trades(),
        second == m.spec_trades(),
    ensures
        first == second,
{
}

} // verus!
