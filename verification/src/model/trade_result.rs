use vstd::prelude::*;

verus! {

/// Terminal classification of a finished trade.
#[derive(Clone, Copy, Debug, PartialEq, Eq, Structural)]
pub enum TradeResult {
    /// The target was reached: the trade pays its risk:reward multiple.
    Winner,
    /// The stop was hit: the trade costs one risk unit.
    Expense,
    /// The stop was hit after break-even promotion: the trade costs nothing.
    BreakEven,
}

} // verus!
