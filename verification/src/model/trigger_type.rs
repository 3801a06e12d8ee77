use vstd::prelude::*;

verus! {

/// Which candle price a trigger level is tested against.
#[derive(Clone, Copy, Debug, PartialEq, Eq, Structural)]
pub enum TriggerType {
    /// The candle must close beyond the level.
    Close,
    /// A wick beyond the level is enough.
    Wick,
}

} // verus!
