use vstd::prelude::*;

verus! {

/// Which way a position points: short sells at entry, long buys at entry.
#[derive(Clone, Copy, Debug, PartialEq, Eq, Structural)]
pub enum PositionDirection {
    Short,
    Long,
}

} // verus!
