use vstd::prelude::*;

verus! {

/// A daily time-of-day window `[start, end)`, in seconds after midnight in
/// the engine's reference timezone (New York).
#[derive(Clone, Copy, Debug, PartialEq, Eq, Structural)]
pub struct Session {
    pub start: u32,
    pub end: u32,
}

/// Whether a second-of-day falls inside the window.
pub open spec fn session_contains(s: Session, second_of_day: int) -> bool {
    s.start <= second_of_day < s.end
}

} // verus!
