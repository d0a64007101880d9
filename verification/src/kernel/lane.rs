//! Execution lanes: one per virtual CPU.
use vstd::prelude::*;

verus! {

/// How many lanes there are.
pub const MAX_EXECUTION_LANES: usize = 64;

/// A lane.
#[derive(Clone, Copy, Debug, PartialEq, Eq, Structural)]
pub struct ExecutionLane {
    pub index: usize,
}

impl ExecutionLane {
    /// The first lane.
    pub fn primary() -> (lane: ExecutionLane)
        ensures
            lane.index == 0,
    {
        ExecutionLane { index: 0 }
    }

    /// The lane with an index.
    pub fn new(index: usize) -> (lane: ExecutionLane)
        ensures
            lane.index == index,
    {
        ExecutionLane { index }
    }

    /// The index of the lane.
    pub fn index(self) -> (index: usize)
        ensures
            index == self.index,
    {
        self.index
    }

    /// Whether there is such a lane.
    pub fn in_range(self) -> (yes: bool)
        ensures
            yes == (self.index < MAX_EXECUTION_LANES),
    {
        self.index < MAX_EXECUTION_LANES
    }

    /// Insist that there is such a lane. Callers that do not know test `in_range` first.
    pub fn assert_in_range(self)
        requires
            self.index < MAX_EXECUTION_LANES,
    {
        assert(self.index < MAX_EXECUTION_LANES);
    }
}

} // verus!
