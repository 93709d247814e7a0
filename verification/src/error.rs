//! The ways in which a request to the engine can be turned down.
use vstd::prelude::*;

verus! {

/// Why the engine refused a request. A refused request changes nothing.
#[derive(Clone, Copy, Debug, PartialEq, Eq, Structural)]
pub enum EngineError {
    /// The difficulty asks for at least as many hazards as the grid has cells.
    InvalidDifficulty,
    /// The coordinates lie outside the grid.
    OutOfBounds,
}

} // verus!
