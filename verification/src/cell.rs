//! One position of the grid.
use vstd::prelude::*;

verus! {

/// The state of one position of the grid.
#[derive(Clone, Copy, Debug, PartialEq, Eq, Structural)]
pub struct Cell {
    /// The row of the cell, fixed when the cell is made.
    pub row: usize,
    /// The column of the cell, fixed when the cell is made.
    pub col: usize,
    /// Whether the cell is a hazard.
    pub is_hazard: bool,
    /// The number of hazards among the up to eight cells around this one,
    /// zero until the board has counted them.
    pub adjacent_hazard_count: u8,
    /// Whether the cell is still covered. A revealed cell is never covered
    /// again.
    pub is_hidden: bool,
    /// Whether the player has put a flag on the cell.
    pub is_flagged: bool,
    /// Whether this is the hazard that the player revealed and lost by.
    pub triggered_loss: bool,
}

impl Cell {
    /// A covered cell without a flag, its hazards not counted yet.
    pub fn new(row: usize, col: usize, is_hazard: bool) -> (cell: Cell)
        ensures
            cell == (Cell {
                row,
                col,
                is_hazard,
                adjacent_hazard_count: 0,
                is_hidden: true,
                is_flagged: false,
                triggered_loss: false,
            }),
    {
        Cell {
            row,
            col,
            is_hazard,
            adjacent_hazard_count: 0,
            is_hidden: true,
            is_flagged: false,
            triggered_loss: false,
        }
    }
}

} // verus!
