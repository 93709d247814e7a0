//! How large a board is and how many hazards it hides.
use vstd::prelude::*;

verus! {

/// The size of a square grid and the number of hazards hidden in it.
#[derive(Clone, Copy, Debug, PartialEq, Eq, Structural)]
pub struct Difficulty {
    /// How many cells of the grid are hazards.
    pub hazard_count: usize,
    /// How many cells the grid has along each side.
    pub side_length: usize,
}

impl Difficulty {
    /// The number of cells of the grid.
    pub open spec fn cell_count(self) -> nat {
        (self.side_length * self.side_length) as nat
    }

    /// A difficulty is valid when at least one cell is left free of hazards.
    pub open spec fn valid(self) -> bool {
        self.hazard_count < self.cell_count()
    }

    /// Whether the number of cells can be held in a `usize`.
    pub open spec fn fits(self) -> bool {
        self.cell_count() <= usize::MAX
    }

    /// The number of cells that are not hazards.
    pub open spec fn safe_count(self) -> int {
        self.cell_count() - self.hazard_count
    }

    pub fn new(hazard_count: usize, side_length: usize) -> (d: Difficulty)
        ensures
            d.hazard_count == hazard_count,
            d.side_length == side_length,
    {
        Difficulty { hazard_count, side_length }
    }

    /// Tells whether the difficulty is valid. A grid too large to count in
    /// a `usize` has more cells than any hazard count.
    pub fn is_valid(&self) -> (ok: bool)
        ensures
            ok == self.valid(),
    {
        match self.side_length.checked_mul(self.side_length) {
            Some(cells) => self.hazard_count < cells,
            None => true,
        }
    }

    /// Tells whether the number of cells can be held in a `usize`.
    pub fn is_representable(&self) -> (ok: bool)
        ensures
            ok == self.fits(),
    {
        self.side_length.checked_mul(self.side_length).is_some()
    }
}

} // verus!
