//! Counting the hazards around each cell.
use vstd::prelude::*;
use crate::board::Board;
use crate::cell::Cell;
use crate::grid::{Grid, comes_before, counts_valid, hazard_at, inside, neighbor_hazards};

verus! {

/// The cell `cell` with `count` as the number of hazards around it.
pub open spec fn with_count(cell: Cell, count: int) -> Cell {
    Cell { adjacent_hazard_count: count as u8, ..cell }
}

/// The grid with the hazards around every cell counted and stored in the
/// cell.
pub open spec fn with_counts(g: Grid) -> Grid {
    Seq::new(
        g.len(),
        |r: int| Seq::new(g[r].len(), |c: int| with_count(g[r][c], neighbor_hazards(g, r, c))),
    )
}

/// What holds while the counting pass over the grid `g0` stands at
/// `(at_row, at_col)`, `g` being the grid so far.
spec fn counting(g0: Grid, g: Grid, at_row: int, at_col: int) -> bool {
    &&& g.len() == g0.len()
    &&& forall|r: int, c: int|
        inside(g0, r, c) ==> #[trigger] g[r][c] == if comes_before(r, c, at_row, at_col) {
            with_count(g0[r][c], neighbor_hazards(g0, r, c))
        } else {
            g0[r][c]
        }
}

impl Board {
    /// Counts the hazards around every cell and stores each count in its
    /// cell: the cells above, below, beside and diagonally next to it, as
    /// far as the grid has them. Nothing else about a cell changes, so a
    /// second pass changes nothing at all.
    pub fn calculate_rust_count(&mut self)
        requires
            old(self).wf(),
        ensures
            final(self).wf(),
            final(self).spec_difficulty() == old(self).spec_difficulty(),
            final(self)@ == with_counts(old(self)@),
            counts_valid(final(self)@),
    {
        let n = self.side_length();
        let ghost g0 = self@;
        let mut row: usize = 0;
        while row < n
            invariant
                self.wf(),
                self.spec_difficulty() == old(self).spec_difficulty(),
                n == self.spec_difficulty().side_length,
                g0 == old(self)@,
                row <= n,
                counting(g0, self@, row as int, 0),
            decreases n - row,
        {
            let mut col: usize = 0;
            while col < n
                invariant
                    self.wf(),
                    self.spec_difficulty() == old(self).spec_difficulty(),
                    n == self.spec_difficulty().side_length,
                    g0 == old(self)@,
                    row < n,
                    col <= n,
                    counting(g0, self@, row as int, col as int),
                decreases n - col,
            {
                let count = self.count_around(row, col);
                let cell = self.cell_at(row, col);
                proof {
                    assert(neighbor_hazards(self@, row as int, col as int) == neighbor_hazards(
                        g0,
                        row as int,
                        col as int,
                    ));
                }
                self.replace_cell(row, col, Cell { adjacent_hazard_count: count, ..cell });
                col += 1;
            }
            row += 1;
        }
        proof {
            assert forall|r: int, c: int| inside(self@, r, c) implies (
            #[trigger] self@[r][c]).adjacent_hazard_count == neighbor_hazards(self@, r, c) by {}
            assert(self@ =~~= with_counts(g0));
        }
    }

    /// One for a hazard at `(row, col)`, zero for any other cell.
    fn hazard_weight(&self, row: usize, col: usize) -> (k: u8)
        requires
            self.wf(),
            inside(self@, row as int, col as int),
        ensures
            k == hazard_at(self@, row as int, col as int),
    {
        if self.cell_at(row, col).is_hazard {
            1
        } else {
            0
        }
    }

    /// The number of hazards around `(row, col)`, the edges of the grid
    /// cutting the neighbourhood short.
    fn count_around(&self, row: usize, col: usize) -> (count: u8)
        requires
            self.wf(),
            inside(self@, row as int, col as int),
        ensures
            count == neighbor_hazards(self@, row as int, col as int),
            count <= 8,
    {
        let n = self.side_length();
        let mut count: u8 = 0;
        if row > 0 {
            if col > 0 {
                count += self.hazard_weight(row - 1, col - 1);
            }
            count += self.hazard_weight(row - 1, col);
            if col + 1 < n {
                count += self.hazard_weight(row - 1, col + 1);
            }
        }
        if col > 0 {
            count += self.hazard_weight(row, col - 1);
        }
        if col + 1 < n {
            count += self.hazard_weight(row, col + 1);
        }
        if row + 1 < n {
            if col > 0 {
                count += self.hazard_weight(row + 1, col - 1);
            }
            count += self.hazard_weight(row + 1, col);
            if col + 1 < n {
                count += self.hazard_weight(row + 1, col + 1);
            }
        }
        count
    }
}

} // verus!
