//! How a round stands: in progress, won or lost.
use vstd::prelude::*;
use crate::board::Board;
use crate::difficulty::Difficulty;
use crate::grid::{
    Grid, Tally, comes_before, inside, tally, tally_row, lemma_position, lemma_tally_row_take,
    lemma_tally_take,
};

verus! {

/// How a round stands.
#[derive(Clone, Copy, Debug, PartialEq, Eq, Structural)]
pub enum Outcome {
    /// Safe cells are still covered, and no hazard has been revealed.
    InProgress,
    /// Every safe cell is revealed, and no hazard is.
    Won,
    /// A hazard has been revealed.
    Lost,
}

/// Whether some hazard of the grid is revealed.
pub open spec fn hazard_revealed(g: Grid) -> bool {
    exists|r: int, c: int| inside(g, r, c) && (#[trigger] g[r][c]).is_hazard && !g[r][c].is_hidden
}

/// How a round of difficulty `d` stands on the grid `g`: lost once a
/// hazard is revealed; else won once as many safe cells are revealed as
/// the difficulty leaves free of hazards; else in progress.
pub open spec fn outcome_of(g: Grid, d: Difficulty) -> Outcome {
    if hazard_revealed(g) {
        Outcome::Lost
    } else if tally(g, Tally::RevealedSafe) == d.safe_count() {
        Outcome::Won
    } else {
        Outcome::InProgress
    }
}

/// Whether some hazard that comes before `(at_row, at_col)` is revealed.
spec fn hazard_revealed_before(g: Grid, at_row: int, at_col: int) -> bool {
    exists|r: int, c: int|
        inside(g, r, c) && comes_before(r, c, at_row, at_col) && (#[trigger] g[r][c]).is_hazard
            && !g[r][c].is_hidden
}

impl Board {
    /// Tells whether some hazard is revealed.
    pub fn hazard_revealed(&self) -> (found: bool)
        requires
            self.wf(),
        ensures
            found == hazard_revealed(self@),
    {
        let n = self.side_length();
        let mut row: usize = 0;
        while row < n
            invariant
                self.wf(),
                n == self.spec_difficulty().side_length,
                row <= n,
                !hazard_revealed_before(self@, row as int, 0),
            decreases n - row,
        {
            let mut col: usize = 0;
            while col < n
                invariant
                    self.wf(),
                    n == self.spec_difficulty().side_length,
                    row < n,
                    col <= n,
                    !hazard_revealed_before(self@, row as int, col as int),
                decreases n - col,
            {
                let cell = self.cell_at(row, col);
                if cell.is_hazard && !cell.is_hidden {
                    return true;
                }
                col += 1;
            }
            row += 1;
        }
        false
    }

    /// Counts the cells that are revealed and are no hazard.
    pub fn revealed_safe_count(&self) -> (count: usize)
        requires
            self.wf(),
        ensures
            count == tally(self@, Tally::RevealedSafe),
    {
        let n = self.side_length();
        let mut count: usize = 0;
        let mut row: usize = 0;
        while row < n
            invariant
                self.wf(),
                n == self.spec_difficulty().side_length,
                row <= n,
                count == tally(self@.take(row as int), Tally::RevealedSafe),
                count <= row * n <= n * n,
            decreases n - row,
        {
            let ghost above = count;
            let mut col: usize = 0;
            proof {
                lemma_position(n as int, row as int, 0);
            }
            while col < n
                invariant
                    self.wf(),
                    n == self.spec_difficulty().side_length,
                    row < n,
                    col <= n,
                    count == above + tally_row(self@[row as int].take(col as int), Tally::RevealedSafe),
                    above <= row * n,
                    row * n + n <= n * n,
                    count <= row * n + col,
                decreases n - col,
            {
                let cell = self.cell_at(row, col);
                proof {
                    lemma_tally_row_take(self@[row as int], col as int, Tally::RevealedSafe);
                }
                if !cell.is_hidden && !cell.is_hazard {
                    count += 1;
                }
                col += 1;
            }
            proof {
                assert(self@[row as int].take(n as int) =~= self@[row as int]);
                lemma_tally_take(self@, row as int, Tally::RevealedSafe);
            }
            row += 1;
        }
        assert(self@.take(n as int) =~= self@);
        count
    }

    /// Tells how the round stands on this board.
    pub fn outcome(&self) -> (outcome: Outcome)
        requires
            self.wf(),
        ensures
            outcome == outcome_of(self@, self.spec_difficulty()),
    {
        if self.hazard_revealed() {
            Outcome::Lost
        } else {
            let n = self.side_length();
            let safe = n * n - self.difficulty().hazard_count;
            if self.revealed_safe_count() == safe {
                Outcome::Won
            } else {
                Outcome::InProgress
            }
        }
    }
}

} // verus!
