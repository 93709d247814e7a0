//! What the player does to a board: flagging a cell and revealing one.
//!
//! A reveal takes one of two courses. On a safe cell it starts a cascade.
//! On a hazard it loses the round: the hazard is marked, and the hazards
//! are put on show. A flag blocks both: no reveal changes a flag, and a
//! flagged cell stays covered, a flagged hazard at the end of a round too.
//! Where the hazards lie is known by then from what the session shows.
use vstd::prelude::*;
use crate::board::Board;
use crate::cascade::{cascade, uncover};
use crate::cell::Cell;
use crate::error::EngineError;
use crate::grid::{Grid, comes_before, inside, set_cell};

verus! {

/// What came of revealing a cell.
#[derive(Clone, Copy, Debug, PartialEq, Eq, Structural)]
pub enum RevealOutcome {
    /// The cell was revealed already, or flagged: nothing changed.
    Ignored,
    /// The cell was safe: it is revealed, and so is what the cascade
    /// reached from it.
    Safe,
    /// The cell was a hazard: it has lost the round, and the hazards
    /// without a flag are on show.
    Hazard,
}

/// The cell `cell` after the player has asked to flag it: a covered cell
/// gains or loses its flag, a revealed cell stays as it is.
pub open spec fn flag_toggled(cell: Cell) -> Cell {
    if cell.is_hidden {
        Cell { is_flagged: !cell.is_flagged, ..cell }
    } else {
        cell
    }
}

/// The hazard `cell` after the player has revealed it: it is uncovered,
/// and marked as the one that lost the round.
pub open spec fn blown(cell: Cell) -> Cell {
    Cell { is_hidden: false, triggered_loss: true, ..cell }
}

/// The grid with its hazards on show: every hazard that carries no flag is
/// revealed. A flagged hazard stays covered and flagged, and every cell
/// that is no hazard stays as it was.
pub open spec fn hazards_shown(g: Grid) -> Grid {
    Seq::new(
        g.len(),
        |r: int|
            Seq::new(
                g[r].len(),
                |c: int|
                    if g[r][c].is_hazard && !g[r][c].is_flagged {
                        uncover(g[r][c])
                    } else {
                        g[r][c]
                    },
            ),
    )
}

/// The grid after the player has revealed the hazard at `(r, c)`: that
/// cell has lost the round, and the hazards are on show.
pub open spec fn detonated(g: Grid, r: int, c: int) -> Grid {
    hazards_shown(set_cell(g, r, c, blown(g[r][c])))
}

/// Whether the cell is a hazard that a reveal sets off: one that is still
/// covered and carries no flag.
pub open spec fn live_hazard(cell: Cell) -> bool {
    cell.is_hazard && cell.is_hidden && !cell.is_flagged
}

/// The grid after a flood fill started at `(r, c)`: a covered hazard
/// without a flag is set off; from any other cell the cascade takes its
/// course, which changes nothing where the cell is flagged or a hazard.
pub open spec fn flooded(g: Grid, r: int, c: int) -> Grid {
    if live_hazard(g[r][c]) {
        detonated(g, r, c)
    } else {
        cascade(g, r, c)
    }
}

/// What comes of revealing the cell at `(r, c)`.
pub open spec fn reveal_outcome(g: Grid, r: int, c: int) -> RevealOutcome {
    if !g[r][c].is_hidden || g[r][c].is_flagged {
        RevealOutcome::Ignored
    } else if g[r][c].is_hazard {
        RevealOutcome::Hazard
    } else {
        RevealOutcome::Safe
    }
}

/// The grid after the player has revealed the cell at `(r, c)`.
pub open spec fn revealed(g: Grid, r: int, c: int) -> Grid {
    match reveal_outcome(g, r, c) {
        RevealOutcome::Ignored => g,
        RevealOutcome::Hazard => detonated(g, r, c),
        RevealOutcome::Safe => cascade(g, r, c),
    }
}

/// What holds while the pass that puts the hazards of the grid `g0` on
/// show stands at `(at_row, at_col)`, `g` being the grid so far.
spec fn showing(g0: Grid, g: Grid, at_row: int, at_col: int) -> bool {
    &&& g.len() == g0.len()
    &&& forall|r: int, c: int|
        inside(g0, r, c) ==> #[trigger] g[r][c] == if comes_before(r, c, at_row, at_col)
            && g0[r][c].is_hazard && !g0[r][c].is_flagged {
            uncover(g0[r][c])
        } else {
            g0[r][c]
        }
}

impl Board {
    /// Puts a flag on the covered cell at `(row, col)`, or takes its flag
    /// away. A revealed cell stays as it is, and so does every other cell.
    ///
    /// Fails with `OutOfBounds`, and changes nothing, when the grid has no
    /// cell at `(row, col)`.
    pub fn toggle_flag(&mut self, row: usize, col: usize) -> (res: Result<(), EngineError>)
        requires
            old(self).wf(),
        ensures
            final(self).wf(),
            final(self).spec_difficulty() == old(self).spec_difficulty(),
            inside(old(self)@, row as int, col as int) ==> res == Ok::<(), EngineError>(())
                && final(self)@ == set_cell(
                old(self)@,
                row as int,
                col as int,
                flag_toggled(old(self)@[row as int][col as int]),
            ),
            !inside(old(self)@, row as int, col as int) ==> res == Err::<(), EngineError>(
                EngineError::OutOfBounds,
            ) && final(self)@ == old(self)@,
    {
        let n = self.side_length();
        if row >= n || col >= n {
            return Err(EngineError::OutOfBounds);
        }
        let cell = self.cell_at(row, col);
        if cell.is_hidden {
            self.replace_cell(row, col, Cell { is_flagged: !cell.is_flagged, ..cell });
        } else {
            assert(self@ =~~= set_cell(self@, row as int, col as int, cell));
        }
        Ok(())
    }

    /// Puts the hazards on show, for the end of a round: every hazard that
    /// carries no flag is revealed. A flag blocks this as it blocks any
    /// reveal: a flagged hazard stays covered and flagged. No cell that is
    /// no hazard changes.
    pub fn reveal_all_hazards(&mut self)
        requires
            old(self).wf(),
        ensures
            final(self).wf(),
            final(self).spec_difficulty() == old(self).spec_difficulty(),
            final(self)@ == hazards_shown(old(self)@),
    {
        let n = self.side_length();
        let ghost g0 = self@;
        let mut row: usize = 0;
        while row < n
            invariant
                self.wf(),
                self.spec_difficulty() == old(self).spec_difficulty(),
                n == self.spec_difficulty().side_length,
                g0 == old(self)@,
                row <= n,
                showing(g0, self@, row as int, 0),
            decreases n - row,
        {
            let mut col: usize = 0;
            while col < n
                invariant
                    self.wf(),
                    self.spec_difficulty() == old(self).spec_difficulty(),
                    n == self.spec_difficulty().side_length,
                    g0 == old(self)@,
                    row < n,
                    col <= n,
                    showing(g0, self@, row as int, col as int),
                decreases n - col,
            {
                let cell = self.cell_at(row, col);
                if cell.is_hazard && !cell.is_flagged {
                    self.replace_cell(row, col, Cell { is_hidden: false, ..cell });
                }
                col += 1;
            }
            row += 1;
        }
        assert(self@ =~~= hazards_shown(g0));
    }

    /// Reveals the cell at `(row, col)` and lets the reveal take its
    /// course, whichever it is. A covered hazard without a flag loses the
    /// round: it is uncovered and marked as the one that did, and every
    /// other hazard without a flag is put on show; flagged hazards stay
    /// covered and flagged, and no safe cell changes. From any other cell
    /// a cascade starts, which does nothing where the cell is flagged or a
    /// hazard.
    ///
    /// Fails with `OutOfBounds`, and changes nothing, when the grid has no
    /// cell at `(row, col)`.
    pub fn flood_fill(&mut self, row: usize, col: usize) -> (res: Result<(), EngineError>)
        requires
            old(self).wf(),
        ensures
            final(self).wf(),
            final(self).spec_difficulty() == old(self).spec_difficulty(),
            inside(old(self)@, row as int, col as int) ==> res == Ok::<(), EngineError>(())
                && final(self)@ == flooded(old(self)@, row as int, col as int),
            !inside(old(self)@, row as int, col as int) ==> res == Err::<(), EngineError>(
                EngineError::OutOfBounds,
            ) && final(self)@ == old(self)@,
    {
        let n = self.side_length();
        if row >= n || col >= n {
            return Err(EngineError::OutOfBounds);
        }
        let cell = self.cell_at(row, col);
        if cell.is_hazard && cell.is_hidden && !cell.is_flagged {
            self.detonate(row, col);
            Ok(())
        } else {
            self.cascade_reveal(row, col)
        }
    }

    /// Reveals the cell at `(row, col)` for the player.
    ///
    /// A cell that is revealed already, or flagged, is left alone. A
    /// hazard loses the round: it is marked as the one that did, and the
    /// hazards without a flag are put on show. Any other cell starts a
    /// cascade. No reveal changes a flag or uncovers a flagged cell.
    ///
    /// Fails with `OutOfBounds`, and changes nothing, when the grid has no
    /// cell at `(row, col)`.
    pub fn reveal_cell(&mut self, row: usize, col: usize) -> (res: Result<RevealOutcome, EngineError>)
        requires
            old(self).wf(),
        ensures
            final(self).wf(),
            final(self).spec_difficulty() == old(self).spec_difficulty(),
            inside(old(self)@, row as int, col as int) ==> res == Ok::<
                RevealOutcome,
                EngineError,
            >(reveal_outcome(old(self)@, row as int, col as int)) && final(self)@ == revealed(
                old(self)@,
                row as int,
                col as int,
            ),
            !inside(old(self)@, row as int, col as int) ==> res == Err::<
                RevealOutcome,
                EngineError,
            >(EngineError::OutOfBounds) && final(self)@ == old(self)@,
    {
        let n = self.side_length();
        if row >= n || col >= n {
            return Err(EngineError::OutOfBounds);
        }
        let cell = self.cell_at(row, col);
        if !cell.is_hidden || cell.is_flagged {
            Ok(RevealOutcome::Ignored)
        } else if cell.is_hazard {
            self.detonate(row, col);
            Ok(RevealOutcome::Hazard)
        } else {
            match self.cascade_reveal(row, col) {
                Ok(()) => Ok(RevealOutcome::Safe),
                Err(e) => Err(e),
            }
        }
    }

    /// Sets off the covered, unflagged hazard at `(row, col)`: marks it as
    /// the one that lost the round and puts the hazards on show.
    fn detonate(&mut self, row: usize, col: usize)
        requires
            old(self).wf(),
            inside(old(self)@, row as int, col as int),
            live_hazard(old(self)@[row as int][col as int]),
        ensures
            final(self).wf(),
            final(self).spec_difficulty() == old(self).spec_difficulty(),
            final(self)@ == detonated(old(self)@, row as int, col as int),
    {
        let cell = self.cell_at(row, col);
        self.replace_cell(row, col, Cell { is_hidden: false, triggered_loss: true, ..cell });
        self.reveal_all_hazards();
    }
}

} // verus!
