//! A round of the game: a board, the rule that the first reveal is safe,
//! and the standing of the round.
use vstd::prelude::*;
use crate::board::Board;
use crate::cascade::cascade;
use crate::cell::Cell;
use crate::difficulty::Difficulty;
use crate::error::EngineError;
use crate::grid::{
    Grid, Tally, counts_valid, inside, set_cell, tally, tally_row, untouched, well_formed,
    lemma_tally_set_cell,
};
use crate::laws::lemma_safe_reveal_reveals_no_hazard;
use crate::moves::{flag_toggled, revealed};
use crate::outcome::{Outcome, hazard_revealed, outcome_of};

verus! {

/// How often a session draws a whole new board, hoping that the cell of
/// the first reveal comes out clear, before it draws one that is bound to
/// keep that cell clear.
pub const MAX_REDRAWS: usize = 1024;

/// What a user interface may know of a cell.
#[derive(Clone, Copy, Debug, PartialEq, Eq, Structural)]
pub struct CellView {
    /// Whether the cell is still covered.
    pub is_hidden: bool,
    /// Whether the cell carries a flag.
    pub is_flagged: bool,
    /// Whether the cell is a hazard, as far as that may be known: of a
    /// revealed cell always, of a covered one once the round is over.
    pub is_hazard_visible: bool,
    /// The number of hazards around the cell.
    pub adjacent_hazard_count: u8,
    /// Whether this is the hazard that lost the round.
    pub triggered_loss: bool,
}

/// What a user interface may know of `cell` while the round stands at
/// `outcome`.
pub open spec fn shown(cell: Cell, outcome: Outcome) -> CellView {
    CellView {
        is_hidden: cell.is_hidden,
        is_flagged: cell.is_flagged,
        is_hazard_visible: cell.is_hazard && (!cell.is_hidden || outcome != Outcome::InProgress),
        adjacent_hazard_count: cell.adjacent_hazard_count,
        triggered_loss: cell.triggered_loss,
    }
}

/// A grid as a session first lays it out: a well-formed board of the
/// difficulty, nothing revealed or flagged, the hazards around each cell
/// counted.
pub open spec fn fresh(g: Grid, d: Difficulty) -> bool {
    &&& well_formed(g, d)
    &&& untouched(g)
    &&& counts_valid(g)
}

/// A round of the game.
#[derive(Debug, Clone)]
pub struct Session {
    board: Board,
    difficulty: Difficulty,
    first_click_taken: bool,
    outcome: Outcome,
}

/// A fresh grid puts a round in progress.
proof fn lemma_fresh_in_progress(g: Grid, d: Difficulty)
    requires
        fresh(g, d),
    ensures
        outcome_of(g, d) == Outcome::InProgress,
        !hazard_revealed(g),
{
    lemma_none_revealed(g);
}

/// A grid whose cells are all covered holds no revealed safe cell.
proof fn lemma_none_revealed(g: Grid)
    requires
        forall|r: int, c: int| 0 <= r < g.len() && 0 <= c < g[r].len() ==> (#[trigger] g[r][c]).is_hidden,
    ensures
        tally(g, Tally::RevealedSafe) == 0,
    decreases g.len(),
{
    if g.len() > 0 {
        assert forall|r: int, c: int|
            0 <= r < g.drop_last().len() && 0 <= c < g.drop_last()[r].len() implies (
        #[trigger] g.drop_last()[r][c]).is_hidden by {}
        lemma_none_revealed(g.drop_last());
        lemma_row_none_revealed(g.last());
    }
}

/// A row whose cells are all covered holds no revealed safe cell.
proof fn lemma_row_none_revealed(row: Seq<Cell>)
    requires
        forall|c: int| 0 <= c < row.len() ==> (#[trigger] row[c]).is_hidden,
    ensures
        tally_row(row, Tally::RevealedSafe) == 0,
    decreases row.len(),
{
    if row.len() > 0 {
        assert forall|c: int| 0 <= c < row.drop_last().len() implies (
        #[trigger] row.drop_last()[c]).is_hidden by {}
        lemma_row_none_revealed(row.drop_last());
    }
}

/// A flag put on or taken off leaves the round standing as it stood.
proof fn lemma_flag_keeps_outcome(g: Grid, d: Difficulty, r: int, c: int)
    requires
        well_formed(g, d),
        inside(g, r, c),
    ensures
        outcome_of(set_cell(g, r, c, flag_toggled(g[r][c])), d) == outcome_of(g, d),
{
    let after = set_cell(g, r, c, flag_toggled(g[r][c]));
    lemma_tally_set_cell(g, r, c, flag_toggled(g[r][c]), Tally::RevealedSafe);
    if hazard_revealed(g) {
        let (i, j) = choose|i: int, j: int|
            inside(g, i, j) && (#[trigger] g[i][j]).is_hazard && !g[i][j].is_hidden;
        assert(after[i][j].is_hazard && !after[i][j].is_hidden);
    }
}

impl Session {
    /// The board that the round is played on.
    pub closed spec fn spec_board(&self) -> &Board {
        &self.board
    }

    /// The difficulty of the round.
    pub closed spec fn spec_difficulty(&self) -> Difficulty {
        self.difficulty
    }

    /// Whether the first reveal of the round has been made.
    pub closed spec fn spec_first_click_taken(&self) -> bool {
        self.first_click_taken
    }

    /// How the round stands.
    pub closed spec fn spec_outcome(&self) -> Outcome {
        self.outcome
    }

    /// The invariant of every session that this module hands out: the
    /// board is a well-formed board of the session's difficulty, and the
    /// round stands as the board says.
    pub open spec fn wf(&self) -> bool {
        &&& self.spec_board().wf()
        &&& self.spec_board().spec_difficulty() == self.spec_difficulty()
        &&& self.spec_outcome() == outcome_of(self.spec_board()@, self.spec_difficulty())
    }

    /// A round on a board newly drawn for the difficulty, the hazards
    /// around each cell counted.
    ///
    /// Fails with `InvalidDifficulty` exactly when the difficulty is not
    /// valid. The number of cells must fit in a `usize`.
    pub fn new(difficulty: Difficulty) -> (res: Result<Session, EngineError>)
        requires
            difficulty.fits(),
        ensures
            match res {
                Ok(session) => {
                    &&& difficulty.valid()
                    &&& session.wf()
                    &&& session.spec_difficulty() == difficulty
                    &&& fresh(session.spec_board()@, difficulty)
                    &&& !session.spec_first_click_taken()
                    &&& session.spec_outcome() == Outcome::InProgress
                },
                Err(e) => e == EngineError::InvalidDifficulty && !difficulty.valid(),
            },
    {
        match Board::new(difficulty) {
            Ok(mut board) => {
                board.calculate_rust_count();
                proof {
                    lemma_fresh_in_progress(board@, difficulty);
                }
                Ok(
                    Session {
                        board,
                        difficulty,
                        first_click_taken: false,
                        outcome: Outcome::InProgress,
                    },
                )
            },
            Err(e) => Err(e),
        }
    }

    /// A round on the given board, as if no reveal had been made in it
    /// yet. The round stands as the board says.
    pub fn from_board(board: Board) -> (session: Session)
        requires
            board.wf(),
        ensures
            session.wf(),
            *session.spec_board() == board,
            session.spec_difficulty() == board.spec_difficulty(),
            !session.spec_first_click_taken(),
    {
        let difficulty = board.difficulty();
        let outcome = board.outcome();
        Session { board, difficulty, first_click_taken: false, outcome }
    }

    /// Starts the round over on a board newly drawn for the difficulty.
    ///
    /// Fails with `InvalidDifficulty`, and changes nothing, exactly when
    /// the difficulty is not valid. The number of cells must fit in a
    /// `usize`.
    pub fn reset(&mut self, difficulty: Difficulty) -> (res: Result<(), EngineError>)
        requires
            old(self).wf(),
            difficulty.fits(),
        ensures
            final(self).wf(),
            match res {
                Ok(_) => {
                    &&& difficulty.valid()
                    &&& final(self).spec_difficulty() == difficulty
                    &&& fresh(final(self).spec_board()@, difficulty)
                    &&& !final(self).spec_first_click_taken()
                    &&& final(self).spec_outcome() == Outcome::InProgress
                },
                Err(e) => {
                    &&& e == EngineError::InvalidDifficulty
                    &&& !difficulty.valid()
                    &&& *final(self) == *old(self)
                },
            },
    {
        match Session::new(difficulty) {
            Ok(session) => {
                *self = session;
                Ok(())
            },
            Err(e) => Err(e),
        }
    }

    /// The board of the round, once the round is over. While the round is
    /// in progress the board stays with the session, for it tells where
    /// the hazards lie; [`Session::cell`] tells what a player may know.
    pub fn board(&self) -> (board: Option<&Board>)
        ensures
            board == if self.spec_outcome() == Outcome::InProgress {
                None::<&Board>
            } else {
                Some(self.spec_board())
            },
    {
        match self.outcome {
            Outcome::InProgress => None,
            _ => Some(&self.board),
        }
    }

    #[verifier::when_used_as_spec(spec_difficulty)]
    pub fn difficulty(&self) -> (difficulty: Difficulty)
        ensures
            difficulty == self.spec_difficulty(),
    {
        self.difficulty
    }

    #[verifier::when_used_as_spec(spec_first_click_taken)]
    pub fn first_click_taken(&self) -> (taken: bool)
        ensures
            taken == self.spec_first_click_taken(),
    {
        self.first_click_taken
    }

    #[verifier::when_used_as_spec(spec_outcome)]
    pub fn outcome(&self) -> (outcome: Outcome)
        ensures
            outcome == self.spec_outcome(),
    {
        self.outcome
    }

    /// What a user interface may know of the cell at `(row, col)`, or
    /// `OutOfBounds` where the grid has none.
    pub fn cell(&self, row: usize, col: usize) -> (res: Result<CellView, EngineError>)
        requires
            self.wf(),
        ensures
            inside(self.spec_board()@, row as int, col as int) ==> res == Ok::<
                CellView,
                EngineError,
            >(shown(self.spec_board()@[row as int][col as int], self.spec_outcome())),
            !inside(self.spec_board()@, row as int, col as int) ==> res == Err::<
                CellView,
                EngineError,
            >(EngineError::OutOfBounds),
    {
        match self.board.cell(row, col) {
            Ok(cell) => {
                let over = match self.outcome {
                    Outcome::InProgress => false,
                    _ => true,
                };
                Ok(
                    CellView {
                        is_hidden: cell.is_hidden,
                        is_flagged: cell.is_flagged,
                        is_hazard_visible: cell.is_hazard && (!cell.is_hidden || over),
                        adjacent_hazard_count: cell.adjacent_hazard_count,
                        triggered_loss: cell.triggered_loss,
                    },
                )
            },
            Err(e) => Err(e),
        }
    }

    /// Puts a flag on the covered cell at `(row, col)`, or takes its flag
    /// away. The round stands as it stood.
    ///
    /// Fails with `OutOfBounds`, and changes nothing, when the grid has no
    /// cell at `(row, col)`.
    pub fn toggle_flag(&mut self, row: usize, col: usize) -> (res: Result<(), EngineError>)
        requires
            old(self).wf(),
        ensures
            final(self).wf(),
            final(self).spec_difficulty() == old(self).spec_difficulty(),
            final(self).spec_first_click_taken() == old(self).spec_first_click_taken(),
            final(self).spec_outcome() == old(self).spec_outcome(),
            inside(old(self).spec_board()@, row as int, col as int) ==> res == Ok::<
                (),
                EngineError,
            >(()) && final(self).spec_board()@ == set_cell(
                old(self).spec_board()@,
                row as int,
                col as int,
                flag_toggled(old(self).spec_board()@[row as int][col as int]),
            ),
            !inside(old(self).spec_board()@, row as int, col as int) ==> res == Err::<
                (),
                EngineError,
            >(EngineError::OutOfBounds) && *final(self) == *old(self),
    {
        let n = self.difficulty.side_length;
        if row >= n || col >= n {
            return Err(EngineError::OutOfBounds);
        }
        proof {
            lemma_flag_keeps_outcome(self.board@, self.difficulty, row as int, col as int);
        }
        self.board.toggle_flag(row, col)
    }

    /// Reveals the cell at `(row, col)` for the player, and settles how
    /// the round stands afterwards.
    ///
    /// Once the round is won or lost, nothing changes any more. While it
    /// is in progress, the board changes as [`Board::reveal_cell`] says,
    /// with one exception: the first reveal of a round never meets a
    /// hazard. Where it would, the session first takes a new board of the
    /// same difficulty on which the cell is clear, and reveals the cell on
    /// that one.
    ///
    /// Fails with `OutOfBounds`, and changes nothing, when the grid has no
    /// cell at `(row, col)`.
    pub fn reveal_cell(&mut self, row: usize, col: usize) -> (res: Result<(), EngineError>)
        requires
            old(self).wf(),
        ensures
            final(self).wf(),
            final(self).spec_difficulty() == old(self).spec_difficulty(),
            !inside(old(self).spec_board()@, row as int, col as int) ==> res == Err::<
                (),
                EngineError,
            >(EngineError::OutOfBounds) && *final(self) == *old(self),
            inside(old(self).spec_board()@, row as int, col as int) ==> res == Ok::<
                (),
                EngineError,
            >(()),
            inside(old(self).spec_board()@, row as int, col as int) && old(self).spec_outcome()
                != Outcome::InProgress ==> *final(self) == *old(self),
            inside(old(self).spec_board()@, row as int, col as int) && old(self).spec_outcome()
                == Outcome::InProgress ==> {
                &&& final(self).spec_first_click_taken()
                &&& if old(self).spec_first_click_taken()
                    || !old(self).spec_board()@[row as int][col as int].is_hazard {
                    final(self).spec_board()@ == revealed(
                        old(self).spec_board()@,
                        row as int,
                        col as int,
                    )
                } else {
                    exists|g: Grid|
                        {
                            &&& #[trigger] fresh(g, old(self).spec_difficulty())
                            &&& !g[row as int][col as int].is_hazard
                            &&& final(self).spec_board()@ == cascade(g, row as int, col as int)
                        }
                }
                &&& !old(self).spec_first_click_taken() ==> final(self).spec_outcome()
                    != Outcome::Lost
            },
    {
        let n = self.difficulty.side_length;
        if row >= n || col >= n {
            return Err(EngineError::OutOfBounds);
        }
        match self.outcome {
            Outcome::InProgress => {},
            _ => {
                return Ok(());
            },
        }
        let first = !self.first_click_taken;
        if first && self.board.cell_at(row, col).is_hazard {
            match Session::draw_clear_at(self.difficulty, row, col) {
                Ok(board) => {
                    self.board = board;
                },
                Err(e) => {
                    return Err(e);
                },
            }
        }
        proof {
            if first {
                lemma_safe_reveal_reveals_no_hazard(self.board@, row as int, col as int);
            }
        }
        match self.board.reveal_cell(row, col) {
            Ok(_) => {},
            Err(e) => {
                return Err(e);
            },
        }
        self.first_click_taken = true;
        self.outcome = self.board.outcome();
        Ok(())
    }

    /// Draws boards of the difficulty, each with its hazards counted,
    /// until one comes out with the cell at `(row, col)` clear. After
    /// `MAX_REDRAWS` draws that did not, the board is drawn among the
    /// layouts that keep the cell clear, which is how the boards of the
    /// earlier draws are distributed among those that do.
    fn draw_clear_at(difficulty: Difficulty, row: usize, col: usize) -> (res: Result<
        Board,
        EngineError,
    >)
        requires
            difficulty.valid(),
            difficulty.fits(),
            row < difficulty.side_length,
            col < difficulty.side_length,
        ensures
            res is Ok,
            res.unwrap().wf(),
            res.unwrap().spec_difficulty() == difficulty,
            fresh(res.unwrap()@, difficulty),
            !res.unwrap()@[row as int][col as int].is_hazard,
    {
        let mut draws: usize = 0;
        while draws < MAX_REDRAWS
            invariant
                difficulty.valid(),
                difficulty.fits(),
                row < difficulty.side_length,
                col < difficulty.side_length,
            decreases MAX_REDRAWS - draws,
        {
            let mut board = Board::new(difficulty)?;
            if !board.cell_at(row, col).is_hazard {
                board.calculate_rust_count();
                return Ok(board);
            }
            draws += 1;
        }
        let mut board = Board::new_avoiding(difficulty, row, col)?;
        board.calculate_rust_count();
        Ok(board)
    }
}

} // verus!
