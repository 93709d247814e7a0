//! The board: a square grid of cells, built from a difficulty, on which
//! cells are flagged and revealed.
use vstd::prelude::*;
use crate::cell::Cell;
use crate::difficulty::Difficulty;
use crate::error::EngineError;
use crate::grid::{
    Grid, Tally, cell_in_place, inside, set_cell, tally, tally_row, uncounted, untouched,
    well_formed, lemma_position, lemma_tally_set_cell,
};
use crate::markers::{
    hazards_in, shuffle_in_place, lemma_hazards_in_insert_clear, lemma_hazards_in_take,
    lemma_rearranged_keeps_hazards,
};

verus! {

/// A grid of cells together with the difficulty it was built from.
#[derive(Debug, Clone)]
pub struct Board {
    cells: Vec<Vec<Cell>>,
    difficulty: Difficulty,
}

/// The grid that a vector of rows stands for.
spec fn grid_of(rows: Seq<Vec<Cell>>) -> Grid {
    Seq::new(rows.len(), |r: int| rows[r]@)
}

/// The cell that a board starts out with at `(r, c)`.
pub open spec fn fresh_cell(r: int, c: int, is_hazard: bool) -> Cell {
    Cell {
        row: r as usize,
        col: c as usize,
        is_hazard,
        adjacent_hazard_count: 0,
        is_hidden: true,
        is_flagged: false,
        triggered_loss: false,
    }
}

/// The layout that every board starts from before it is shuffled:
/// `hazards` set markers followed by cleared ones, `len` in all.
pub open spec fn ordered_layout(len: nat, hazards: nat) -> Seq<bool> {
    Seq::new(len, |i: int| i < hazards)
}

/// Whether the grid is the board that the markers lay out row by row: the
/// cell at `(r, c)` is the fresh cell that marker `r * n + c` calls for,
/// `n` being the side of the grid.
pub open spec fn laid_out(g: Grid, markers: Seq<bool>) -> bool {
    forall|r: int, c: int|
        inside(g, r, c) ==> #[trigger] g[r][c] == fresh_cell(r, c, markers[r * g.len() + c])
}

impl View for Board {
    type V = Grid;

    /// The board as a grid: `self@[r][c]` is the cell in row `r`, column `c`.
    closed spec fn view(&self) -> Grid {
        grid_of(self.cells@)
    }
}

impl Board {
    /// The difficulty that the board was built from.
    pub closed spec fn spec_difficulty(&self) -> Difficulty {
        self.difficulty
    }

    /// The invariant of every board that this module hands out.
    pub open spec fn wf(&self) -> bool {
        well_formed(self@, self.spec_difficulty())
    }

    /// The grid is a square of the difficulty's side.
    spec fn shaped(&self) -> bool {
        &&& self.cells@.len() == self.difficulty.side_length
        &&& forall|r: int| 0 <= r < self.cells@.len() ==> (#[trigger] self.cells@[r])@.len() == self.cells@.len()
    }

    /// A well-formed board is held in as many rows, each of as many cells,
    /// as its side is long.
    proof fn lemma_shaped(&self)
        requires
            self.wf(),
        ensures
            self.shaped(),
    {
        assert forall|r: int| 0 <= r < self.cells@.len() implies (#[trigger] self.cells@[r])@.len()
            == self.cells@.len() by {
            assert(self@[r] == self.cells@[r]@);
        }
    }

    #[verifier::when_used_as_spec(spec_difficulty)]
    pub fn difficulty(&self) -> (d: Difficulty)
        ensures
            d == self.spec_difficulty(),
    {
        self.difficulty
    }

    /// The number of cells along each side.
    pub fn side_length(&self) -> (n: usize)
        ensures
            n == self.spec_difficulty().side_length,
    {
        self.difficulty.side_length
    }

    /// The cell at `(row, col)`, or `OutOfBounds` where the grid has none.
    pub fn cell(&self, row: usize, col: usize) -> (res: Result<Cell, EngineError>)
        requires
            self.wf(),
        ensures
            inside(self@, row as int, col as int) ==> res == Ok::<Cell, EngineError>(
                self@[row as int][col as int],
            ),
            !inside(self@, row as int, col as int) ==> res == Err::<Cell, EngineError>(
                EngineError::OutOfBounds,
            ),
    {
        proof {
            self.lemma_shaped();
        }
        if row < self.difficulty.side_length && col < self.difficulty.side_length {
            Ok(self.cells[row][col])
        } else {
            Err(EngineError::OutOfBounds)
        }
    }

    /// A board of the given difficulty, its hazards placed at random: a
    /// layout with exactly `difficulty.hazard_count` hazards is laid down in
    /// order, rearranged by a uniform shuffle, and laid out on the grid row
    /// by row. No cell is revealed or flagged, and the hazards around each
    /// cell are not counted yet.
    ///
    /// Fails with `InvalidDifficulty` exactly when the difficulty is not
    /// valid. The number of cells must fit in a `usize`.
    pub fn new(difficulty: Difficulty) -> (res: Result<Board, EngineError>)
        requires
            difficulty.fits(),
        ensures
            match res {
                Ok(board) => {
                    &&& difficulty.valid()
                    &&& board.wf()
                    &&& board.spec_difficulty() == difficulty
                    &&& tally(board@, Tally::Hazards) == difficulty.hazard_count
                    &&& untouched(board@)
                    &&& uncounted(board@)
                    &&& exists|markers: Seq<bool>|
                        {
                            &&& #[trigger] laid_out(board@, markers)
                            &&& markers.to_multiset() == ordered_layout(
                                difficulty.cell_count(),
                                difficulty.hazard_count as nat,
                            ).to_multiset()
                        }
                },
                Err(e) => e == EngineError::InvalidDifficulty && !difficulty.valid(),
            },
    {
        if !difficulty.is_valid() {
            return Err(EngineError::InvalidDifficulty);
        }
        let cells = difficulty.side_length * difficulty.side_length;
        let mut markers = Board::template(cells, difficulty.hazard_count);
        let ghost ordered = markers@;
        shuffle_in_place(&mut markers);
        proof {
            lemma_rearranged_keeps_hazards(ordered, markers@);
        }
        let board = Board::build(difficulty, &markers);
        assert(laid_out(board@, markers@));
        Ok(board)
    }

    /// A board of the given difficulty, its hazards placed at random among
    /// the cells other than `(row, col)`: a layout for all cells but one is
    /// shuffled, and the cell that must stay clear is put in at its place
    /// afterwards. Every layout that keeps the cell clear is as likely as
    /// any other, which is how boards drawn by [`Board::new`] are
    /// distributed among those that keep it clear.
    ///
    /// Fails with `InvalidDifficulty` exactly when the difficulty is not
    /// valid, and with `OutOfBounds` when it is valid and the grid has no
    /// cell at `(row, col)`. The number of cells must fit in a `usize`.
    pub fn new_avoiding(difficulty: Difficulty, row: usize, col: usize) -> (res: Result<
        Board,
        EngineError,
    >)
        requires
            difficulty.fits(),
        ensures
            match res {
                Ok(board) => {
                    &&& difficulty.valid()
                    &&& board.wf()
                    &&& board.spec_difficulty() == difficulty
                    &&& tally(board@, Tally::Hazards) == difficulty.hazard_count
                    &&& untouched(board@)
                    &&& uncounted(board@)
                    &&& inside(board@, row as int, col as int)
                    &&& !board@[row as int][col as int].is_hazard
                    &&& exists|markers: Seq<bool>|
                        {
                            &&& #[trigger] laid_out(board@, markers)
                            &&& markers.len() == difficulty.cell_count()
                            &&& markers.remove(row * difficulty.side_length + col).to_multiset()
                                == ordered_layout(
                                (difficulty.cell_count() - 1) as nat,
                                difficulty.hazard_count as nat,
                            ).to_multiset()
                        }
                },
                Err(e) => if difficulty.valid() {
                    &&& e == EngineError::OutOfBounds
                    &&& !(row < difficulty.side_length && col < difficulty.side_length)
                } else {
                    e == EngineError::InvalidDifficulty
                },
            },
    {
        if !difficulty.is_valid() {
            return Err(EngineError::InvalidDifficulty);
        }
        let n = difficulty.side_length;
        if row >= n || col >= n {
            return Err(EngineError::OutOfBounds);
        }
        proof {
            lemma_position(n as int, row as int, col as int);
        }
        let mut markers = Board::template(n * n - 1, difficulty.hazard_count);
        let ghost ordered = markers@;
        shuffle_in_place(&mut markers);
        let ghost shuffled = markers@;
        proof {
            lemma_rearranged_keeps_hazards(ordered, shuffled);
            lemma_hazards_in_insert_clear(shuffled, row * n + col);
        }
        markers.insert(row * n + col, false);
        let board = Board::build(difficulty, &markers);
        proof {
            assert(board@[row as int][col as int] == fresh_cell(
                row as int,
                col as int,
                markers@[row * n + col],
            ));
            assert(markers@.remove(row * n + col) =~= shuffled);
            assert(laid_out(board@, markers@));
        }
        Ok(board)
    }

    /// A board with its hazards where the markers say: the cell at
    /// `(r, c)` is a hazard exactly when the marker at `r * side_length + c`
    /// is set. The board's difficulty counts the markers that are set. No
    /// cell is revealed or flagged, and the hazards around each cell are
    /// not counted yet.
    ///
    /// Fails with `InvalidDifficulty` exactly when there is not one marker
    /// for each cell of the grid, or when every marker is set.
    pub fn from_markers(side_length: usize, markers: &Vec<bool>) -> (res: Result<
        Board,
        EngineError,
    >)
        ensures
            match res {
                Ok(board) => {
                    &&& markers@.len() == side_length * side_length
                    &&& hazards_in(markers@) < markers@.len()
                    &&& board.wf()
                    &&& board.spec_difficulty() == (Difficulty {
                        hazard_count: hazards_in(markers@) as usize,
                        side_length,
                    })
                    &&& untouched(board@)
                    &&& uncounted(board@)
                    &&& laid_out(board@, markers@)
                },
                Err(e) => {
                    &&& e == EngineError::InvalidDifficulty
                    &&& !(markers@.len() == side_length * side_length && hazards_in(markers@)
                        < markers@.len())
                },
            },
    {
        let len = markers.len();
        match side_length.checked_mul(side_length) {
            Some(cells) => {
                if len != cells {
                    return Err(EngineError::InvalidDifficulty);
                }
                let hazard_count = Board::count_markers(markers);
                if hazard_count >= cells {
                    return Err(EngineError::InvalidDifficulty);
                }
                Ok(Board::build(Difficulty { hazard_count, side_length }, markers))
            },
            None => Err(EngineError::InvalidDifficulty),
        }
    }

    /// The layout that every board starts from before it is shuffled.
    fn template(len: usize, hazards: usize) -> (markers: Vec<bool>)
        requires
            hazards <= len,
        ensures
            markers@ == ordered_layout(len as nat, hazards as nat),
            hazards_in(markers@) == hazards,
    {
        let mut markers: Vec<bool> = Vec::new();
        let mut i: usize = 0;
        while i < len
            invariant
                hazards <= len,
                i <= len,
                markers@.len() == i,
                hazards_in(markers@) == if i < hazards {
                    i
                } else {
                    hazards
                },
                forall|j: int| 0 <= j < i ==> #[trigger] markers@[j] == (j < hazards),
            decreases len - i,
        {
            proof {
                assert(markers@.push(i < hazards).drop_last() =~= markers@);
            }
            markers.push(i < hazards);
            i += 1;
        }
        markers
    }

    /// Counts the markers that are set.
    fn count_markers(markers: &Vec<bool>) -> (count: usize)
        ensures
            count == hazards_in(markers@),
    {
        let mut count: usize = 0;
        let mut i: usize = 0;
        while i < markers.len()
            invariant
                i <= markers@.len(),
                count <= i,
                count == hazards_in(markers@.take(i as int)),
            decreases markers@.len() - i,
        {
            proof {
                lemma_hazards_in_take(markers@, i as int);
            }
            if markers[i] {
                count += 1;
            }
            i += 1;
        }
        assert(markers@.take(markers@.len() as int) =~= markers@);
        count
    }

    /// The cell at a position of the grid.
    pub(crate) fn cell_at(&self, row: usize, col: usize) -> (cell: Cell)
        requires
            self.wf(),
            inside(self@, row as int, col as int),
        ensures
            cell == self@[row as int][col as int],
    {
        proof {
            self.lemma_shaped();
        }
        self.cells[row][col]
    }

    /// Puts `cell` in the place of the cell at `(row, col)`. The new cell
    /// must be in place there and be a hazard exactly if the old one was.
    pub(crate) fn replace_cell(&mut self, row: usize, col: usize, cell: Cell)
        requires
            old(self).wf(),
            inside(old(self)@, row as int, col as int),
            cell_in_place(cell, row as int, col as int),
            cell.is_hazard == old(self)@[row as int][col as int].is_hazard,
        ensures
            final(self).wf(),
            final(self).spec_difficulty() == old(self).spec_difficulty(),
            final(self)@ == set_cell(old(self)@, row as int, col as int, cell),
    {
        proof {
            lemma_tally_set_cell(self@, row as int, col as int, cell, Tally::Hazards);
        }
        self.cells[row][col] = cell;
        proof {
            assert(self@ =~~= set_cell(old(self)@, row as int, col as int, cell));
        }
    }

    /// Lays the markers out on a grid of the difficulty's side, row by row.
    fn build(difficulty: Difficulty, markers: &Vec<bool>) -> (board: Board)
        requires
            difficulty.valid(),
            difficulty.fits(),
            markers@.len() == difficulty.cell_count(),
            hazards_in(markers@) == difficulty.hazard_count,
        ensures
            board.wf(),
            board.spec_difficulty() == difficulty,
            untouched(board@),
            uncounted(board@),
            laid_out(board@, markers@),
    {
        let n = difficulty.side_length;
        let mut cells: Vec<Vec<Cell>> = Vec::new();
        let mut r: usize = 0;
        while r < n
            invariant
                n == difficulty.side_length,
                markers@.len() == n * n,
                n * n <= usize::MAX,
                r <= n,
                cells@.len() == r,
                forall|i: int| 0 <= i < r ==> (#[trigger] cells@[i])@.len() == n,
                forall|i: int, j: int|
                    0 <= i < r && 0 <= j < n ==> #[trigger] cells@[i]@[j] == fresh_cell(
                        i,
                        j,
                        markers@[i * n + j],
                    ),
                0 <= r * n <= n * n,
                tally(grid_of(cells@), Tally::Hazards) == hazards_in(markers@.take(r * n)),
            decreases n - r,
        {
            let mut row: Vec<Cell> = Vec::new();
            let mut c: usize = 0;
            proof {
                lemma_position(n as int, r as int, 0);
            }
            while c < n
                invariant
                    n == difficulty.side_length,
                    markers@.len() == n * n,
                    n * n <= usize::MAX,
                    r < n,
                    c <= n,
                    row@.len() == c,
                    0 <= r * n,
                    r * n + n <= n * n,
                    forall|j: int|
                        0 <= j < c ==> #[trigger] row@[j] == fresh_cell(
                            r as int,
                            j,
                            markers@[r * n + j],
                        ),
                    tally_row(row@, Tally::Hazards) + hazards_in(markers@.take(r * n))
                        == hazards_in(markers@.take(r * n + c)),
                decreases n - c,
            {
                let k = r * n + c;
                let cell = Cell::new(r, c, markers[k]);
                proof {
                    lemma_hazards_in_take(markers@, k as int);
                    assert(row@.push(cell).drop_last() =~= row@);
                }
                row.push(cell);
                c += 1;
            }
            proof {
                assert(grid_of(cells@.push(row)).drop_last() =~= grid_of(cells@));
            }
            cells.push(row);
            r += 1;
        }
        let board = Board { cells, difficulty };
        proof {
            assert(markers@.take(n * n) =~= markers@);
        }
        board
    }
}

} // verus!
