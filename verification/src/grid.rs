//! The mathematical model of a board: a square grid of cells, and the
//! quantities that the engine's contracts speak of.
use vstd::prelude::*;
use crate::cell::Cell;
use crate::difficulty::Difficulty;

verus! {

/// A grid is a sequence of rows; `g[r][c]` is the cell in row `r`, column `c`.
pub type Grid = Seq<Seq<Cell>>;

/// Whether `(r, c)` is a position of the grid.
pub open spec fn inside(g: Grid, r: int, c: int) -> bool {
    0 <= r < g.len() && 0 <= c < g.len()
}

/// Every row is as long as the grid has rows.
pub open spec fn square(g: Grid) -> bool {
    forall|r: int| 0 <= r < g.len() ==> (#[trigger] g[r]).len() == g.len()
}

/// Whether `(r, c)` comes before `(at_row, at_col)` when the cells are
/// gone through row by row.
pub open spec fn comes_before(r: int, c: int, at_row: int, at_col: int) -> bool {
    r < at_row || (r == at_row && c < at_col)
}

/// The grid `g` with the cell at `(r, c)` replaced by `cell`.
pub open spec fn set_cell(g: Grid, r: int, c: int, cell: Cell) -> Grid {
    g.update(r, g[r].update(c, cell))
}

/// What holds of the cell at `(r, c)` at all times: it knows its place, it
/// cannot count more hazards than it has neighbours, a flag sits on a
/// covered cell only, and only a revealed hazard can have lost the round.
pub open spec fn cell_in_place(cell: Cell, r: int, c: int) -> bool {
    &&& cell.row == r
    &&& cell.col == c
    &&& cell.adjacent_hazard_count <= 8
    &&& cell.is_flagged ==> cell.is_hidden
    &&& cell.triggered_loss ==> cell.is_hazard && !cell.is_hidden
}

/// The kinds of cell that the engine counts.
pub enum Tally {
    /// Cells that are hazards.
    Hazards,
    /// Cells that are still covered.
    Hidden,
    /// Cells that are revealed and are no hazard.
    RevealedSafe,
}

/// Whether `cell` is of the kind `what`.
pub open spec fn counted(cell: Cell, what: Tally) -> bool {
    match what {
        Tally::Hazards => cell.is_hazard,
        Tally::Hidden => cell.is_hidden,
        Tally::RevealedSafe => !cell.is_hidden && !cell.is_hazard,
    }
}

/// One for a cell of the kind `what`, zero for any other.
pub open spec fn weight(cell: Cell, what: Tally) -> nat {
    if counted(cell, what) {
        1
    } else {
        0
    }
}

/// The number of cells of the kind `what` in a row.
pub open spec fn tally_row(row: Seq<Cell>, what: Tally) -> nat
    decreases row.len(),
{
    if row.len() == 0 {
        0
    } else {
        tally_row(row.drop_last(), what) + weight(row.last(), what)
    }
}

/// The number of cells of the kind `what` in a grid.
pub open spec fn tally(g: Grid, what: Tally) -> nat
    decreases g.len(),
{
    if g.len() == 0 {
        0
    } else {
        tally(g.drop_last(), what) + tally_row(g.last(), what)
    }
}

/// A grid is a well-formed board of difficulty `d` when it is a square of
/// that side, every cell is in place, and it hides exactly as many hazards
/// as `d` says.
pub open spec fn well_formed(g: Grid, d: Difficulty) -> bool {
    &&& d.valid()
    &&& d.fits()
    &&& g.len() == d.side_length
    &&& square(g)
    &&& forall|r: int, c: int| inside(g, r, c) ==> cell_in_place(#[trigger] g[r][c], r, c)
    &&& tally(g, Tally::Hazards) == d.hazard_count
}

/// No cell has been revealed or flagged yet.
pub open spec fn untouched(g: Grid) -> bool {
    forall|r: int, c: int|
        inside(g, r, c) ==> {
            &&& (#[trigger] g[r][c]).is_hidden
            &&& !g[r][c].is_flagged
            &&& !g[r][c].triggered_loss
        }
}

/// No cell has counted the hazards around it yet.
pub open spec fn uncounted(g: Grid) -> bool {
    forall|r: int, c: int| inside(g, r, c) ==> (#[trigger] g[r][c]).adjacent_hazard_count == 0
}

/// One if `(r, c)` is a position of the grid and the cell there is a
/// hazard, zero otherwise: positions beyond the edge count for nothing.
pub open spec fn hazard_at(g: Grid, r: int, c: int) -> int {
    if inside(g, r, c) && g[r][c].is_hazard {
        1
    } else {
        0
    }
}

/// The number of hazards among the up to eight cells around `(r, c)`.
pub open spec fn neighbor_hazards(g: Grid, r: int, c: int) -> int {
    hazard_at(g, r - 1, c - 1) + hazard_at(g, r - 1, c) + hazard_at(g, r - 1, c + 1)
        + hazard_at(g, r, c - 1) + hazard_at(g, r, c + 1)
        + hazard_at(g, r + 1, c - 1) + hazard_at(g, r + 1, c) + hazard_at(g, r + 1, c + 1)
}

/// Every cell holds the number of hazards around it.
pub open spec fn counts_valid(g: Grid) -> bool {
    forall|r: int, c: int|
        inside(g, r, c) ==> (#[trigger] g[r][c]).adjacent_hazard_count == neighbor_hazards(g, r, c)
}

/// Counting the cells of a grid of side `n` row by row, the cell at
/// `(r, c)` is number `r * n + c` of `n * n`.
pub proof fn lemma_position(n: int, r: int, c: int)
    requires
        0 <= r < n,
        0 <= c < n,
    ensures
        0 <= r * n + c < n * n,
        (r + 1) * n == r * n + n,
        0 <= r * n,
        (r + 1) * n <= n * n,
{
    assert(0 <= r * n && r * n + n <= n * n && (r + 1) * n == r * n + n) by (nonlinear_arith)
        requires
            0 <= r < n,
    ;
}

/// Taking one more cell of a row adds that cell's weight.
pub proof fn lemma_tally_row_take(row: Seq<Cell>, c: int, what: Tally)
    requires
        0 <= c < row.len(),
    ensures
        tally_row(row.take(c + 1), what) == tally_row(row.take(c), what) + weight(row[c], what),
{
    assert(row.take(c + 1).drop_last() =~= row.take(c));
}

/// Taking one more row of a grid adds that row's tally.
pub proof fn lemma_tally_take(g: Grid, r: int, what: Tally)
    requires
        0 <= r < g.len(),
    ensures
        tally(g.take(r + 1), what) == tally(g.take(r), what) + tally_row(g[r], what),
{
    assert(g.take(r + 1).drop_last() =~= g.take(r));
}

/// Replacing one cell of a row changes the tally by the difference of the
/// two cells' weights.
pub proof fn lemma_tally_row_update(row: Seq<Cell>, c: int, cell: Cell, what: Tally)
    requires
        0 <= c < row.len(),
    ensures
        tally_row(row.update(c, cell), what) + weight(row[c], what) == tally_row(row, what)
            + weight(cell, what),
    decreases row.len(),
{
    let changed = row.update(c, cell);
    if c == row.len() - 1 {
        assert(changed.drop_last() =~= row.drop_last());
    } else {
        assert(changed.drop_last() =~= row.drop_last().update(c, cell));
        lemma_tally_row_update(row.drop_last(), c, cell, what);
    }
}

/// Replacing one row of a grid changes the tally by the difference of the
/// two rows' tallies.
pub proof fn lemma_tally_update_row(g: Grid, r: int, row: Seq<Cell>, what: Tally)
    requires
        0 <= r < g.len(),
    ensures
        tally(g.update(r, row), what) + tally_row(g[r], what) == tally(g, what) + tally_row(
            row,
            what,
        ),
    decreases g.len(),
{
    let changed = g.update(r, row);
    if r == g.len() - 1 {
        assert(changed.drop_last() =~= g.drop_last());
    } else {
        assert(changed.drop_last() =~= g.drop_last().update(r, row));
        lemma_tally_update_row(g.drop_last(), r, row, what);
    }
}

/// Replacing one cell of a grid changes the tally by the difference of the
/// two cells' weights.
pub proof fn lemma_tally_set_cell(g: Grid, r: int, c: int, cell: Cell, what: Tally)
    requires
        0 <= r < g.len(),
        0 <= c < g[r].len(),
    ensures
        tally(set_cell(g, r, c, cell), what) + weight(g[r][c], what) == tally(g, what) + weight(
            cell,
            what,
        ),
{
    lemma_tally_row_update(g[r], c, cell, what);
    lemma_tally_update_row(g, r, g[r].update(c, cell), what);
}

} // verus!
