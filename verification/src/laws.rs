//! What follows from the model: the laws of the cascade, of a reveal, of
//! the counting pass and of winning.
use vstd::prelude::*;
use crate::adjacency::with_counts;
use crate::cascade::{
    adjacent, cascade, in_region, is_trail, reached, revealable, spreads, uncover,
    lemma_region_start, lemma_region_step,
};
use crate::cell::Cell;
use crate::difficulty::Difficulty;
use crate::grid::{
    Grid, Tally, counts_valid, inside, neighbor_hazards, set_cell, square, tally, tally_row,
    well_formed, lemma_tally_take,
};
use crate::moves::{
    RevealOutcome, flag_toggled, flooded, live_hazard, reveal_outcome, revealed,
};
use crate::outcome::{Outcome, hazard_revealed, outcome_of};

verus! {

/// A cascade leaves every flagged cell and every hazard exactly as it was,
/// wherever it was started.
pub proof fn lemma_cascade_spares_flags_and_hazards(g: Grid, r0: int, c0: int, r: int, c: int)
    requires
        square(g),
        inside(g, r, c),
        g[r][c].is_flagged || g[r][c].is_hazard,
    ensures
        cascade(g, r0, c0)[r][c] == g[r][c],
{
}

/// A flag blocks the reveal: once a covered cell is flagged, revealing a
/// cell, wherever it lies and whatever it hides, leaves the flagged cell
/// covered and flagged. The same holds of a flood fill.
pub proof fn lemma_flag_blocks_reveal(g: Grid, fr: int, fc: int, r: int, c: int)
    requires
        square(g),
        inside(g, fr, fc),
        inside(g, r, c),
        g[fr][fc].is_hidden,
        !g[fr][fc].is_flagged,
    ensures
        ({
            let flagged = set_cell(g, fr, fc, flag_toggled(g[fr][fc]));
            &&& flagged[fr][fc].is_flagged
            &&& revealed(flagged, r, c)[fr][fc] == flagged[fr][fc]
            &&& flooded(flagged, r, c)[fr][fc] == flagged[fr][fc]
        }),
{
}

/// No reveal and no flood fill changes a flag, and each leaves every
/// flagged cell exactly as it was: a flagged cell is never uncovered, in
/// a cascade or when the hazards are put on show.
pub proof fn lemma_reveal_keeps_flags(g: Grid, r: int, c: int, i: int, j: int)
    requires
        square(g),
        inside(g, r, c),
        inside(g, i, j),
    ensures
        revealed(g, r, c)[i][j].is_flagged == g[i][j].is_flagged,
        flooded(g, r, c)[i][j].is_flagged == g[i][j].is_flagged,
        g[i][j].is_flagged ==> revealed(g, r, c)[i][j] == g[i][j] && flooded(g, r, c)[i][j]
            == g[i][j],
{
}

/// A flood fill started on a covered hazard without a flag sets it off:
/// that cell is uncovered and is the one marked as having lost the round,
/// no other cell gains that mark, every hazard without a flag is
/// revealed, and no cell that is no hazard changes.
pub proof fn lemma_flood_fill_on_hazard(g: Grid, r: int, c: int, i: int, j: int)
    requires
        square(g),
        inside(g, r, c),
        inside(g, i, j),
        live_hazard(g[r][c]),
    ensures
        flooded(g, r, c) == revealed(g, r, c),
        !flooded(g, r, c)[r][c].is_hidden,
        flooded(g, r, c)[r][c].triggered_loss,
        (i != r || j != c) ==> flooded(g, r, c)[i][j].triggered_loss == g[i][j].triggered_loss,
        g[i][j].is_hazard && !g[i][j].is_flagged ==> !flooded(g, r, c)[i][j].is_hidden,
        !g[i][j].is_hazard ==> flooded(g, r, c)[i][j] == g[i][j],
{
}

/// A second flood fill at the same start changes nothing.
pub proof fn lemma_flood_fill_twice_is_flood_fill_once(g: Grid, r: int, c: int)
    requires
        square(g),
        inside(g, r, c),
    ensures
        flooded(flooded(g, r, c), r, c) == flooded(g, r, c),
{
    let once = flooded(g, r, c);
    if !live_hazard(g[r][c]) {
        assert forall|i: int, j: int| reached(once, r, c, i, j) implies !once[i][j].is_hidden by {
            lemma_settled_start(g, r, c, i, j);
        }
    }
    assert(flooded(once, r, c) =~~= once);
}

/// After a cascade started at `(r0, c0)`, whatever another cascade
/// started there reaches is revealed already.
proof fn lemma_settled_start(g: Grid, r0: int, c0: int, r: int, c: int)
    requires
        square(g),
        inside(g, r0, c0),
        reached(cascade(g, r0, c0), r0, c0, r, c),
    ensures
        !cascade(g, r0, c0)[r][c].is_hidden,
{
    let once = cascade(g, r0, c0);
    assert(reached(g, r0, c0, r0, c0));
    if !(r == r0 && c == c0) {
        let (pr, pc) = choose|pr: int, pc: int| #[trigger]
            in_region(once, r0, c0, pr, pc) && adjacent(pr, pc, r, c);
        let trail = choose|trail: Seq<(int, int)>| #[trigger]
            is_trail(once, trail, r0, c0) && trail.last() == (pr, pc);
        lemma_region_start(g, r0, c0);
        if trail.len() > 1 {
            // The first step of the trail would lead to a covered cell
            // next to the start, which the first cascade has revealed.
            assert(spreads(once, trail[0], trail[1]));
            assert(reached(g, r0, c0, trail[1].0, trail[1].1));
        }
        assert(reached(g, r0, c0, r, c));
    }
}

/// A cascade reveals every cell of the quiet region of its start, and
/// every cell next to the region that is neither flagged nor a hazard.
pub proof fn lemma_cascade_reveals_region_and_border(
    g: Grid,
    r0: int,
    c0: int,
    pr: int,
    pc: int,
    r: int,
    c: int,
)
    requires
        square(g),
        in_region(g, r0, c0, pr, pc),
        inside(g, r, c),
        revealable(g[r][c]),
        (r == pr && c == pc) || adjacent(pr, pc, r, c),
    ensures
        !cascade(g, r0, c0)[r][c].is_hidden,
{
    if r == pr && c == pc && !(r == r0 && c == c0) {
        // A cell of the region other than the start ends a trail of more
        // than one cell, and lies next to the cell before it.
        let trail = choose|trail: Seq<(int, int)>| #[trigger]
            is_trail(g, trail, r0, c0) && trail.last() == (pr, pc);
        let front = trail.drop_last();
        lemma_trail_prefix(g, trail, r0, c0, trail.len() - 1);
        assert(in_region(g, r0, c0, front.last().0, front.last().1));
    }
}

/// A cascade reveals nothing beyond the border of the quiet region of its
/// start: a cell that it uncovers is the start, or lies next to a cell of
/// the region, and is neither flagged nor a hazard. Every other cell
/// stays exactly as it was.
pub proof fn lemma_cascade_stops_at_border(g: Grid, r0: int, c0: int, r: int, c: int)
    requires
        square(g),
        inside(g, r, c),
    ensures
        cascade(g, r0, c0)[r][c] == g[r][c] || cascade(g, r0, c0)[r][c] == uncover(g[r][c]),
        cascade(g, r0, c0)[r][c] != g[r][c] ==> revealable(g[r][c]) && ((r == r0 && c == c0)
            || exists|pr: int, pc: int| #[trigger]
            in_region(g, r0, c0, pr, pc) && adjacent(pr, pc, r, c)),
{
}

/// Where every cell holds the number of hazards around it, no hazard
/// lies next to a cell of a quiet region: the border that a cascade
/// reveals consists of safe cells.
pub proof fn lemma_no_hazard_next_to_region(
    g: Grid,
    r0: int,
    c0: int,
    pr: int,
    pc: int,
    r: int,
    c: int,
)
    requires
        square(g),
        counts_valid(g),
        in_region(g, r0, c0, pr, pc),
        inside(g, r, c),
        adjacent(pr, pc, r, c),
    ensures
        !g[r][c].is_hazard,
{
    lemma_no_hazard_around_zero(g, pr, pc, r, c);
}

/// Where no hazard is counted around a position, none of the cells
/// around it is a hazard.
proof fn lemma_no_hazard_around_zero(g: Grid, pr: int, pc: int, r: int, c: int)
    requires
        neighbor_hazards(g, pr, pc) == 0,
        inside(g, r, c),
        adjacent(pr, pc, r, c),
    ensures
        !g[r][c].is_hazard,
{
}

/// The beginning of a trail is a trail.
proof fn lemma_trail_prefix(g: Grid, trail: Seq<(int, int)>, r0: int, c0: int, k: int)
    requires
        is_trail(g, trail, r0, c0),
        1 <= k <= trail.len(),
    ensures
        is_trail(g, trail.take(k), r0, c0),
{
    let front = trail.take(k);
    assert forall|i: int| 1 <= i < front.len() implies spreads(
        g,
        front[i - 1],
        #[trigger] front[i],
    ) by {}
}

/// Every cell on a trail that begins in the region of `(r0, c0)` lies in
/// that region.
proof fn lemma_trail_stays_in_region(
    g: Grid,
    r0: int,
    c0: int,
    trail: Seq<(int, int)>,
    k: int,
)
    requires
        is_trail(g, trail, trail[0].0, trail[0].1),
        in_region(g, r0, c0, trail[0].0, trail[0].1),
        0 <= k < trail.len(),
    ensures
        in_region(g, r0, c0, trail[k].0, trail[k].1),
    decreases k,
{
    if k > 0 {
        lemma_trail_stays_in_region(g, r0, c0, trail, k - 1);
        lemma_region_step(g, r0, c0, trail[k - 1].0, trail[k - 1].1, trail[k].0, trail[k].1);
    }
}

/// A cell of the region of a cell of a region lies in that region.
pub proof fn lemma_region_transitive(
    g: Grid,
    r0: int,
    c0: int,
    r1: int,
    c1: int,
    r: int,
    c: int,
)
    requires
        in_region(g, r0, c0, r1, c1),
        in_region(g, r1, c1, r, c),
    ensures
        in_region(g, r0, c0, r, c),
{
    let trail = choose|trail: Seq<(int, int)>| #[trigger]
        is_trail(g, trail, r1, c1) && trail.last() == (r, c);
    lemma_trail_stays_in_region(g, r0, c0, trail, trail.len() - 1);
}

/// A covered cell lies in the region of every cell of its own region:
/// the trail that leads there leads back.
pub proof fn lemma_region_symmetric(g: Grid, r0: int, c0: int, r1: int, c1: int)
    requires
        in_region(g, r0, c0, r1, c1),
        g[r0][c0].is_hidden,
    ensures
        in_region(g, r1, c1, r0, c0),
{
    let trail = choose|trail: Seq<(int, int)>| #[trigger]
        is_trail(g, trail, r0, c0) && trail.last() == (r1, c1);
    let back = trail.reverse();
    assert forall|i: int| 1 <= i < back.len() implies spreads(g, back[i - 1], #[trigger] back[i]) by {}
    assert(is_trail(g, back, r1, c1));
}

/// The cascade is the same from wherever in a covered quiet region it is
/// started.
pub proof fn lemma_cascade_same_from_anywhere(g: Grid, r0: int, c0: int, r1: int, c1: int)
    requires
        square(g),
        in_region(g, r0, c0, r1, c1),
        g[r0][c0].is_hidden,
    ensures
        cascade(g, r1, c1) == cascade(g, r0, c0),
{
    lemma_region_symmetric(g, r0, c0, r1, c1);
    assert forall|r: int, c: int| reached(g, r0, c0, r, c) == reached(g, r1, c1, r, c) by {
        if reached(g, r0, c0, r, c) {
            lemma_reached_from_region(g, r0, c0, r1, c1, r, c);
        }
        if reached(g, r1, c1, r, c) {
            lemma_reached_from_region(g, r1, c1, r0, c0, r, c);
        }
    }
    assert(cascade(g, r1, c1) =~~= cascade(g, r0, c0));
}

/// What a cascade reaches from `(r0, c0)`, it reaches from every cell
/// `(r1, c1)` of the region of `(r0, c0)` in whose region `(r0, c0)` lies
/// in turn.
proof fn lemma_reached_from_region(g: Grid, r0: int, c0: int, r1: int, c1: int, r: int, c: int)
    requires
        square(g),
        in_region(g, r0, c0, r1, c1),
        in_region(g, r1, c1, r0, c0),
        reached(g, r0, c0, r, c),
    ensures
        reached(g, r1, c1, r, c),
{
    if r == r1 && c == c1 {
        // The start of a cascade is reached.
    } else if r == r0 && c == c0 {
        // The start `(r0, c0)` ends a trail from `(r1, c1)` of more than
        // one cell, and lies next to the cell before it.
        let trail = choose|trail: Seq<(int, int)>| #[trigger]
            is_trail(g, trail, r1, c1) && trail.last() == (r0, c0);
        let len = trail.len() as int;
        lemma_trail_prefix(g, trail, r1, c1, len - 1);
        assert(in_region(g, r1, c1, trail[len - 2].0, trail[len - 2].1));
    } else {
        let (pr, pc) = choose|pr: int, pc: int| #[trigger]
            in_region(g, r0, c0, pr, pc) && adjacent(pr, pc, r, c);
        lemma_region_transitive(g, r1, c1, r0, c0, pr, pc);
    }
}

/// A reveal never covers a cell again, moves no hazard, and keeps the
/// shape of the grid.
pub proof fn lemma_reveal_never_covers(g: Grid, r: int, c: int, i: int, j: int)
    requires
        square(g),
        inside(g, r, c),
        inside(g, i, j),
    ensures
        revealed(g, r, c).len() == g.len(),
        revealed(g, r, c)[i].len() == g[i].len(),
        revealed(g, r, c)[i][j].is_hazard == g[i][j].is_hazard,
        !g[i][j].is_hidden ==> !revealed(g, r, c)[i][j].is_hidden,
{
}

/// Revealing a cell that is no hazard reveals no hazard: where none was
/// revealed before, none is afterwards.
pub proof fn lemma_safe_reveal_reveals_no_hazard(g: Grid, r: int, c: int)
    requires
        square(g),
        inside(g, r, c),
        !g[r][c].is_hazard,
        !hazard_revealed(g),
    ensures
        !hazard_revealed(revealed(g, r, c)),
{
    let after = revealed(g, r, c);
    assert forall|i: int, j: int|
        inside(after, i, j) && (#[trigger] after[i][j]).is_hazard implies after[i][j].is_hidden by {
        assert(g[i][j].is_hazard);
    }
}

/// Revealing a cell a second time changes nothing: after the first
/// reveal the cell is revealed or flagged, and a reveal leaves such a
/// cell and all others alone.
pub proof fn lemma_reveal_twice_is_reveal_once(g: Grid, r: int, c: int)
    requires
        square(g),
        inside(g, r, c),
    ensures
        reveal_outcome(revealed(g, r, c), r, c) == RevealOutcome::Ignored,
        revealed(revealed(g, r, c), r, c) == revealed(g, r, c),
{
}

/// Revealing a cell that is revealed already changes nothing.
pub proof fn lemma_reveal_of_revealed_cell(g: Grid, r: int, c: int)
    requires
        inside(g, r, c),
        !g[r][c].is_hidden,
    ensures
        revealed(g, r, c) == g,
{
}

/// The counting pass settles every count, and a second pass changes
/// nothing.
pub proof fn lemma_counting_twice_is_counting_once(g: Grid)
    requires
        square(g),
    ensures
        counts_valid(with_counts(g)),
        with_counts(with_counts(g)) == with_counts(g),
{
    let once = with_counts(g);
    assert forall|r: int, c: int| inside(once, r, c) implies (
    #[trigger] once[r][c]).adjacent_hazard_count == neighbor_hazards(once, r, c) by {}
    assert forall|r: int, c: int| inside(once, r, c) implies #[trigger] with_counts(once)[r][c]
        == once[r][c] by {}
    assert(with_counts(once) =~~= once);
}

/// Whether every cell of a row is a hazard or revealed.
spec fn row_cleared(row: Seq<Cell>) -> bool {
    forall|c: int| 0 <= c < row.len() ==> (#[trigger] row[c]).is_hazard || !row[c].is_hidden
}

/// Whether every cell of the first `k` rows of a grid is a hazard or
/// revealed.
spec fn rows_cleared(g: Grid, k: int) -> bool {
    forall|r: int, c: int|
        0 <= r < k && 0 <= c < g.len() ==> (#[trigger] g[r][c]).is_hazard || !g[r][c].is_hidden
}

/// The hazards and the revealed safe cells of a row together are no more
/// than its cells, and are as many exactly when every safe cell of the
/// row is revealed.
proof fn lemma_row_safe_cells(row: Seq<Cell>)
    ensures
        tally_row(row, Tally::Hazards) + tally_row(row, Tally::RevealedSafe) <= row.len(),
        tally_row(row, Tally::Hazards) + tally_row(row, Tally::RevealedSafe) == row.len()
            <==> row_cleared(row),
    decreases row.len(),
{
    if row.len() > 0 {
        let front = row.drop_last();
        lemma_row_safe_cells(front);
        if row_cleared(row) {
            assert forall|c: int| 0 <= c < front.len() implies (#[trigger] front[c]).is_hazard
                || !front[c].is_hidden by {
                assert(row[c].is_hazard || !row[c].is_hidden);
            }
            assert(row[row.len() - 1].is_hazard || !row[row.len() - 1].is_hidden);
        }
        if row_cleared(front) && (row.last().is_hazard || !row.last().is_hidden) {
            assert forall|c: int| 0 <= c < row.len() implies (#[trigger] row[c]).is_hazard
                || !row[c].is_hidden by {
                if c < front.len() {
                    assert(front[c].is_hazard || !front[c].is_hidden);
                }
            }
        }
    }
}

/// The hazards and the revealed safe cells of the first `k` rows of a
/// square grid together are no more than the cells of those rows, and are
/// as many exactly when every safe cell of those rows is revealed.
proof fn lemma_rows_safe_cells(g: Grid, k: int)
    requires
        square(g),
        0 <= k <= g.len(),
    ensures
        tally(g.take(k), Tally::Hazards) + tally(g.take(k), Tally::RevealedSafe) <= k * g.len(),
        tally(g.take(k), Tally::Hazards) + tally(g.take(k), Tally::RevealedSafe) == k * g.len()
            <==> rows_cleared(g, k),
    decreases k,
{
    if k == 0 {
        assert(g.take(0) =~= Seq::empty());
    } else {
        lemma_rows_safe_cells(g, k - 1);
        lemma_tally_take(g, k - 1, Tally::Hazards);
        lemma_tally_take(g, k - 1, Tally::RevealedSafe);
        lemma_row_safe_cells(g[k - 1]);
        assert(k * g.len() == (k - 1) * g.len() + g.len()) by (nonlinear_arith);
        let row = g[k - 1];
        if rows_cleared(g, k) {
            assert forall|c: int| 0 <= c < row.len() implies (#[trigger] row[c]).is_hazard
                || !row[c].is_hidden by {
                assert(g[k - 1][c].is_hazard || !g[k - 1][c].is_hidden);
            }
            assert(rows_cleared(g, k - 1));
        }
        if rows_cleared(g, k - 1) && row_cleared(row) {
            assert forall|r: int, c: int| 0 <= r < k && 0 <= c < g.len() implies (
            #[trigger] g[r][c]).is_hazard || !g[r][c].is_hidden by {
                if r == k - 1 {
                    assert(row[c].is_hazard || !row[c].is_hidden);
                }
            }
        }
    }
}

/// On a well-formed board the round is won exactly when no hazard is
/// revealed and every safe cell is, and not before: the revealed safe
/// cells are never more than the difficulty leaves free of hazards, and
/// are as many exactly when none of them is covered. The round is lost
/// exactly when a hazard is revealed.
pub proof fn lemma_won_exactly_when_cleared(g: Grid, d: Difficulty)
    requires
        well_formed(g, d),
    ensures
        tally(g, Tally::RevealedSafe) <= d.safe_count(),
        tally(g, Tally::RevealedSafe) == d.safe_count() <==> (forall|r: int, c: int|
            inside(g, r, c) ==> (#[trigger] g[r][c]).is_hazard || !g[r][c].is_hidden),
        outcome_of(g, d) == Outcome::Won <==> !hazard_revealed(g) && tally(g, Tally::RevealedSafe)
            == d.safe_count(),
        outcome_of(g, d) == Outcome::Lost <==> hazard_revealed(g),
{
    lemma_rows_safe_cells(g, g.len() as int);
    assert(g.take(g.len() as int) =~= g);
}

} // verus!
