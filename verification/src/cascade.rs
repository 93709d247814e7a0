//! The cascade: how the reveal of one safe cell spreads over the quiet
//! region around it.
//!
//! A cell is quiet when no hazard has been counted around it. Revealing a
//! quiet cell reveals the cells around it too, and goes on from each of
//! them that is quiet and was still covered. Flagged cells and hazards
//! are left as they are and pass nothing on. What a reveal does to a
//! hazard is another course, which the module `moves` holds.
use vstd::prelude::*;
use std::collections::VecDeque;
use crate::board::Board;
use crate::cell::Cell;
use crate::error::EngineError;
use crate::grid::{Grid, Tally, inside, set_cell, square, tally, lemma_tally_set_cell};

verus! {

/// Whether `(nr, nc)` is one of the eight positions around `(r, c)`.
pub open spec fn adjacent(r: int, c: int, nr: int, nc: int) -> bool {
    &&& r - 1 <= nr <= r + 1
    &&& c - 1 <= nc <= c + 1
    &&& (nr != r || nc != c)
}

/// A cascade may reveal a cell that is neither flagged nor a hazard.
pub open spec fn revealable(cell: Cell) -> bool {
    !cell.is_flagged && !cell.is_hazard
}

/// A cascade goes on from a cell that it may reveal and that counts no
/// hazard around it.
pub open spec fn quiet(cell: Cell) -> bool {
    revealable(cell) && cell.adjacent_hazard_count == 0
}

/// The cell `cell`, revealed.
pub open spec fn uncover(cell: Cell) -> Cell {
    Cell { is_hidden: false, ..cell }
}

/// Whether a cascade that has come to `from` goes on to `to`: `to` is a
/// cell next to `from` that is quiet and still covered.
pub open spec fn spreads(g: Grid, from: (int, int), to: (int, int)) -> bool {
    &&& inside(g, to.0, to.1)
    &&& adjacent(from.0, from.1, to.0, to.1)
    &&& g[to.0][to.1].is_hidden
    &&& quiet(g[to.0][to.1])
}

/// A trail is a way that a cascade started at `(r0, c0)` can take: it
/// begins at the start, which must be quiet, and each step spreads.
pub open spec fn is_trail(g: Grid, trail: Seq<(int, int)>, r0: int, c0: int) -> bool {
    &&& trail.len() > 0
    &&& trail[0] == (r0, c0)
    &&& inside(g, r0, c0)
    &&& quiet(g[r0][c0])
    &&& forall|i: int| 1 <= i < trail.len() ==> spreads(g, trail[i - 1], #[trigger] trail[i])
}

/// The quiet region of `(r0, c0)`: the cells to which a trail leads.
pub open spec fn in_region(g: Grid, r0: int, c0: int, r: int, c: int) -> bool {
    exists|trail: Seq<(int, int)>| #[trigger] is_trail(g, trail, r0, c0) && trail.last() == (r, c)
}

/// The cells that a cascade started at `(r0, c0)` reveals: none if the
/// start is flagged or a hazard; else the start itself and, of the cells
/// that a cascade may reveal, those next to a cell of the start's quiet
/// region.
pub open spec fn reached(g: Grid, r0: int, c0: int, r: int, c: int) -> bool {
    &&& inside(g, r0, c0)
    &&& inside(g, r, c)
    &&& revealable(g[r0][c0])
    &&& revealable(g[r][c])
    &&& ((r == r0 && c == c0) || exists|pr: int, pc: int| #[trigger]
        in_region(g, r0, c0, pr, pc) && adjacent(pr, pc, r, c))
}

/// The grid after a cascade started at `(r0, c0)`: the cells that it
/// reaches are revealed, and nothing else changes.
pub open spec fn cascade(g: Grid, r0: int, c0: int) -> Grid {
    Seq::new(
        g.len(),
        |r: int|
            Seq::new(
                g[r].len(),
                |c: int|
                    if reached(g, r0, c0, r, c) {
                        uncover(g[r][c])
                    } else {
                        g[r][c]
                    },
            ),
    )
}

/// A quiet start lies in its own region.
pub proof fn lemma_region_start(g: Grid, r0: int, c0: int)
    requires
        inside(g, r0, c0),
        quiet(g[r0][c0]),
    ensures
        in_region(g, r0, c0, r0, c0),
{
    let trail = seq![(r0, c0)];
    assert(is_trail(g, trail, r0, c0));
}

/// A region grows by every cell to which the cascade spreads from it.
pub proof fn lemma_region_step(g: Grid, r0: int, c0: int, pr: int, pc: int, r: int, c: int)
    requires
        in_region(g, r0, c0, pr, pc),
        spreads(g, (pr, pc), (r, c)),
    ensures
        in_region(g, r0, c0, r, c),
{
    let trail = choose|trail: Seq<(int, int)>| #[trigger]
        is_trail(g, trail, r0, c0) && trail.last() == (pr, pc);
    let longer = trail.push((r, c));
    assert forall|i: int| 1 <= i < longer.len() implies spreads(
        g,
        longer[i - 1],
        #[trigger] longer[i],
    ) by {}
    assert(is_trail(g, longer, r0, c0));
}

/// A region lies within the grid and has a quiet start; each of its cells
/// is quiet, and covered unless it is the start.
pub proof fn lemma_region_cells(g: Grid, r0: int, c0: int, r: int, c: int)
    requires
        in_region(g, r0, c0, r, c),
    ensures
        inside(g, r0, c0),
        inside(g, r, c),
        quiet(g[r0][c0]),
        quiet(g[r][c]),
        (r == r0 && c == c0) || g[r][c].is_hidden,
{
}

/// A cascade reveals nothing when its start is flagged or a hazard.
pub proof fn lemma_cascade_blocked(g: Grid, r0: int, c0: int)
    requires
        inside(g, r0, c0) ==> !revealable(g[r0][c0]),
    ensures
        cascade(g, r0, c0) == g,
{
    assert(cascade(g, r0, c0) =~~= g);
}

/// A cascade reveals its start and nothing else when the start counts a
/// hazard around it.
pub proof fn lemma_cascade_single(g: Grid, r0: int, c0: int)
    requires
        square(g),
        inside(g, r0, c0),
        revealable(g[r0][c0]),
        !quiet(g[r0][c0]),
    ensures
        cascade(g, r0, c0) == set_cell(g, r0, c0, uncover(g[r0][c0])),
{
    assert(cascade(g, r0, c0) =~~= set_cell(g, r0, c0, uncover(g[r0][c0])));
}

/// Whether `(r, c)` waits in the queue.
spec fn queued(queue: Seq<(usize, usize)>, r: int, c: int) -> bool {
    exists|i: int| 0 <= i < queue.len() && (#[trigger] queue[i]).0 == r && queue[i].1 == c
}

/// Whether the cascade has dealt with every cell around `(r, c)`: those
/// that it may reveal are revealed.
spec fn expanded(g0: Grid, g: Grid, r: int, c: int) -> bool {
    forall|nr: int, nc: int|
        inside(g0, nr, nc) && adjacent(r, c, nr, nc) && revealable(g0[nr][nc]) ==> !(
        #[trigger] g[nr][nc]).is_hidden
}

/// What holds while a cascade started at `(r0, c0)` on the grid `g0` is
/// under way, `g` being the grid so far: only cells that the cascade
/// reaches have been revealed; the queue holds cells of the region; and
/// each revealed cell of the region waits in the queue, or has been dealt
/// with, or is the one that is being dealt with.
spec fn cascading(
    g0: Grid,
    r0: int,
    c0: int,
    g: Grid,
    queue: Seq<(usize, usize)>,
    busy: Option<(int, int)>,
) -> bool {
    &&& g.len() == g0.len()
    &&& forall|r: int| 0 <= r < g.len() ==> (#[trigger] g[r]).len() == g0[r].len()
    &&& forall|r: int, c: int|
        inside(g0, r, c) ==> #[trigger] g[r][c] == g0[r][c] || (g[r][c] == uncover(g0[r][c])
            && reached(g0, r0, c0, r, c))
    &&& !g[r0][c0].is_hidden
    &&& forall|i: int|
        0 <= i < queue.len() ==> in_region(
            g0,
            r0,
            c0,
            (#[trigger] queue[i]).0 as int,
            queue[i].1 as int,
        )
    &&& forall|r: int, c: int|
        inside(g0, r, c) && #[trigger] in_region(g0, r0, c0, r, c) && !g[r][c].is_hidden ==> queued(
            queue,
            r,
            c,
        ) || expanded(g0, g, r, c) || busy == Some((r, c))
}

/// A cell that waits in the queue still waits there after another cell has
/// joined the queue.
proof fn lemma_queued_push(queue: Seq<(usize, usize)>, last: (usize, usize), r: int, c: int)
    requires
        queued(queue, r, c),
    ensures
        queued(queue.push(last), r, c),
{
    let i = choose|i: int| 0 <= i < queue.len() && (#[trigger] queue[i]).0 == r && queue[i].1 == c;
    assert(queue.push(last)[i] == queue[i]);
}

/// A cell that waits in the queue is the first in the queue or waits behind
/// it.
proof fn lemma_queued_pop(queue: Seq<(usize, usize)>, r: int, c: int)
    requires
        queued(queue, r, c),
    ensures
        (queue[0].0 == r && queue[0].1 == c) || queued(queue.subrange(1, queue.len() as int), r, c),
{
    let i = choose|i: int| 0 <= i < queue.len() && (#[trigger] queue[i]).0 == r && queue[i].1 == c;
    if i > 0 {
        assert(queue.subrange(1, queue.len() as int)[i - 1] == queue[i]);
    }
}

/// Once the queue is empty, every cell to which a trail leads is revealed.
proof fn lemma_trail_revealed(g0: Grid, r0: int, c0: int, g: Grid, trail: Seq<(int, int)>)
    requires
        cascading(g0, r0, c0, g, Seq::empty(), None),
        is_trail(g0, trail, r0, c0),
    ensures
        !g[trail.last().0][trail.last().1].is_hidden,
    decreases trail.len(),
{
    if trail.len() > 1 {
        let front = trail.drop_last();
        assert forall|i: int| 1 <= i < front.len() implies spreads(
            g0,
            front[i - 1],
            #[trigger] front[i],
        ) by {}
        assert(is_trail(g0, front, r0, c0));
        lemma_trail_revealed(g0, r0, c0, g, front);
        assert(in_region(g0, r0, c0, front.last().0, front.last().1));
    }
}

/// Once the queue is empty, the cascade is done.
proof fn lemma_cascade_done(g0: Grid, r0: int, c0: int, g: Grid)
    requires
        cascading(g0, r0, c0, g, Seq::empty(), None),
        square(g0),
        inside(g0, r0, c0),
        revealable(g0[r0][c0]),
    ensures
        g == cascade(g0, r0, c0),
{
    assert forall|r: int, c: int| reached(g0, r0, c0, r, c) implies !g[r][c].is_hidden by {
        if !(r == r0 && c == c0) {
            let (pr, pc) = choose|pr: int, pc: int| #[trigger]
                in_region(g0, r0, c0, pr, pc) && adjacent(pr, pc, r, c);
            let trail = choose|trail: Seq<(int, int)>| #[trigger]
                is_trail(g0, trail, r0, c0) && trail.last() == (pr, pc);
            lemma_trail_revealed(g0, r0, c0, g, trail);
        }
    }
    assert forall|r: int, c: int| inside(g0, r, c) implies #[trigger] g[r][c] == cascade(
        g0,
        r0,
        c0,
    )[r][c] by {}
    assert(g =~~= cascade(g0, r0, c0));
}

impl Board {
    /// Starts a cascade at `(row, col)`: reveals the cell, unless it is
    /// flagged or a hazard, and if it is quiet, spreads breadth first over
    /// the cells around it and on from each quiet one among them. The
    /// cells wait their turn in a queue of coordinates, and each is
    /// revealed when it joins the queue, so none joins twice. A cascade
    /// changes no flag and reveals neither a flagged cell nor a hazard.
    ///
    /// Fails with `OutOfBounds`, and changes nothing, when the grid has no
    /// cell at `(row, col)`.
    pub fn cascade_reveal(&mut self, row: usize, col: usize) -> (res: Result<(), EngineError>)
        requires
            old(self).wf(),
        ensures
            final(self).wf(),
            final(self).spec_difficulty() == old(self).spec_difficulty(),
            inside(old(self)@, row as int, col as int) ==> res == Ok::<(), EngineError>(())
                && final(self)@ == cascade(old(self)@, row as int, col as int),
            !inside(old(self)@, row as int, col as int) ==> res == Err::<(), EngineError>(
                EngineError::OutOfBounds,
            ) && final(self)@ == old(self)@,
    {
        let n = self.side_length();
        if row >= n || col >= n {
            return Err(EngineError::OutOfBounds);
        }
        let ghost g0 = self@;
        let ghost r0 = row as int;
        let ghost c0 = col as int;
        let start = self.cell_at(row, col);
        if start.is_flagged || start.is_hazard {
            proof {
                lemma_cascade_blocked(g0, r0, c0);
            }
            return Ok(());
        }
        self.replace_cell(row, col, Cell { is_hidden: false, ..start });
        if start.adjacent_hazard_count != 0 {
            proof {
                lemma_cascade_single(g0, r0, c0);
            }
            return Ok(());
        }
        let mut queue: VecDeque<(usize, usize)> = VecDeque::new();
        queue.push_back((row, col));
        proof {
            lemma_region_start(g0, r0, c0);
            assert(queue@[0] == (row, col));
            assert forall|r: int, c: int|
                inside(g0, r, c) && #[trigger] in_region(g0, r0, c0, r, c) && !self@[r][c].is_hidden
                implies queued(queue@, r, c) by {}
        }
        while queue.len() > 0
            invariant
                self.wf(),
                self.spec_difficulty() == old(self).spec_difficulty(),
                n == self.spec_difficulty().side_length,
                g0 == old(self)@,
                inside(g0, r0, c0),
                revealable(g0[r0][c0]),
                cascading(g0, r0, c0, self@, queue@, None),
            decreases tally(self@, Tally::Hidden), queue@.len(),
        {
            let ghost waiting = queue@;
            let (r, c) = queue.pop_front().unwrap();
            let ghost at = (r as int, c as int);
            let ghost start = (r0, c0);
            proof {
                assert forall|i: int| 0 <= i < queue@.len() implies in_region(
                    g0,
                    r0,
                    c0,
                    (#[trigger] queue@[i]).0 as int,
                    queue@[i].1 as int,
                ) by {}
                assert forall|pr: int, pc: int|
                    inside(g0, pr, pc) && #[trigger] in_region(g0, r0, c0, pr, pc)
                        && !self@[pr][pc].is_hidden implies queued(queue@, pr, pc) || expanded(
                    g0,
                    self@,
                    pr,
                    pc,
                ) || Some(at) == Some((pr, pc)) by {
                    if queued(waiting, pr, pc) {
                        lemma_queued_pop(waiting, pr, pc);
                    }
                }
            }
            if r > 0 {
                if c > 0 {
                    self.spread_to(r - 1, c - 1, &mut queue, Ghost(g0), Ghost(start), Ghost(at));
                }
                self.spread_to(r - 1, c, &mut queue, Ghost(g0), Ghost(start), Ghost(at));
                if c + 1 < n {
                    self.spread_to(r - 1, c + 1, &mut queue, Ghost(g0), Ghost(start), Ghost(at));
                }
            }
            if c > 0 {
                self.spread_to(r, c - 1, &mut queue, Ghost(g0), Ghost(start), Ghost(at));
            }
            if c + 1 < n {
                self.spread_to(r, c + 1, &mut queue, Ghost(g0), Ghost(start), Ghost(at));
            }
            if r + 1 < n {
                if c > 0 {
                    self.spread_to(r + 1, c - 1, &mut queue, Ghost(g0), Ghost(start), Ghost(at));
                }
                self.spread_to(r + 1, c, &mut queue, Ghost(g0), Ghost(start), Ghost(at));
                if c + 1 < n {
                    self.spread_to(r + 1, c + 1, &mut queue, Ghost(g0), Ghost(start), Ghost(at));
                }
            }
        }
        proof {
            lemma_cascade_done(g0, r0, c0, self@);
        }
        Ok(())
    }

    /// Lets the cascade that is dealing with the cell at `from` look at the
    /// cell at `(row, col)` next to it: a covered cell that the cascade may
    /// reveal is revealed, and joins the queue if it is quiet.
    fn spread_to(
        &mut self,
        row: usize,
        col: usize,
        queue: &mut VecDeque<(usize, usize)>,
        Ghost(g0): Ghost<Grid>,
        Ghost(start): Ghost<(int, int)>,
        Ghost(from): Ghost<(int, int)>,
    )
        requires
            old(self).wf(),
            inside(g0, row as int, col as int),
            adjacent(from.0, from.1, row as int, col as int),
            in_region(g0, start.0, start.1, from.0, from.1),
            cascading(g0, start.0, start.1, old(self)@, old(queue)@, Some(from)),
        ensures
            final(self).wf(),
            final(self).spec_difficulty() == old(self).spec_difficulty(),
            cascading(g0, start.0, start.1, final(self)@, final(queue)@, Some(from)),
            revealable(g0[row as int][col as int]) ==> !final(self)@[row as int][col as int].is_hidden,
            forall|r: int, c: int|
                inside(g0, r, c) && !(#[trigger] old(self)@[r][c]).is_hidden
                    ==> !final(self)@[r][c].is_hidden,
            tally(final(self)@, Tally::Hidden) < tally(old(self)@, Tally::Hidden) || (final(self)@
                == old(self)@ && final(queue)@ == old(queue)@),
    {
        let ghost r = row as int;
        let ghost c = col as int;
        let ghost before = self@;
        let ghost waiting = queue@;
        let cell = self.cell_at(row, col);
        if !cell.is_flagged && !cell.is_hazard && cell.is_hidden {
            proof {
                lemma_tally_set_cell(before, r, c, uncover(cell), Tally::Hidden);
            }
            self.replace_cell(row, col, Cell { is_hidden: false, ..cell });
            if cell.adjacent_hazard_count == 0 {
                queue.push_back((row, col));
                proof {
                    lemma_region_step(g0, start.0, start.1, from.0, from.1, r, c);
                    assert(queue@[waiting.len() as int] == (row, col));
                }
            }
            proof {
                assert forall|pr: int, pc: int|
                    inside(g0, pr, pc) && #[trigger] in_region(g0, start.0, start.1, pr, pc)
                        && !self@[pr][pc].is_hidden implies queued(queue@, pr, pc) || expanded(
                    g0,
                    self@,
                    pr,
                    pc,
                ) || Some(from) == Some((pr, pc)) by {
                    if queued(waiting, pr, pc) && cell.adjacent_hazard_count == 0 {
                        lemma_queued_push(waiting, (row, col), pr, pc);
                    }
                }
            }
        }
    }
}

} // verus!
