//! A board's counts written out as text, a line for each row.
use vstd::prelude::*;
use crate::board::Board;
use crate::cell::Cell;
use crate::grid::Grid;

verus! {

/// The decimal digit for a count below ten.
pub open spec fn digit(count: u8) -> char {
    (48 + count) as char
}

/// The counts of a row, one digit each, with a blank between neighbours.
pub open spec fn row_text(row: Seq<Cell>) -> Seq<char>
    decreases row.len(),
{
    if row.len() == 0 {
        Seq::empty()
    } else if row.len() == 1 {
        seq![digit(row[0].adjacent_hazard_count)]
    } else {
        row_text(row.drop_last()).push(' ').push(digit(row.last().adjacent_hazard_count))
    }
}

/// The counts of a grid: the text of each row, with a line break between
/// one row and the next.
pub open spec fn grid_text(g: Grid) -> Seq<char>
    decreases g.len(),
{
    if g.len() == 0 {
        Seq::empty()
    } else if g.len() == 1 {
        row_text(g[0])
    } else {
        grid_text(g.drop_last()).push('\n') + row_text(g.last())
    }
}

/// Appends a character to a string, by `String::push`, of which the
/// standard library says that it appends the given character to the end of
/// the string.
#[verifier::external_body]
fn push_char(text: &mut String, c: char)
    ensures
        final(text)@ == old(text)@.push(c),
{
    text.push(c);
}

impl Board {
    /// The number of hazards around each cell, written out row by row: the
    /// counts of a row stand on one line with a blank between them.
    pub fn counts_text(&self) -> (text: String)
        requires
            self.wf(),
        ensures
            text@ == grid_text(self@),
    {
        let n = self.side_length();
        let mut text = String::new();
        let mut row: usize = 0;
        while row < n
            invariant
                self.wf(),
                n == self.spec_difficulty().side_length,
                row <= n,
                text@ == grid_text(self@.take(row as int)),
            decreases n - row,
        {
            if row > 0 {
                push_char(&mut text, '\n');
            }
            let ghost above = text@;
            let ghost cells = self@[row as int];
            let mut col: usize = 0;
            while col < n
                invariant
                    self.wf(),
                    n == self.spec_difficulty().side_length,
                    row < n,
                    col <= n,
                    cells == self@[row as int],
                    text@ == above + row_text(cells.take(col as int)),
                decreases n - col,
            {
                if col > 0 {
                    push_char(&mut text, ' ');
                }
                let count = self.cell_at(row, col).adjacent_hazard_count;
                push_char(&mut text, (48 + count) as char);
                proof {
                    assert(cells.take(col + 1).drop_last() =~= cells.take(col as int));
                }
                col += 1;
            }
            proof {
                assert(cells.take(n as int) =~= cells);
                assert(self@.take(row + 1).drop_last() =~= self@.take(row as int));
            }
            row += 1;
        }
        proof {
            assert(self@.take(n as int) =~= self@);
        }
        text
    }
}

} // verus!
