//! The grid as text, grouped into 3×3 blocks.
use vstd::prelude::*;
use crate::grid::{at, GridModel, SudokuGrid};

verus! {

/// The first `n` cells of row `row`: each cell followed by two spaces, and
/// two more spaces after every third cell.
pub open spec fn row_text(g: GridModel, row: int, n: int) -> Seq<char>
    decreases n,
{
    if n <= 0 {
        Seq::empty()
    } else {
        row_text(g, row, n - 1) + seq![at(g, n - 1, row), ' ', ' '] + if n % 3 == 0 {
            seq![' ', ' ']
        } else {
            Seq::empty()
        }
    }
}

/// Row `row` as a line, with a blank line after the third and sixth rows.
pub open spec fn line_text(g: GridModel, row: int) -> Seq<char> {
    row_text(g, row, 9) + seq!['\n'] + if row == 2 || row == 5 {
        seq!['\n']
    } else {
        Seq::empty()
    }
}

/// The lines of the first `n` rows.
pub open spec fn lines_text(g: GridModel, n: int) -> Seq<char>
    decreases n,
{
    if n <= 0 {
        Seq::empty()
    } else {
        lines_text(g, n - 1) + line_text(g, n - 1)
    }
}

/// The whole grid as text, ending with a blank line.
pub open spec fn rendered(g: GridModel) -> Seq<char> {
    lines_text(g, 9) + seq!['\n']
}

/// Relies on `String::push`: the character is appended at the end.
#[verifier::external_body]
fn push_char(s: &mut String, c: char)
    ensures
        final(s)@ == old(s)@.push(c),
{
    s.push(c)
}

/// Appends two spaces.
fn push_gap(s: &mut String)
    ensures
        final(s)@ == old(s)@ + seq![' ', ' '],
{
    push_char(s, ' ');
    push_char(s, ' ');
    assert(s@ =~= old(s)@ + seq![' ', ' ']);
}

impl SudokuGrid {
    /// The grid as text: nine lines of cells grouped in threes, a blank line
    /// after every third line, and a blank line at the end.
    pub fn render(&self) -> (text: String)
        ensures
            text@ == rendered(self@),
    {
        let mut out = String::new();
        let mut y: usize = 0;
        while y < 9
            invariant
                y <= 9,
                out@ == lines_text(self@, y as int),
            decreases 9 - y,
        {
            let ghost before = out@;
            let mut x: usize = 0;
            while x < 9
                invariant
                    y < 9,
                    x <= 9,
                    out@ == before + row_text(self@, y as int, x as int),
                decreases 9 - x,
            {
                push_char(&mut out, self.cells[y][x]);
                push_gap(&mut out);
                if x % 3 == 2 {
                    push_gap(&mut out);
                }
                x += 1;
                assert(out@ =~= before + row_text(self@, y as int, x as int));
            }
            push_char(&mut out, '\n');
            if y == 2 || y == 5 {
                push_char(&mut out, '\n');
            }
            y += 1;
            assert(out@ =~= lines_text(self@, y as int));
        }
        push_char(&mut out, '\n');
        assert(out@ =~= rendered(self@));
        out
    }
}

/// Rendering reads the grid and nothing else: equal grids give equal text,
/// so rendering an unchanged grid twice gives the same text both times.
pub proof fn lemma_render_repeatable(a: SudokuGrid, b: SudokuGrid)
    requires
        a@ == b@,
    ensures
        rendered(a@) == rendered(b@),
{
}

} // verus!
