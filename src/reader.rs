//! Reading a grid from text, one line at a time.
use vstd::prelude::*;
use crate::grid::{
    at, in_grid, is_digit, CellLocation, GridModel, SudokuGrid, EMPTY_CELL, INITIAL_VALUE, MAX_VALUE,
};

verus! {

/// The character that ends the input early.
pub const END_MARKER: char = ';';

/// The number of cells in the grid.
pub const CELL_COUNT: usize = 81;

/// The character stands for a cell: a digit or [`EMPTY_CELL`].
pub open spec fn is_symbol(c: char) -> bool {
    c == EMPTY_CELL || is_digit(c)
}

/// What reading has gathered: the symbols taken so far, in row-major order,
/// and whether reading is over.
pub type ReadState = (Seq<char>, bool);

/// The state after one more character: after [`END_MARKER`] reading is over;
/// a symbol is taken, and reading is over once 81 have been; any other
/// character is skipped. Nothing changes once reading is over.
pub open spec fn read_step(st: ReadState, c: char) -> ReadState {
    if st.1 {
        st
    } else if c == END_MARKER {
        (st.0, true)
    } else if is_symbol(c) {
        (st.0.push(c), st.0.len() + 1 >= 81)
    } else {
        st
    }
}

/// The state after each character of `s` in turn.
pub open spec fn read_all(st: ReadState, s: Seq<char>) -> ReadState
    decreases s.len(),
{
    if s.len() == 0 {
        st
    } else {
        read_step(read_all(st, s.drop_last()), s.last())
    }
}

/// The grid whose cells, in row-major order, hold `symbols` and then are empty.
pub open spec fn grid_of(symbols: Seq<char>) -> GridModel {
    Seq::new(9, |r: int| Seq::new(9, |c: int| if 9 * r + c < symbols.len() {
        symbols[9 * r + c]
    } else {
        EMPTY_CELL
    }))
}

/// Builds a grid from text: digits and [`EMPTY_CELL`] fill the cells row by
/// row, [`END_MARKER`] or the 81st cell ends the input, and every other
/// character is skipped.
pub struct GridReader {
    grid: SudokuGrid,
    count: usize,
    finished: bool,
}

impl View for GridReader {
    type V = ReadState;

    closed spec fn view(&self) -> ReadState {
        (Seq::new(self.count as nat, |k: int| at(self.grid@, k % 9, k / 9)), self.finished)
    }
}

impl GridReader {
    /// The fields agree: at most 81 cells are taken, reading is over once all
    /// are, and the cells not yet taken are empty.
    pub closed spec fn wf(&self) -> bool {
        &&& self.count <= 81
        &&& self.count == 81 ==> self.finished
        &&& forall|k: int| self.count <= k < 81 ==> #[trigger] at(self.grid@, k % 9, k / 9) == EMPTY_CELL
    }

    /// A reader that has taken nothing.
    pub fn new() -> (r: GridReader)
        ensures
            r.wf(),
            r@ == (Seq::<char>::empty(), false),
    {
        let r = GridReader { grid: SudokuGrid::create_empty_grid(), count: 0, finished: false };
        assert(r@.0 =~= Seq::<char>::empty());
        assert forall|k: int| 0 <= k < 81 implies #[trigger] at(r.grid@, k % 9, k / 9) == EMPTY_CELL by {
            assert(in_grid(k % 9, k / 9));
        }
        r
    }

    /// Whether reading is over.
    pub fn is_finished(&self) -> (r: bool)
        ensures
            r == self@.1,
    {
        self.finished
    }

    /// Takes one character.
    pub fn feed_char(&mut self, c: char)
        requires
            old(self).wf(),
        ensures
            final(self).wf(),
            final(self)@ == read_step(old(self)@, c),
    {
        if self.finished {
            return;
        }
        if c == END_MARKER {
            self.finished = true;
            return;
        }
        if c == EMPTY_CELL || (INITIAL_VALUE <= c && c <= MAX_VALUE) {
            let ghost before = self@.0;
            let location = CellLocation { x: self.count % 9, y: self.count / 9 };
            self.grid.set_cell(&location, c);
            self.count = self.count + 1;
            if self.count == CELL_COUNT {
                self.finished = true;
            }
            assert forall|k: int| 0 <= k < 81 && k != self.count - 1 implies #[trigger] at(
                self.grid@,
                k % 9,
                k / 9,
            ) == at(old(self).grid@, k % 9, k / 9) by {
                assert(k % 9 != (self.count - 1) % 9 || k / 9 != (self.count - 1) / 9);
            }
            assert(self@.0 =~= before.push(c));
        }
    }

    /// Takes each character of `line` in turn.
    pub fn feed_line(&mut self, line: &str)
        requires
            old(self).wf(),
        ensures
            final(self).wf(),
            final(self)@ == read_all(old(self)@, line@),
    {
        let ghost start = self@;
        let n = line.unicode_len();
        let mut i: usize = 0;
        while i < n
            invariant
                n == line@.len(),
                i <= n,
                self.wf(),
                self@ == read_all(start, line@.subrange(0, i as int)),
            decreases n - i,
        {
            let c = line.get_char(i);
            self.feed_char(c);
            assert(line@.subrange(0, i + 1).drop_last() =~= line@.subrange(0, i as int));
            i += 1;
        }
        assert(line@.subrange(0, n as int) =~= line@);
    }

    /// The grid read so far: the symbols taken fill the cells row by row and
    /// the remaining cells are empty.
    pub fn grid(&self) -> (g: SudokuGrid)
        requires
            self.wf(),
        ensures
            g@ == grid_of(self@.0),
    {
        let ghost symbols = self@.0;
        assert forall|r: int| 0 <= r < 9 implies #[trigger] self.grid@[r] =~= grid_of(symbols)[r] by {
            assert forall|c: int| 0 <= c < 9 implies self.grid@[r][c] == #[trigger] grid_of(symbols)[r][c] by {
                let k = 9 * r + c;
                assert(k % 9 == c && k / 9 == r);
                if k < self.count {
                    assert(symbols[k] == at(self.grid@, k % 9, k / 9));
                } else {
                    assert(at(self.grid@, k % 9, k / 9) == EMPTY_CELL);
                }
            }
        }
        assert(self.grid@ =~= grid_of(symbols));
        self.grid
    }
}

} // verus!
