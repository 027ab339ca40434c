//! Storage for a 9×9 grid of symbols and its mathematical model.
use vstd::prelude::*;

verus! {

/// The marker of a cell that holds no digit.
pub const EMPTY_CELL: char = '.';

/// The first candidate tried for a cell.
pub const INITIAL_VALUE: char = '1';

/// The last candidate tried for a cell.
pub const MAX_VALUE: char = '9';

/// A grid seen as rows of symbols: `g[row][col]`.
pub type GridModel = Seq<Seq<char>>;

/// The symbol is one of the digits `'1'..='9'`.
pub open spec fn is_digit(c: char) -> bool {
    INITIAL_VALUE <= c && c <= MAX_VALUE
}

/// The model has nine rows of nine symbols.
pub open spec fn shaped(g: GridModel) -> bool {
    &&& g.len() == 9
    &&& forall|r: int| 0 <= r < 9 ==> #[trigger] g[r].len() == 9
}

/// Both coordinates lie in `0..9`.
pub open spec fn in_grid(col: int, row: int) -> bool {
    0 <= col < 9 && 0 <= row < 9
}

/// The symbol at column `col` and row `row`.
pub open spec fn at(g: GridModel, col: int, row: int) -> char {
    g[row][col]
}

/// The grid with the symbol at `(col, row)` replaced by `c`.
pub open spec fn put(g: GridModel, col: int, row: int, c: char) -> GridModel {
    g.update(row, g[row].update(col, c))
}

/// `(c1, r1)` comes before `(c2, r2)` when the grid is read column by column,
/// each column from top to bottom.
pub open spec fn scan_before(c1: int, r1: int, c2: int, r2: int) -> bool {
    c1 < c2 || (c1 == c2 && r1 < r2)
}

/// The candidate that follows `value`: the next digit, or [`EMPTY_CELL`]
/// after `'9'` and after [`EMPTY_CELL`] itself.
pub open spec fn next_candidate(value: char) -> char {
    if value == EMPTY_CELL || value == MAX_VALUE {
        EMPTY_CELL
    } else {
        ((value as u32) + 1) as char
    }
}

/// A cell, by column `x` and row `y`.
#[derive(Clone, Copy, Debug, PartialEq, Eq, Structural)]
pub struct CellLocation {
    pub x: usize,
    pub y: usize,
}

impl CellLocation {
    /// Both coordinates lie in `0..9`.
    pub open spec fn valid(&self) -> bool {
        self.x < 9 && self.y < 9
    }
}

/// A 9×9 grid; each cell holds a digit or [`EMPTY_CELL`], as `cells[row][col]`.
#[derive(Clone, Copy, Debug, PartialEq, Eq)]
pub struct SudokuGrid {
    pub cells: [[char; 9]; 9],
}

impl View for SudokuGrid {
    type V = GridModel;

    open spec fn view(&self) -> GridModel {
        Seq::new(9, |r: int| self.cells@[r]@)
    }
}

impl SudokuGrid {
    /// Every view of a grid is nine rows of nine symbols.
    pub proof fn lemma_shaped(&self)
        ensures
            shaped(self@),
    {
    }

    /// A grid whose every cell is empty.
    pub fn create_empty_grid() -> (g: SudokuGrid)
        ensures
            shaped(g@),
            forall|c: int, r: int| in_grid(c, r) ==> #[trigger] at(g@, c, r) == EMPTY_CELL,
    {
        SudokuGrid { cells: [[EMPTY_CELL; 9]; 9] }
    }

    /// The symbol at `location`.
    pub fn get_cell(&self, location: &CellLocation) -> (c: char)
        requires
            location.valid(),
        ensures
            c == at(self@, location.x as int, location.y as int),
    {
        self.cells[location.y][location.x]
    }

    /// Stores `value` at `location`, without any check of the rules.
    pub fn set_cell(&mut self, location: &CellLocation, value: char)
        requires
            location.valid(),
        ensures
            final(self)@ == put(old(self)@, location.x as int, location.y as int, value),
    {
        let mut row = self.cells[location.y];
        row[location.x] = value;
        self.cells[location.y] = row;
        proof {
            assert(final(self)@ =~= put(old(self)@, location.x as int, location.y as int, value));
        }
    }

    /// Empties the cell at `location`.
    pub fn clear_cell(&mut self, location: &CellLocation)
        requires
            location.valid(),
        ensures
            final(self)@ == put(old(self)@, location.x as int, location.y as int, EMPTY_CELL),
    {
        self.set_cell(location, EMPTY_CELL)
    }

    /// The first empty cell in column-major order (columns left to right,
    /// each from top to bottom), or `None` when every cell is filled.
    pub fn get_next_empty_location(&self) -> (r: Option<CellLocation>)
        ensures
            r is None <==> forall|c: int, w: int| in_grid(c, w) ==> #[trigger] at(self@, c, w) != EMPTY_CELL,
            r matches Some(loc) ==> {
                &&& loc.valid()
                &&& at(self@, loc.x as int, loc.y as int) == EMPTY_CELL
                &&& forall|c: int, w: int|
                    in_grid(c, w) && scan_before(c, w, loc.x as int, loc.y as int) ==> #[trigger] at(
                        self@,
                        c,
                        w,
                    ) != EMPTY_CELL
            },
    {
        let mut x: usize = 0;
        while x < 9
            invariant
                x <= 9,
                forall|c: int, w: int| in_grid(c, w) && c < x ==> #[trigger] at(self@, c, w) != EMPTY_CELL,
            decreases 9 - x,
        {
            let mut y: usize = 0;
            while y < 9
                invariant
                    x < 9,
                    y <= 9,
                    forall|c: int, w: int|
                        in_grid(c, w) && c < x ==> #[trigger] at(self@, c, w) != EMPTY_CELL,
                    forall|w: int| 0 <= w < y ==> #[trigger] at(self@, x as int, w) != EMPTY_CELL,
                decreases 9 - y,
            {
                if self.cells[y][x] == EMPTY_CELL {
                    assert(at(self@, x as int, y as int) == EMPTY_CELL);
                    return Some(CellLocation { x, y });
                }
                y += 1;
            }
            x += 1;
        }
        None
    }
}

/// The candidate tried after `value` for a cell.
pub fn increment_cell_value(value: char) -> (r: char)
    requires
        value == EMPTY_CELL || is_digit(value),
    ensures
        r == next_candidate(value),
        r == EMPTY_CELL || is_digit(r),
{
    if value == EMPTY_CELL || value == MAX_VALUE {
        return EMPTY_CELL;
    }
    ((value as u8) + 1) as char
}

} // verus!
