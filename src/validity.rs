//! The placement rules of Sudoku, checked cell by cell.
use vstd::prelude::*;
use crate::grid::{at, in_grid, scan_before, CellLocation, GridModel, SudokuGrid, EMPTY_CELL};

verus! {

/// Another cell of row `row` holds `c`.
pub open spec fn row_clash(g: GridModel, col: int, row: int, c: char) -> bool {
    exists|x: int| 0 <= x < 9 && x != col && #[trigger] at(g, x, row) == c
}

/// Another cell of column `col` holds `c`.
pub open spec fn col_clash(g: GridModel, col: int, row: int, c: char) -> bool {
    exists|y: int| 0 <= y < 9 && y != row && #[trigger] at(g, col, y) == c
}

/// The first column (or row) of the 3×3 block that holds index `i`.
pub open spec fn block_start(i: int) -> int {
    3 * (i / 3)
}

/// A cell of the 3×3 block of `(col, row)` that differs from it in both
/// column and row holds `c`. Cells of the block that share the row or the
/// column are left to the row and column checks.
pub open spec fn block_clash(g: GridModel, col: int, row: int, c: char) -> bool {
    exists|x: int, y: int|
        block_start(col) <= x < block_start(col) + 3 && block_start(row) <= y < block_start(row) + 3
            && x != col && y != row && #[trigger] at(g, x, y) == c
}

/// Placing `c` at `(col, row)` breaks no rule, whatever the cell holds now.
pub open spec fn placeable(g: GridModel, col: int, row: int, c: char) -> bool {
    &&& c != EMPTY_CELL
    &&& !row_clash(g, col, row, c)
    &&& !col_clash(g, col, row, c)
    &&& !block_clash(g, col, row, c)
}

/// The filled cell at `(col, row)` agrees with the rest of the grid.
pub open spec fn cell_ok(g: GridModel, col: int, row: int) -> bool {
    at(g, col, row) != EMPTY_CELL ==> placeable(g, col, row, at(g, col, row))
}

/// Every filled cell agrees with the rest of the grid.
pub open spec fn grid_valid(g: GridModel) -> bool {
    forall|col: int, row: int| in_grid(col, row) ==> #[trigger] cell_ok(g, col, row)
}

/// `(col, row)` breaks a rule and is the first such cell in column-major order.
pub open spec fn first_invalid(g: GridModel, col: int, row: int) -> bool {
    &&& in_grid(col, row)
    &&& !cell_ok(g, col, row)
    &&& forall|c: int, w: int|
        in_grid(c, w) && scan_before(c, w, col, row) ==> #[trigger] cell_ok(g, c, w)
}

impl SudokuGrid {
    /// Whether `candidate_value` may stand at `location` under the row,
    /// column and block rules; the cell's current content is ignored.
    pub fn is_valid(&self, location: &CellLocation, candidate_value: char) -> (r: bool)
        requires
            location.valid(),
        ensures
            r == placeable(self@, location.x as int, location.y as int, candidate_value),
            candidate_value == EMPTY_CELL ==> !r,
    {
        if candidate_value == EMPTY_CELL {
            return false;
        }
        let lx = location.x;
        let ly = location.y;
        let mut x: usize = 0;
        while x < 9
            invariant
                x <= 9,
                lx == location.x,
                ly == location.y,
                lx < 9,
                ly < 9,
                forall|i: int| 0 <= i < x && i != lx ==> at(self@, i, ly as int) != candidate_value,
            decreases 9 - x,
        {
            if self.cells[ly][x] == candidate_value && x != lx {
                assert(at(self@, x as int, ly as int) == candidate_value);
                assert(row_clash(self@, lx as int, ly as int, candidate_value));
                return false;
            }
            x += 1;
        }
        let mut y: usize = 0;
        while y < 9
            invariant
                y <= 9,
                lx == location.x,
                ly == location.y,
                lx < 9,
                ly < 9,
                forall|j: int| 0 <= j < y && j != ly ==> at(self@, lx as int, j) != candidate_value,
            decreases 9 - y,
        {
            if self.cells[y][lx] == candidate_value && y != ly {
                assert(at(self@, lx as int, y as int) == candidate_value);
                assert(col_clash(self@, lx as int, ly as int, candidate_value));
                return false;
            }
            y += 1;
        }
        let starting_x: usize = 3 * (lx / 3);
        let starting_y: usize = 3 * (ly / 3);
        assert(starting_x + 3 <= 9 && starting_y + 3 <= 9) by (nonlinear_arith)
            requires
                starting_x == 3 * (lx / 3),
                starting_y == 3 * (ly / 3),
                lx == location.x,
                ly == location.y,
                lx < 9,
                ly < 9,
        ;
        let mut dx: usize = 0;
        while dx < 3
            invariant
                dx <= 3,
                lx == location.x,
                ly == location.y,
                lx < 9,
                ly < 9,
                starting_x == block_start(lx as int),
                starting_y == block_start(ly as int),
                starting_x + 3 <= 9,
                starting_y + 3 <= 9,
                forall|i: int, j: int|
                    starting_x <= i < starting_x + dx && starting_y <= j < starting_y + 3 && i != lx
                        && j != ly ==> at(self@, i, j) != candidate_value,
            decreases 3 - dx,
        {
            let mut dy: usize = 0;
            while dy < 3
                invariant
                    dx < 3,
                    dy <= 3,
                    lx == location.x,
                ly == location.y,
                lx < 9,
                    ly < 9,
                    starting_x == block_start(lx as int),
                    starting_y == block_start(ly as int),
                    starting_x + 3 <= 9,
                    starting_y + 3 <= 9,
                    forall|i: int, j: int|
                        starting_x <= i < starting_x + dx && starting_y <= j < starting_y + 3 && i
                            != lx && j != ly ==> at(self@, i, j) != candidate_value,
                    forall|j: int|
                        starting_y <= j < starting_y + dy && starting_x + dx != lx && j != ly
                            ==> #[trigger] at(self@, starting_x + dx, j) != candidate_value,
                decreases 3 - dy,
            {
                let testing_cell_x = starting_x + dx;
                let testing_cell_y = starting_y + dy;
                if self.cells[testing_cell_y][testing_cell_x] == candidate_value && testing_cell_x
                    != lx && testing_cell_y != ly {
                    assert(at(self@, testing_cell_x as int, testing_cell_y as int) == candidate_value);
                    assert(block_clash(self@, lx as int, ly as int, candidate_value));
                    return false;
                }
                dy += 1;
            }
            dx += 1;
        }
        true
    }

    /// The first cell, in column-major order, whose symbol breaks a rule;
    /// `None` when every filled cell agrees with the rest of the grid.
    pub fn find_invalid_cell(&self) -> (r: Option<CellLocation>)
        ensures
            r is None <==> grid_valid(self@),
            r matches Some(loc) ==> loc.valid() && first_invalid(self@, loc.x as int, loc.y as int),
    {
        let mut x: usize = 0;
        while x < 9
            invariant
                x <= 9,
                forall|c: int, w: int| in_grid(c, w) && c < x ==> #[trigger] cell_ok(self@, c, w),
            decreases 9 - x,
        {
            let mut y: usize = 0;
            while y < 9
                invariant
                    x < 9,
                    y <= 9,
                    forall|c: int, w: int| in_grid(c, w) && c < x ==> #[trigger] cell_ok(self@, c, w),
                    forall|w: int| 0 <= w < y ==> #[trigger] cell_ok(self@, x as int, w),
                decreases 9 - y,
            {
                let loc = CellLocation { x, y };
                let value = self.cells[y][x];
                if value != EMPTY_CELL && !self.is_valid(&loc, value) {
                    assert(!cell_ok(self@, x as int, y as int) && in_grid(x as int, y as int));
                    return Some(loc);
                }
                y += 1;
            }
            x += 1;
        }
        None
    }

    /// Whether every filled cell agrees with the rest of the grid.
    pub fn is_grid_valid(&self) -> (r: bool)
        ensures
            r == grid_valid(self@),
    {
        self.find_invalid_cell().is_none()
    }
}

/// The cell `(x, y)` is compared with `(col, row)` by one of the three checks:
/// it shares the row, shares the column, or lies in the same block with both
/// coordinates different.
pub open spec fn sees(col: int, row: int, x: int, y: int) -> bool {
    ||| y == row && x != col
    ||| x == col && y != row
    ||| block_start(x) == block_start(col) && block_start(y) == block_start(row) && x != col && y
        != row
}

/// A placement breaks no rule exactly when no cell that it is compared with
/// holds the candidate.
pub proof fn lemma_placeable_by_sight(g: GridModel, col: int, row: int, c: char)
    requires
        in_grid(col, row),
    ensures
        placeable(g, col, row, c) <==> (c != EMPTY_CELL && forall|x: int, y: int|
            in_grid(x, y) && sees(col, row, x, y) ==> #[trigger] at(g, x, y) != c),
{
    if placeable(g, col, row, c) {
        assert forall|x: int, y: int| in_grid(x, y) && sees(col, row, x, y) implies #[trigger] at(
            g,
            x,
            y,
        ) != c by {
            if at(g, x, y) == c {
                if y == row && x != col {
                    assert(row_clash(g, col, row, c));
                } else if x == col && y != row {
                    assert(col_clash(g, col, row, c));
                } else {
                    assert(block_clash(g, col, row, c));
                }
            }
        }
    }
    if c != EMPTY_CELL && forall|x: int, y: int|
        in_grid(x, y) && sees(col, row, x, y) ==> #[trigger] at(g, x, y) != c {
        if row_clash(g, col, row, c) {
            let x = choose|x: int| 0 <= x < 9 && x != col && #[trigger] at(g, x, row) == c;
            assert(sees(col, row, x, row));
        }
        if col_clash(g, col, row, c) {
            let y = choose|y: int| 0 <= y < 9 && y != row && #[trigger] at(g, col, y) == c;
            assert(sees(col, row, col, y));
        }
        if block_clash(g, col, row, c) {
            let (x, y) = choose|x: int, y: int|
                block_start(col) <= x < block_start(col) + 3 && block_start(row) <= y
                    < block_start(row) + 3 && x != col && y != row && #[trigger] at(g, x, y) == c;
            assert(sees(col, row, x, y));
        }
    }
}

/// In a grid that passes the validity check, two different filled cells that
/// share a row, a column or a 3×3 block never hold the same symbol.
pub proof fn lemma_valid_grid_has_no_repeats(g: GridModel, c1: int, r1: int, c2: int, r2: int)
    requires
        grid_valid(g),
        in_grid(c1, r1),
        in_grid(c2, r2),
        c1 != c2 || r1 != r2,
        r1 == r2 || c1 == c2 || (block_start(c1) == block_start(c2) && block_start(r1)
            == block_start(r2)),
        at(g, c1, r1) != EMPTY_CELL,
    ensures
        at(g, c1, r1) != at(g, c2, r2),
{
    assert(cell_ok(g, c1, r1));
    lemma_placeable_by_sight(g, c1, r1, at(g, c1, r1));
    assert(sees(c1, r1, c2, r2));
}

} // verus!
