//! Backtracking search over the empty cells of a grid.
use vstd::prelude::*;
use crate::grid::{
    at, in_grid, increment_cell_value, is_digit, put, scan_before, shaped, CellLocation, GridModel,
    SudokuGrid, EMPTY_CELL, INITIAL_VALUE,
};
use crate::validity::{cell_ok, first_invalid, grid_valid, lemma_placeable_by_sight, placeable, sees};

verus! {

/// The symbol of the cell with flat index `k` in column-major order:
/// column `k / 9`, row `k % 9`.
pub open spec fn flat(g: GridModel, k: int) -> char {
    at(g, k / 9, k % 9)
}

/// How many of the first `k` cells, in column-major order, are empty.
pub open spec fn empties_within(g: GridModel, k: int) -> nat
    decreases k,
{
    if k <= 0 {
        0
    } else {
        empties_within(g, k - 1) + if flat(g, k - 1) == EMPTY_CELL {
            1nat
        } else {
            0nat
        }
    }
}

/// How many cells of the grid are empty.
pub open spec fn empty_count(g: GridModel) -> nat {
    empties_within(g, 81)
}

/// No cell of the grid is empty.
pub open spec fn filled(g: GridModel) -> bool {
    forall|c: int, r: int| in_grid(c, r) ==> #[trigger] at(g, c, r) != EMPTY_CELL
}

/// `h` is `g` with each empty cell given a digit and every other cell kept.
pub open spec fn completes(g: GridModel, h: GridModel) -> bool {
    &&& shaped(h)
    &&& forall|c: int, r: int|
        in_grid(c, r) ==> {
            &&& at(g, c, r) == EMPTY_CELL ==> is_digit(#[trigger] at(h, c, r))
            &&& at(g, c, r) != EMPTY_CELL ==> at(h, c, r) == at(g, c, r)
        }
}

/// Read column by column, `h1` comes before `h2`: at the first cell where
/// they differ, `h1` holds the smaller symbol.
pub open spec fn scan_less(h1: GridModel, h2: GridModel) -> bool {
    exists|k: int|
        0 <= k < 81 && #[trigger] flat(h1, k) < flat(h2, k) && forall|j: int|
            0 <= j < k ==> #[trigger] flat(h1, j) == flat(h2, j)
}

/// Some completion of `g` breaks no rule.
pub open spec fn solvable(g: GridModel) -> bool {
    exists|h: GridModel| completes(g, h) && grid_valid(h)
}

/// Filling one empty cell lowers the count of empty cells below `k` by one
/// when the cell lies below `k`, and leaves it alone otherwise.
proof fn lemma_empties_after_fill(g: GridModel, col: int, row: int, v: char, k: int)
    requires
        shaped(g),
        in_grid(col, row),
        at(g, col, row) == EMPTY_CELL,
        v != EMPTY_CELL,
        0 <= k <= 81,
    ensures
        empties_within(put(g, col, row, v), k) + (if 9 * col + row < k {
            1nat
        } else {
            0nat
        }) == empties_within(g, k),
    decreases k,
{
    if k > 0 {
        lemma_empties_after_fill(g, col, row, v, k - 1);
        let j = k - 1;
        assert(0 <= j / 9 < 9 && 0 <= j % 9 < 9);
        assert((j / 9 == col && j % 9 == row) <==> j == 9 * col + row);
    }
}

/// A full grid completes itself.
proof fn lemma_filled_completes_itself(g: GridModel)
    requires
        shaped(g),
        filled(g),
    ensures
        completes(g, g),
{
}

/// Placing a digit that breaks no rule into an empty cell of a valid grid
/// keeps the grid valid.
proof fn lemma_place_keeps_valid(g: GridModel, col: int, row: int, v: char)
    requires
        shaped(g),
        in_grid(col, row),
        grid_valid(g),
        placeable(g, col, row, v),
    ensures
        grid_valid(put(g, col, row, v)),
{
    let g1 = put(g, col, row, v);
    lemma_placeable_by_sight(g, col, row, v);
    assert forall|c: int, r: int| in_grid(c, r) implies #[trigger] cell_ok(g1, c, r) by {
        lemma_placeable_by_sight(g1, c, r, at(g1, c, r));
        if c == col && r == row {
            assert forall|x: int, y: int| in_grid(x, y) && sees(c, r, x, y) implies #[trigger] at(
                g1,
                x,
                y,
            ) != v by {
                assert(at(g1, x, y) == at(g, x, y));
            }
        } else if at(g1, c, r) != EMPTY_CELL {
            let w = at(g, c, r);
            assert(at(g1, c, r) == w);
            assert(cell_ok(g, c, r));
            lemma_placeable_by_sight(g, c, r, w);
            assert forall|x: int, y: int| in_grid(x, y) && sees(c, r, x, y) implies #[trigger] at(
                g1,
                x,
                y,
            ) != w by {
                if x == col && y == row {
                    assert(sees(col, row, c, r));
                    assert(at(g, c, r) != v);
                } else {
                    assert(at(g1, x, y) == at(g, x, y));
                }
            }
        }
    }
}

/// A valid completion of `g` puts at `(col, row)` a digit that breaks no rule
/// in `g`, and it completes `g` with that digit placed there.
proof fn lemma_solution_digit(g: GridModel, h: GridModel, col: int, row: int)
    requires
        shaped(g),
        in_grid(col, row),
        at(g, col, row) == EMPTY_CELL,
        completes(g, h),
        grid_valid(h),
    ensures
        is_digit(at(h, col, row)),
        placeable(g, col, row, at(h, col, row)),
        completes(put(g, col, row, at(h, col, row)), h),
{
    let d = at(h, col, row);
    assert(cell_ok(h, col, row));
    lemma_placeable_by_sight(h, col, row, d);
    lemma_placeable_by_sight(g, col, row, d);
    assert forall|x: int, y: int| in_grid(x, y) && sees(col, row, x, y) implies #[trigger] at(
        g,
        x,
        y,
    ) != d by {
        assert(at(h, x, y) != d);
    }
    let g1 = put(g, col, row, d);
    assert forall|c: int, r: int| in_grid(c, r) implies {
        &&& at(g1, c, r) == EMPTY_CELL ==> is_digit(#[trigger] at(h, c, r))
        &&& at(g1, c, r) != EMPTY_CELL ==> at(h, c, r) == at(g1, c, r)
    } by {
        assert(at(g, c, r) == EMPTY_CELL ==> is_digit(at(h, c, r)));
    }
}

/// The completion found through digit `v` at the first empty cell comes
/// first among all valid completions, given that no smaller digit there led
/// to one and that the search below `v` returned the first.
proof fn lemma_first_of_search(g: GridModel, f: GridModel, col: int, row: int, v: char)
    requires
        shaped(g),
        in_grid(col, row),
        at(g, col, row) == EMPTY_CELL,
        forall|c: int, w: int|
            in_grid(c, w) && scan_before(c, w, col, row) ==> #[trigger] at(g, c, w) != EMPTY_CELL,
        is_digit(v),
        forall|d: char|
            is_digit(d) && d < v ==> !(#[trigger] placeable(g, col, row, d) && solvable(
                put(g, col, row, d),
            )),
        completes(g, f),
        completes(put(g, col, row, v), f),
        forall|h: GridModel|
            completes(put(g, col, row, v), h) && grid_valid(h) ==> !#[trigger] scan_less(h, f),
    ensures
        forall|h: GridModel| completes(g, h) && grid_valid(h) ==> !#[trigger] scan_less(h, f),
{
    let p = 9 * col + row;
    assert(p / 9 == col && p % 9 == row);
    assert forall|h: GridModel| completes(g, h) && grid_valid(h) implies !#[trigger] scan_less(
        h,
        f,
    ) by {
        if scan_less(h, f) {
            let k = choose|k: int|
                0 <= k < 81 && #[trigger] flat(h, k) < flat(f, k) && forall|j: int|
                    0 <= j < k ==> #[trigger] flat(h, j) == flat(f, j);
            lemma_solution_digit(g, h, col, row);
            let d = at(h, col, row);
            assert(0 <= k / 9 < 9 && 0 <= k % 9 < 9);
            if k < p {
                assert(scan_before(k / 9, k % 9, col, row));
                assert(at(g, k / 9, k % 9) != EMPTY_CELL);
            } else if k == p {
                assert(at(f, col, row) == v);
                assert(solvable(put(g, col, row, d)));
                assert(!placeable(g, col, row, d));
            } else {
                assert(flat(h, p) == flat(f, p));
                assert(at(f, col, row) == v);
                assert(completes(put(g, col, row, v), h));
            }
        }
    }
}

impl SudokuGrid {
    /// Fills the empty cells by backtracking: the first empty cell in
    /// column-major order takes each digit `'1'..='9'` in turn that breaks no
    /// rule, and the search goes on from there. On success the filled grid
    /// stays in place; on failure the grid is left as it was.
    pub fn solve_grid(&mut self) -> (solved: bool)
        ensures
            solved ==> completes(old(self)@, final(self)@),
            solved && grid_valid(old(self)@) ==> grid_valid(final(self)@),
            !solved ==> final(self)@ == old(self)@ && !solvable(old(self)@),
            solved && grid_valid(old(self)@) ==> forall|h: GridModel|
                completes(old(self)@, h) && grid_valid(h) ==> !#[trigger] scan_less(h, final(self)@),
        decreases empty_count(old(self)@),
    {
        let ghost g = self@;
        let location = match self.get_next_empty_location() {
            None => {
                proof {
                    lemma_filled_completes_itself(g);
                }
                return true;
            },
            Some(location) => location,
        };
        let ghost col = location.x as int;
        let ghost row = location.y as int;
        let mut current_value = INITIAL_VALUE;
        while current_value != EMPTY_CELL
            invariant
                self@ == g,
                old(self)@ == g,
                shaped(g),
                location.valid(),
                col == location.x,
                row == location.y,
                at(g, col, row) == EMPTY_CELL,
                forall|c: int, w: int|
                    in_grid(c, w) && scan_before(c, w, col, row) ==> #[trigger] at(g, c, w) != EMPTY_CELL,
                current_value == EMPTY_CELL || is_digit(current_value),
                forall|d: char|
                    is_digit(d) && (current_value == EMPTY_CELL || d < current_value) ==> !(
                    #[trigger] placeable(g, col, row, d) && solvable(put(g, col, row, d))),
            decreases (if current_value == EMPTY_CELL {
                0
            } else {
                58 - current_value as int
            }),
        {
            if self.is_valid(&location, current_value) {
                self.set_cell(&location, current_value);
                proof {
                    lemma_empties_after_fill(g, col, row, current_value, 81);
                }
                if self.solve_grid() {
                    proof {
                        let g1 = put(g, col, row, current_value);
                        let h = self@;
                        self.lemma_shaped();
                        assert forall|c: int, r: int| in_grid(c, r) implies {
                            &&& at(g, c, r) == EMPTY_CELL ==> is_digit(#[trigger] at(h, c, r))
                            &&& at(g, c, r) != EMPTY_CELL ==> at(h, c, r) == at(g, c, r)
                        } by {
                            assert(at(g1, c, r) == EMPTY_CELL ==> is_digit(at(h, c, r)));
                            assert(at(g1, c, r) != EMPTY_CELL ==> at(h, c, r) == at(g1, c, r));
                        }
                        if grid_valid(g) {
                            lemma_place_keeps_valid(g, col, row, current_value);
                            lemma_first_of_search(g, h, col, row, current_value);
                        }
                    }
                    return true;
                }
                self.clear_cell(&location);
                proof {
                    assert(self@ =~~= g);
                }
            }
            current_value = increment_cell_value(current_value);
        }
        proof {
            if solvable(g) {
                let h = choose|h: GridModel| completes(g, h) && grid_valid(h);
                lemma_solution_digit(g, h, col, row);
                assert(placeable(g, col, row, at(h, col, row)));
            }
        }
        false
    }
}

/// How solving a puzzle ended.
#[derive(Clone, Copy, Debug, PartialEq, Eq)]
pub enum Outcome {
    /// The puzzle breaks a rule; the location is the first offending cell in
    /// column-major order. No search was made.
    Invalid(CellLocation),
    /// The grid now holds the first valid completion of the puzzle in
    /// column-major order.
    Solved,
    /// The puzzle breaks no rule but has no valid completion.
    Unsolvable,
}

/// Checks the puzzle in `grid` and, when it breaks no rule, solves it in place.
pub fn solve_puzzle(grid: &mut SudokuGrid) -> (r: Outcome)
    ensures
        match r {
            Outcome::Invalid(loc) => {
                &&& loc.valid()
                &&& first_invalid(old(grid)@, loc.x as int, loc.y as int)
                &&& final(grid)@ == old(grid)@
            },
            Outcome::Solved => {
                &&& grid_valid(old(grid)@)
                &&& completes(old(grid)@, final(grid)@)
                &&& grid_valid(final(grid)@)
                &&& forall|h: GridModel|
                    completes(old(grid)@, h) && grid_valid(h) ==> !#[trigger] scan_less(h, final(grid)@)
            },
            Outcome::Unsolvable => {
                &&& grid_valid(old(grid)@)
                &&& !solvable(old(grid)@)
                &&& final(grid)@ == old(grid)@
            },
        },
        (r is Invalid) <==> !grid_valid(old(grid)@),
{
    match grid.find_invalid_cell() {
        Some(loc) => Outcome::Invalid(loc),
        None => {
            if grid.solve_grid() {
                Outcome::Solved
            } else {
                Outcome::Unsolvable
            }
        },
    }
}

} // verus!
