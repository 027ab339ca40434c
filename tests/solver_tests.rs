use sudoku::grid::{CellLocation, SudokuGrid, EMPTY_CELL};
use sudoku::reader::GridReader;
use sudoku::solver::{solve_puzzle, Outcome};

fn grid_from(text: &str) -> SudokuGrid {
    let mut reader = GridReader::new();
    reader.feed_line(text);
    reader.grid()
}

fn loc(x: usize, y: usize) -> CellLocation {
    CellLocation { x, y }
}

fn is_full(g: &SudokuGrid) -> bool {
    g.get_next_empty_location().is_none()
}

const SOLVED: &str = "534678912 672195348 198342567 859761423 426853791 713924856 961537284 287419635 345286179";

#[test]
fn empty_grid_is_valid_and_solvable() {
    let mut g = SudokuGrid::create_empty_grid();
    assert!(g.is_grid_valid());
    assert!(g.solve_grid());
    assert!(is_full(&g));
    assert!(g.is_grid_valid());
}

#[test]
fn empty_grid_solution_is_deterministic() {
    let mut a = SudokuGrid::create_empty_grid();
    let mut b = SudokuGrid::create_empty_grid();
    assert!(a.solve_grid());
    assert!(b.solve_grid());
    assert_eq!(a, b);
    // The first column takes the digits in increasing order.
    for y in 0..9 {
        assert_eq!(a.cells[y][0], (b'1' + y as u8) as char);
    }
}

#[test]
fn empty_grid_outcome_is_solved() {
    let mut g = SudokuGrid::create_empty_grid();
    assert_eq!(solve_puzzle(&mut g), Outcome::Solved);
    assert!(is_full(&g));
    assert!(g.is_grid_valid());
}

#[test]
fn duplicate_in_row_is_reported_invalid() {
    let mut g = SudokuGrid::create_empty_grid();
    g.set_cell(&loc(2, 4), '6');
    g.set_cell(&loc(7, 4), '6');
    let before = g;
    assert!(!g.is_grid_valid());
    assert_eq!(solve_puzzle(&mut g), Outcome::Invalid(loc(2, 4)));
    assert_eq!(g, before);
}

#[test]
fn one_missing_cell_is_filled_with_its_digit() {
    let mut g = grid_from(SOLVED);
    g.clear_cell(&loc(4, 4));
    assert_eq!(solve_puzzle(&mut g), Outcome::Solved);
    assert_eq!(g.get_cell(&loc(4, 4)), '5');
    assert_eq!(g, grid_from(SOLVED));
}

#[test]
fn known_puzzle_is_solved() {
    let puzzle = "53..7.... 6..195... .98....6. 8...6...3 4..8.3..1 7...2...6 .6....28. ...419..5 ....8..79";
    let mut g = grid_from(puzzle);
    assert_eq!(solve_puzzle(&mut g), Outcome::Solved);
    assert_eq!(g, grid_from(SOLVED));
}

#[test]
fn valid_but_unsolvable_grid_is_reported() {
    // Column 0 holds 1..8, so its last cell needs 9, which row 8 already has.
    let mut g = SudokuGrid::create_empty_grid();
    for y in 0..8 {
        g.set_cell(&loc(0, y), (b'1' + y as u8) as char);
    }
    g.set_cell(&loc(5, 8), '9');
    let before = g;
    assert!(g.is_grid_valid());
    assert!(!g.solve_grid());
    assert_eq!(g, before);
    let mut h = before;
    assert_eq!(solve_puzzle(&mut h), Outcome::Unsolvable);
    assert_eq!(h, before);
}

#[test]
fn full_grid_solves_without_change() {
    let mut g = grid_from(SOLVED);
    assert!(g.solve_grid());
    assert_eq!(g, grid_from(SOLVED));
}

#[test]
fn solved_grid_keeps_given_cells() {
    let mut g = SudokuGrid::create_empty_grid();
    g.set_cell(&loc(8, 8), '1');
    g.set_cell(&loc(3, 0), '7');
    assert!(g.solve_grid());
    assert_eq!(g.get_cell(&loc(8, 8)), '1');
    assert_eq!(g.get_cell(&loc(3, 0)), '7');
    assert!(is_full(&g));
    assert!(g.is_grid_valid());
    assert_ne!(g.get_cell(&loc(0, 0)), EMPTY_CELL);
}
