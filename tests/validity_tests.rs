use sudoku::grid::{CellLocation, SudokuGrid, EMPTY_CELL};

fn loc(x: usize, y: usize) -> CellLocation {
    CellLocation { x, y }
}

fn with_cells(cells: &[(usize, usize, char)]) -> SudokuGrid {
    let mut g = SudokuGrid::create_empty_grid();
    for &(x, y, c) in cells {
        g.set_cell(&loc(x, y), c);
    }
    g
}

#[test]
fn empty_candidate_is_never_valid() {
    let empty = SudokuGrid::create_empty_grid();
    let busy = with_cells(&[(0, 0, '1'), (4, 4, '5'), (8, 8, '9')]);
    for y in 0..9 {
        for x in 0..9 {
            assert!(!empty.is_valid(&loc(x, y), EMPTY_CELL));
            assert!(!busy.is_valid(&loc(x, y), EMPTY_CELL));
        }
    }
}

#[test]
fn any_digit_is_valid_on_empty_grid() {
    let g = SudokuGrid::create_empty_grid();
    for d in ['1', '2', '3', '4', '5', '6', '7', '8', '9'] {
        assert!(g.is_valid(&loc(4, 6), d));
    }
}

#[test]
fn row_conflict_is_detected() {
    let g = with_cells(&[(7, 2, '3')]);
    assert!(!g.is_valid(&loc(0, 2), '3'));
    assert!(g.is_valid(&loc(0, 2), '4'));
}

#[test]
fn column_conflict_is_detected() {
    let g = with_cells(&[(5, 8, '6')]);
    assert!(!g.is_valid(&loc(5, 0), '6'));
    assert!(g.is_valid(&loc(6, 0), '6'));
}

#[test]
fn block_conflict_is_detected() {
    let g = with_cells(&[(4, 4, '2')]);
    assert!(!g.is_valid(&loc(3, 5), '2'));
    assert!(!g.is_valid(&loc(5, 3), '2'));
    assert!(g.is_valid(&loc(6, 6), '2'));
}

#[test]
fn cell_is_not_compared_with_itself() {
    let g = with_cells(&[(4, 4, '2')]);
    assert!(g.is_valid(&loc(4, 4), '2'));
}

#[test]
fn valid_grid_is_accepted() {
    let g = with_cells(&[(0, 0, '1'), (1, 1, '2'), (8, 0, '9'), (0, 8, '9')]);
    assert!(g.is_grid_valid());
    assert_eq!(g.find_invalid_cell(), None);
    assert!(SudokuGrid::create_empty_grid().is_grid_valid());
}

#[test]
fn duplicate_in_row_names_first_cell() {
    let g = with_cells(&[(1, 3, '7'), (6, 3, '7')]);
    assert!(!g.is_grid_valid());
    assert_eq!(g.find_invalid_cell(), Some(loc(1, 3)));
}

#[test]
fn duplicate_in_column_names_top_cell() {
    let g = with_cells(&[(2, 7, '4'), (2, 1, '4')]);
    assert_eq!(g.find_invalid_cell(), Some(loc(2, 1)));
}

#[test]
fn duplicate_in_block_names_first_cell() {
    let g = with_cells(&[(7, 8, '8'), (6, 6, '8')]);
    assert_eq!(g.find_invalid_cell(), Some(loc(6, 6)));
}

#[test]
fn valid_grid_has_no_repeated_digit() {
    let text = "534678912672195348198342567859761423426853791713924856961537284287419635345286179";
    let mut reader = sudoku::reader::GridReader::new();
    reader.feed_line(text);
    let g = reader.grid();
    assert!(g.is_grid_valid());
    for y in 0..9 {
        for x in 0..9 {
            for y2 in 0..9 {
                for x2 in 0..9 {
                    let shares = x == x2 || y == y2 || (x / 3 == x2 / 3 && y / 3 == y2 / 3);
                    if (x, y) != (x2, y2) && shares {
                        assert_ne!(g.cells[y][x], g.cells[y2][x2]);
                    }
                }
            }
        }
    }
}
