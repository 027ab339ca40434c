use sudoku::grid::{CellLocation, SudokuGrid, EMPTY_CELL};
use sudoku::reader::GridReader;

fn loc(x: usize, y: usize) -> CellLocation {
    CellLocation { x, y }
}

#[test]
fn reader_fills_rows_and_skips_other_characters() {
    let mut r = GridReader::new();
    r.feed_line("1 2,x3\n");
    assert!(!r.is_finished());
    r.feed_line("..4");
    let g = r.grid();
    assert_eq!(g.get_cell(&loc(0, 0)), '1');
    assert_eq!(g.get_cell(&loc(1, 0)), '2');
    assert_eq!(g.get_cell(&loc(2, 0)), '3');
    assert_eq!(g.get_cell(&loc(3, 0)), EMPTY_CELL);
    assert_eq!(g.get_cell(&loc(5, 0)), '4');
    assert_eq!(g.get_cell(&loc(6, 0)), EMPTY_CELL);
}

#[test]
fn reader_wraps_to_next_row() {
    let mut r = GridReader::new();
    r.feed_line("123456789 7");
    let g = r.grid();
    assert_eq!(g.get_cell(&loc(8, 0)), '9');
    assert_eq!(g.get_cell(&loc(0, 1)), '7');
}

#[test]
fn reader_stops_at_end_marker() {
    let mut r = GridReader::new();
    r.feed_line("12;34");
    assert!(r.is_finished());
    r.feed_line("56");
    let g = r.grid();
    assert_eq!(g.get_cell(&loc(1, 0)), '2');
    assert_eq!(g.get_cell(&loc(2, 0)), EMPTY_CELL);
}

#[test]
fn reader_stops_after_all_cells() {
    let mut r = GridReader::new();
    let row = "123456789";
    for _ in 0..8 {
        r.feed_line(row);
        assert!(!r.is_finished());
    }
    r.feed_line("12345678");
    assert!(!r.is_finished());
    r.feed_line("95");
    assert!(r.is_finished());
    let g = r.grid();
    assert_eq!(g.get_cell(&loc(8, 8)), '9');
    assert_eq!(g.get_cell(&loc(0, 0)), '1');
}

#[test]
fn render_groups_cells_into_blocks() {
    let mut g = SudokuGrid::create_empty_grid();
    g.set_cell(&loc(0, 0), '1');
    g.set_cell(&loc(4, 3), '5');
    let dots = ".  .  .    .  .  .    .  .  .    \n";
    let mut expected = String::new();
    expected.push_str("1  .  .    .  .  .    .  .  .    \n");
    expected.push_str(dots);
    expected.push_str(dots);
    expected.push('\n');
    expected.push_str(".  .  .    .  5  .    .  .  .    \n");
    expected.push_str(dots);
    expected.push_str(dots);
    expected.push('\n');
    expected.push_str(dots);
    expected.push_str(dots);
    expected.push_str(dots);
    expected.push('\n');
    assert_eq!(g.render(), expected);
}

#[test]
fn render_twice_gives_same_text() {
    let mut g = SudokuGrid::create_empty_grid();
    g.set_cell(&loc(7, 2), '8');
    let first = g.render();
    let second = g.render();
    assert_eq!(first, second);
    assert!(first.contains('8'));
}
