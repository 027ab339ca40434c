//! A 9×9 Sudoku grid with verified constraint checking and a verified
//! backtracking solver.
pub mod grid;
pub mod validity;
pub mod solver;
pub mod reader;
pub mod render;
