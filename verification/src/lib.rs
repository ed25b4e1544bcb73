//! A 9×9 Sudoku board with a verified backtracking solver.
//!
//! The board is a plain `[[i32; 9]; 9]`, `0` standing for an empty cell.
//! Every contract is stated over [`board::Grid`], the board read as nine
//! rows of nine mathematical integers.

pub mod board;
pub mod order;
pub mod rules;
pub mod solution;
pub mod solver;
pub mod input;
