use sudoku::rules::{is_consistent, is_safe, used_in_box, used_in_col, used_in_row};

const PUZZLE: [[i32; 9]; 9] = [
    [5, 3, 0, 0, 7, 0, 0, 0, 0],
    [6, 0, 0, 1, 9, 5, 0, 0, 0],
    [0, 9, 8, 0, 0, 0, 0, 6, 0],
    [8, 0, 0, 0, 6, 0, 0, 0, 3],
    [4, 0, 0, 8, 0, 3, 0, 0, 1],
    [7, 0, 0, 0, 2, 0, 0, 0, 6],
    [0, 6, 0, 0, 0, 0, 2, 8, 0],
    [0, 0, 0, 4, 1, 9, 0, 0, 5],
    [0, 0, 0, 0, 8, 0, 0, 7, 9],
];

#[test]
fn row_check_finds_what_is_there() {
    assert!(used_in_row(PUZZLE, 0, 5));
    assert!(used_in_row(PUZZLE, 0, 7));
    assert!(!used_in_row(PUZZLE, 0, 1));
    assert!(used_in_row(PUZZLE, 8, 9));
    assert!(!used_in_row(PUZZLE, 8, 5));
    assert!(used_in_row(PUZZLE, 0, 0));
}

#[test]
fn column_check_finds_what_is_there() {
    assert!(used_in_col(PUZZLE, 0, 8));
    assert!(used_in_col(PUZZLE, 8, 9));
    assert!(!used_in_col(PUZZLE, 0, 9));
    assert!(!used_in_col(PUZZLE, 2, 5));
    assert!(used_in_col(PUZZLE, 2, 8));
}

#[test]
fn box_check_looks_at_three_by_three_cells() {
    assert!(used_in_box(PUZZLE, 0, 0, 9));
    assert!(used_in_box(PUZZLE, 0, 0, 8));
    assert!(!used_in_box(PUZZLE, 0, 0, 7));
    assert!(used_in_box(PUZZLE, 6, 6, 5));
    assert!(!used_in_box(PUZZLE, 6, 6, 6));
    assert!(used_in_box(PUZZLE, 3, 3, 2));
    // a block need not start on a multiple of three
    assert!(used_in_box(PUZZLE, 1, 1, 9));
    assert!(!used_in_box(PUZZLE, 1, 1, 6));
}

#[test]
fn safe_needs_an_empty_cell() {
    // (0, 0) holds 5: nothing is safe there, not even a digit found nowhere near
    assert!(!is_safe(PUZZLE, 0, 0, 1));
    assert!(!is_safe(PUZZLE, 0, 0, 5));
}

#[test]
fn safe_needs_row_column_and_box_free() {
    // (0, 2) is empty; row 0 holds 5 3 7, column 2 holds 8, the box holds 5 3 6 9 8
    assert!(is_safe(PUZZLE, 0, 2, 1));
    assert!(is_safe(PUZZLE, 0, 2, 2));
    assert!(is_safe(PUZZLE, 0, 2, 4));
    assert!(!is_safe(PUZZLE, 0, 2, 7));
    assert!(!is_safe(PUZZLE, 0, 2, 8));
    assert!(!is_safe(PUZZLE, 0, 2, 6));
    assert!(!is_safe(PUZZLE, 0, 2, 9));
    // in the last box: row 8 holds 8 7 9, column 6 holds 2, the box holds 2 8 5 7 9
    assert!(is_safe(PUZZLE, 8, 6, 1));
    assert!(!is_safe(PUZZLE, 8, 6, 5));
    assert!(!is_safe(PUZZLE, 8, 6, 2));
}

#[test]
fn zero_is_never_safe() {
    assert!(!is_safe(PUZZLE, 0, 2, 0));
    assert!(!is_safe([[0; 9]; 9], 4, 4, 0));
}

#[test]
fn every_digit_is_safe_on_an_empty_board() {
    let board = [[0; 9]; 9];
    for digit in 1..=9 {
        assert!(is_safe(board, 4, 4, digit));
    }
}

#[test]
fn boards_in_play_are_consistent() {
    assert!(is_consistent([[0; 9]; 9]));
    assert!(is_consistent(PUZZLE));
}

#[test]
fn a_digit_twice_in_a_row_is_inconsistent() {
    let mut board = PUZZLE;
    board[0][8] = 5;
    assert!(!is_consistent(board));
}

#[test]
fn a_digit_twice_in_a_column_is_inconsistent() {
    let mut board = PUZZLE;
    board[8][0] = 5;
    assert!(!is_consistent(board));
}

#[test]
fn a_digit_twice_in_a_box_is_inconsistent() {
    let mut board = [[0; 9]; 9];
    board[3][3] = 4;
    board[5][4] = 4;
    assert!(!is_consistent(board));
}

#[test]
fn a_value_that_is_no_digit_is_inconsistent() {
    let mut board = [[0; 9]; 9];
    board[6][2] = 10;
    assert!(!is_consistent(board));
    board[6][2] = -1;
    assert!(!is_consistent(board));
    board[6][2] = 9;
    assert!(is_consistent(board));
}
