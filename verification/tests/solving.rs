use sudoku::rules::is_consistent;
use sudoku::solver::{find_unassigned_location, get_solution, solve_sudoku, Outcome};

const PUZZLE: [[i32; 9]; 9] = [
    [5, 3, 0, 0, 7, 0, 0, 0, 0],
    [6, 0, 0, 1, 9, 5, 0, 0, 0],
    [0, 9, 8, 0, 0, 0, 0, 6, 0],
    [8, 0, 0, 0, 6, 0, 0, 0, 3],
    [4, 0, 0, 8, 0, 3, 0, 0, 1],
    [7, 0, 0, 0, 2, 0, 0, 0, 6],
    [0, 6, 0, 0, 0, 0, 2, 8, 0],
    [0, 0, 0, 4, 1, 9, 0, 0, 5],
    [0, 0, 0, 0, 8, 0, 0, 7, 9],
];

const THIRTY_EMPTY: [[i32; 9]; 9] = [
    [5, 3, 4, 0, 7, 0, 0, 0, 0],
    [6, 0, 0, 1, 9, 5, 3, 0, 8],
    [1, 9, 8, 3, 0, 2, 0, 6, 7],
    [8, 0, 0, 7, 6, 0, 4, 2, 3],
    [4, 0, 6, 8, 0, 3, 0, 0, 1],
    [7, 1, 3, 9, 2, 4, 0, 5, 6],
    [0, 6, 0, 0, 0, 0, 2, 8, 4],
    [0, 0, 0, 4, 1, 9, 6, 0, 5],
    [0, 0, 5, 2, 8, 6, 0, 7, 9],
];

const SOLUTION: [[i32; 9]; 9] = [
    [5, 3, 4, 6, 7, 8, 9, 1, 2],
    [6, 7, 2, 1, 9, 5, 3, 4, 8],
    [1, 9, 8, 3, 4, 2, 5, 6, 7],
    [8, 5, 9, 7, 6, 1, 4, 2, 3],
    [4, 2, 6, 8, 5, 3, 7, 9, 1],
    [7, 1, 3, 9, 2, 4, 8, 5, 6],
    [9, 6, 1, 5, 3, 7, 2, 8, 4],
    [2, 8, 7, 4, 1, 9, 6, 3, 5],
    [3, 4, 5, 2, 8, 6, 1, 7, 9],
];

// SOLUTION without four cells that can be filled in two ways.
const TWO_WAYS: [[i32; 9]; 9] = [
    [5, 3, 4, 6, 7, 8, 9, 1, 2],
    [6, 7, 2, 1, 9, 5, 3, 4, 8],
    [1, 9, 8, 3, 0, 0, 5, 6, 7],
    [8, 5, 9, 7, 6, 1, 4, 2, 3],
    [4, 2, 6, 8, 5, 3, 7, 9, 1],
    [7, 1, 3, 9, 0, 0, 8, 5, 6],
    [9, 6, 1, 5, 3, 7, 2, 8, 4],
    [2, 8, 7, 4, 1, 9, 6, 3, 5],
    [3, 4, 5, 2, 8, 6, 1, 7, 9],
];

const FIRST_OF_ALL: [[i32; 9]; 9] = [
    [1, 2, 3, 4, 5, 6, 7, 8, 9],
    [4, 5, 6, 7, 8, 9, 1, 2, 3],
    [7, 8, 9, 1, 2, 3, 4, 5, 6],
    [2, 1, 4, 3, 6, 5, 8, 9, 7],
    [3, 6, 5, 8, 9, 7, 2, 1, 4],
    [8, 9, 7, 2, 1, 4, 3, 6, 5],
    [5, 3, 1, 6, 4, 2, 9, 7, 8],
    [6, 4, 2, 9, 7, 8, 5, 3, 1],
    [9, 7, 8, 5, 3, 1, 6, 4, 2],
];

// Obeys the rules, but no digit is left for the last cell of the first row.
fn dead_end() -> [[i32; 9]; 9] {
    let mut board = [[0; 9]; 9];
    board[0] = [1, 2, 3, 4, 5, 6, 7, 8, 0];
    board[4][8] = 9;
    board
}

fn each_digit_once(cells: [i32; 9]) -> bool {
    let mut seen = [false; 10];
    for v in cells {
        if v < 1 || v > 9 || seen[v as usize] {
            return false;
        }
        seen[v as usize] = true;
    }
    true
}

fn is_solved(board: &[[i32; 9]; 9]) -> bool {
    for k in 0..9 {
        let mut column = [0; 9];
        let mut block = [0; 9];
        for i in 0..9 {
            column[i] = board[i][k];
            block[i] = board[3 * (k / 3) + i / 3][3 * (k % 3) + i % 3];
        }
        if !each_digit_once(board[k]) || !each_digit_once(column) || !each_digit_once(block) {
            return false;
        }
    }
    true
}

fn keeps_the_digits(before: &[[i32; 9]; 9], after: &[[i32; 9]; 9]) -> bool {
    for r in 0..9 {
        for c in 0..9 {
            if before[r][c] != 0 && after[r][c] != before[r][c] {
                return false;
            }
        }
    }
    true
}

#[test]
fn finds_the_first_empty_cell_in_reading_order() {
    let mut row = 100;
    let mut col = 100;
    assert!(find_unassigned_location(&PUZZLE, &mut row, &mut col));
    assert_eq!((row, col), (0, 2));

    assert!(find_unassigned_location(&TWO_WAYS, &mut row, &mut col));
    assert_eq!((row, col), (2, 4));

    assert!(find_unassigned_location(&[[0; 9]; 9], &mut row, &mut col));
    assert_eq!((row, col), (0, 0));

    let mut last = SOLUTION;
    last[8][8] = 0;
    assert!(find_unassigned_location(&last, &mut row, &mut col));
    assert_eq!((row, col), (8, 8));
}

#[test]
fn finds_no_empty_cell_on_a_full_board() {
    let mut row = 100;
    let mut col = 200;
    assert!(!find_unassigned_location(&SOLUTION, &mut row, &mut col));
    assert_eq!((row, col), (100, 200));
}

#[test]
fn search_solves_a_puzzle_in_place() {
    let mut board = PUZZLE;
    assert!(solve_sudoku(&mut board));
    assert_eq!(board, SOLUTION);
}

#[test]
fn search_leaves_a_full_board_alone() {
    let mut board = SOLUTION;
    assert!(solve_sudoku(&mut board));
    assert_eq!(board, SOLUTION);
}

#[test]
fn search_takes_back_every_digit_when_it_fails() {
    let mut board = dead_end();
    assert!(!solve_sudoku(&mut board));
    assert_eq!(board, dead_end());
}

#[test]
fn search_fails_deep_and_restores_the_board() {
    // the empty cells of the first row can only take 8 and 9, and column 8
    // forbids both in its last cell: the search has to try and undo
    let mut board = [[0; 9]; 9];
    board[0] = [1, 2, 3, 4, 5, 6, 7, 0, 0];
    board[3][8] = 8;
    board[6][8] = 9;
    let before = board;
    assert!(is_consistent(board));
    assert!(!solve_sudoku(&mut board));
    assert_eq!(board, before);
}

#[test]
fn search_returns_the_first_of_two_solutions() {
    let mut board = TWO_WAYS;
    assert!(solve_sudoku(&mut board));
    let mut expected = SOLUTION;
    expected[2][4] = 2;
    expected[2][5] = 4;
    expected[5][4] = 4;
    expected[5][5] = 2;
    assert_eq!(board, expected);
    assert!(is_solved(&board));
}

#[test]
fn empty_board_solves_to_a_valid_grid() {
    let mut board = [[0; 9]; 9];
    assert_eq!(get_solution(&mut board), Outcome::Solved);
    assert!(is_solved(&board));
}

#[test]
fn empty_board_solves_to_the_first_grid_of_all() {
    let mut board = [[0; 9]; 9];
    assert_eq!(get_solution(&mut board), Outcome::Solved);
    assert_eq!(board, FIRST_OF_ALL);
}

#[test]
fn puzzle_with_thirty_empty_cells_solves_to_its_solution() {
    let mut empty_cells = 0;
    for row in THIRTY_EMPTY {
        for v in row {
            if v == 0 {
                empty_cells += 1;
            }
        }
    }
    assert_eq!(empty_cells, 30);
    let mut board = THIRTY_EMPTY;
    assert_eq!(get_solution(&mut board), Outcome::Solved);
    assert_eq!(board, SOLUTION);
}

#[test]
fn puzzle_with_thirty_givens_solves_to_its_solution() {
    let mut board = PUZZLE;
    assert_eq!(get_solution(&mut board), Outcome::Solved);
    assert_eq!(board, SOLUTION);
    assert!(is_solved(&board));
    assert!(keeps_the_digits(&PUZZLE, &board));
}

#[test]
fn solved_board_is_already_solved() {
    let mut board = SOLUTION;
    assert_eq!(get_solution(&mut board), Outcome::AlreadySolved);
    assert_eq!(board, SOLUTION);
}

#[test]
fn solving_twice_changes_nothing_the_second_time() {
    let mut board = SOLUTION;
    assert_eq!(get_solution(&mut board), Outcome::AlreadySolved);
    assert_eq!(board, SOLUTION);
    assert_eq!(get_solution(&mut board), Outcome::AlreadySolved);
    assert_eq!(board, SOLUTION);

    let mut board = PUZZLE;
    assert_eq!(get_solution(&mut board), Outcome::Solved);
    let first = board;
    assert_eq!(get_solution(&mut board), Outcome::AlreadySolved);
    assert_eq!(board, first);
}

#[test]
fn board_without_solution_is_reported_and_kept() {
    let mut board = dead_end();
    assert_eq!(get_solution(&mut board), Outcome::NoSolution);
    assert_eq!(board, dead_end());
    assert_eq!(get_solution(&mut board), Outcome::NoSolution);
    assert_eq!(board, dead_end());
}

#[test]
fn duplicate_in_a_row_is_invalid_input() {
    let mut board = [[0; 9]; 9];
    board[0][0] = 5;
    board[0][7] = 5;
    let before = board;
    assert_eq!(get_solution(&mut board), Outcome::InvalidInput);
    assert_eq!(board, before);
}

#[test]
fn duplicate_in_a_full_row_is_invalid_input() {
    // two 5s in the first row, and its empty cells are the only ones
    let mut board = SOLUTION;
    board[0] = [5, 3, 4, 5, 0, 0, 9, 1, 2];
    let before = board;
    assert_eq!(get_solution(&mut board), Outcome::InvalidInput);
    assert_eq!(board, before);
}

#[test]
fn duplicate_in_a_column_or_a_box_is_invalid_input() {
    let mut board = PUZZLE;
    board[8][0] = 6;
    let before = board;
    assert_eq!(get_solution(&mut board), Outcome::InvalidInput);
    assert_eq!(board, before);

    let mut board = [[0; 9]; 9];
    board[6][6] = 1;
    board[7][7] = 1;
    let before = board;
    assert_eq!(get_solution(&mut board), Outcome::InvalidInput);
    assert_eq!(board, before);
}

#[test]
fn full_board_that_breaks_the_rules_is_invalid_input() {
    let mut board = SOLUTION;
    board[4][4] = 6;
    let before = board;
    assert_eq!(get_solution(&mut board), Outcome::InvalidInput);
    assert_eq!(board, before);
}

#[test]
fn value_that_is_no_digit_is_invalid_input() {
    let mut board = PUZZLE;
    board[0][2] = 12;
    let before = board;
    assert_eq!(get_solution(&mut board), Outcome::InvalidInput);
    assert_eq!(board, before);

    let mut board = PUZZLE;
    board[0][2] = -4;
    let before = board;
    assert_eq!(get_solution(&mut board), Outcome::InvalidInput);
    assert_eq!(board, before);
}
