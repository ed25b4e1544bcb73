//! The backtracking search and the operation built on it.

use crate::board::{
    blanks, grid_of, is_grid, lemma_fill_blanks, lemma_same_grid_same_board, lemma_write_is_with_cell,
    with_cell, Grid,
};
use crate::order::{
    first_blank, first_solution, is_first_solution, lemma_first_solution_exists,
    lemma_first_solution_is_unique, lemma_first_solution_through, lemma_solved_is_first_solution,
};
use crate::rules::{consistent, full, is_consistent, is_safe, lemma_safe_keeps_consistent};
use crate::solution::{
    extends, is_solution, lemma_solution_digit_is_safe, lemma_solutions_through, lemma_solvable_is_consistent,
    lemma_solved_iff_consistent_and_full, solvable, solved,
};
use vstd::prelude::*;

verus! {

/// How an attempt to solve a board ends.
#[derive(Clone, Copy, Debug, PartialEq, Eq, Structural)]
pub enum Outcome {
    /// The board obeyed the rules and had no empty cell.
    AlreadySolved,
    /// The board had empty cells, and now holds its first solution.
    Solved,
    /// The board obeys the rules, but cannot be completed.
    NoSolution,
    /// The board breaks the rules as it stands: a value is no digit, or a
    /// digit stands twice in a row, a column or a box.
    InvalidInput,
}

/// How [`get_solution`] ends on a board whose model is `g`.
pub open spec fn outcome_of(g: Grid) -> Outcome {
    if !consistent(g) {
        Outcome::InvalidInput
    } else if full(g) {
        Outcome::AlreadySolved
    } else if solvable(g) {
        Outcome::Solved
    } else {
        Outcome::NoSolution
    }
}

/// What [`get_solution`] leaves of a board whose model is `g`: its first
/// solution if it obeys the rules and has one, else the board itself.
pub open spec fn board_after(g: Grid) -> Grid {
    if consistent(g) && solvable(g) {
        first_solution(g)
    } else {
        g
    }
}

/// Finds the first empty cell in reading order and stores its row and column
/// in `row_ref` and `col_ref`. Returns whether there is one; if there is
/// none, the two are left as they were.
pub fn find_unassigned_location(board: &[[i32; 9]; 9], row_ref: &mut usize, col_ref: &mut usize) -> (found: bool)
    ensures
        found == !full(grid_of(*board)),
        found ==> first_blank(grid_of(*board), *final(row_ref) as int, *final(col_ref) as int),
        !found ==> *final(row_ref) == *old(row_ref) && *final(col_ref) == *old(col_ref),
{
    for row in 0..9usize
        invariant
            *row_ref == *old(row_ref),
            *col_ref == *old(col_ref),
            forall|i: int, j: int| 0 <= i < row && 0 <= j < 9 ==> #[trigger] grid_of(*board)[i][j] != 0,
    {
        for col in 0..9usize
            invariant
                row < 9,
                *row_ref == *old(row_ref),
                *col_ref == *old(col_ref),
                forall|i: int, j: int|
                    0 <= i < row && 0 <= j < 9 ==> #[trigger] grid_of(*board)[i][j] != 0,
                forall|j: int| 0 <= j < col ==> grid_of(*board)[row as int][j] != 0,
        {
            if board[row][col] == 0 {
                *row_ref = row;
                *col_ref = col;
                assert(grid_of(*board)[row as int][col as int] == 0);
                return true;
            }
        }
    }
    false
}

/// Depth-first search with backtracking, on a board that obeys the rules.
///
/// Takes the first empty cell in reading order, tries the digits 1 to 9 in
/// ascending order, writes each safe one and searches on; a digit that leads
/// nowhere is taken back before the next is tried.
///
/// Returns whether the board has a solution. If it has, the board holds, on
/// return, the first of its solutions in the order of the search; if it has
/// none, the board is as it was.
pub fn solve_sudoku(board: &mut [[i32; 9]; 9]) -> (ok: bool)
    requires
        consistent(grid_of(*old(board))),
    ensures
        ok == solvable(grid_of(*old(board))),
        ok ==> is_first_solution(grid_of(*old(board)), grid_of(*final(board))),
        !ok ==> *final(board) == *old(board),
        full(grid_of(*old(board))) ==> ok && *final(board) == *old(board),
        grid_of(*final(board)) == board_after(grid_of(*old(board))),
    decreases blanks(grid_of(*old(board))),
{
    let ghost g = grid_of(*old(board));
    let mut row: usize = 0;
    let mut col: usize = 0;

    if !find_unassigned_location(board, &mut row, &mut col) {
        proof {
            lemma_solved_iff_consistent_and_full(g);
            lemma_solved_is_first_solution(g);
            lemma_first_solution_is_unique(g, g);
        }
        return true;
    }
    proof {
        assert forall|t: Grid| #[trigger] is_solution(g, t) implies t[row as int][col as int] >= 1 by {
            lemma_solution_digit_is_safe(g, t, row as int, col as int);
        }
    }
    let mut num: i32 = 1;
    while num <= 9
        invariant
            1 <= num <= 10,
            row < 9,
            col < 9,
            *board == *old(board),
            g == grid_of(*old(board)),
            consistent(g),
            first_blank(g, row as int, col as int),
            forall|t: Grid| #[trigger] is_solution(g, t) ==> t[row as int][col as int] >= num,
        decreases 10 - num,
    {
        if is_safe(*board, row, col, num) {
            board[row][col] = num;
            let ghost h = with_cell(g, row as int, col as int, num as int);
            proof {
                lemma_write_is_with_cell(*old(board), *board, row as int, col as int, num);
                lemma_safe_keeps_consistent(g, row as int, col as int, num as int);
                lemma_fill_blanks(g, row as int, col as int, num as int);
            }
            if solve_sudoku(board) {
                proof {
                    lemma_first_solution_through(g, row as int, col as int, num as int, grid_of(*board));
                    lemma_first_solution_is_unique(g, grid_of(*board));
                }
                return true;
            }
            board[row][col] = 0;
            proof {
                assert(grid_of(*board) =~~= g);
                lemma_same_grid_same_board(*board, *old(board));
                assert forall|t: Grid| #[trigger] is_solution(g, t) implies t[row as int][col as int]
                    != num by {
                    lemma_solutions_through(g, row as int, col as int, num as int, t);
                }
            }
        } else {
            proof {
                assert forall|t: Grid| #[trigger] is_solution(g, t) implies t[row as int][col as int]
                    != num by {
                    lemma_solution_digit_is_safe(g, t, row as int, col as int);
                }
            }
        }
        num += 1;
    }
    proof {
        assert forall|t: Grid| !is_solution(g, t) by {
            if is_solution(g, t) {
                lemma_solution_digit_is_safe(g, t, row as int, col as int);
            }
        }
    }
    false
}

/// Completes the board in place, if it can be completed.
///
/// A board that breaks the rules as it stands is not searched: the call
/// returns `InvalidInput`. A board without an empty cell is `AlreadySolved`.
/// Otherwise the search runs: `Solved` if the board has a solution, which it
/// then holds (the first in the order of the search), `NoSolution` if it has
/// none. Only `Solved` changes the board.
pub fn get_solution(board: &mut [[i32; 9]; 9]) -> (outcome: Outcome)
    ensures
        outcome == outcome_of(grid_of(*old(board))),
        grid_of(*final(board)) == board_after(grid_of(*old(board))),
        outcome != Outcome::Solved ==> *final(board) == *old(board),
        outcome == Outcome::Solved ==> is_first_solution(grid_of(*old(board)), grid_of(*final(board))),
        solvable(grid_of(*old(board))) ==> solved(grid_of(*final(board))),
{
    let ghost g = grid_of(*old(board));
    if !is_consistent(*board) {
        proof {
            if solvable(g) {
                lemma_solvable_is_consistent(g);
            }
        }
        return Outcome::InvalidInput;
    }
    let mut row: usize = 0;
    let mut col: usize = 0;
    if !find_unassigned_location(board, &mut row, &mut col) {
        proof {
            lemma_solved_iff_consistent_and_full(g);
            lemma_solved_is_first_solution(g);
            lemma_first_solution_is_unique(g, g);
        }
        return Outcome::AlreadySolved;
    }
    if solve_sudoku(board) {
        proof {
            lemma_first_solution_is_unique(g, grid_of(*board));
        }
        Outcome::Solved
    } else {
        Outcome::NoSolution
    }
}

/// A solved board is reported as `AlreadySolved` and left as it is.
pub proof fn lemma_solved_board_is_left_alone(g: Grid)
    requires
        solved(g),
    ensures
        outcome_of(g) == Outcome::AlreadySolved,
        board_after(g) == g,
{
    lemma_solved_iff_consistent_and_full(g);
    lemma_solved_is_first_solution(g);
    lemma_first_solution_is_unique(g, g);
}

/// A board with a solution is reported as `Solved` or `AlreadySolved`, and
/// is left solved, with every digit that it held.
pub proof fn lemma_solvable_board_is_solved(g: Grid)
    requires
        is_grid(g),
        solvable(g),
    ensures
        outcome_of(g) == Outcome::Solved || outcome_of(g) == Outcome::AlreadySolved,
        is_first_solution(g, board_after(g)),
        solved(board_after(g)),
        extends(g, board_after(g)),
{
    lemma_solvable_is_consistent(g);
    lemma_first_solution_exists(g);
}

/// A board without a solution is reported as `NoSolution` or `InvalidInput`,
/// and left as it is.
pub proof fn lemma_unsolvable_board_is_left_alone(g: Grid)
    requires
        !solvable(g),
    ensures
        outcome_of(g) == Outcome::NoSolution || outcome_of(g) == Outcome::InvalidInput,
        board_after(g) == g,
{
    if consistent(g) && full(g) {
        lemma_solved_iff_consistent_and_full(g);
        assert(is_solution(g, g));
    }
}

/// Solving a second time changes nothing: the board stays as the first call
/// left it, and the report is the same, but that a board just solved is now
/// `AlreadySolved`.
pub proof fn lemma_solving_again_changes_nothing(g: Grid)
    ensures
        board_after(board_after(g)) == board_after(g),
        outcome_of(board_after(g)) == (if outcome_of(g) == Outcome::Solved {
            Outcome::AlreadySolved
        } else {
            outcome_of(g)
        }),
{
    if consistent(g) && solvable(g) {
        lemma_solvable_board_is_solved(g);
        lemma_solved_board_is_left_alone(board_after(g));
    }
}

} // verus!
