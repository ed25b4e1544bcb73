//! The rules of the game: which digits a row, a column and a box already
//! hold, and when a digit may be placed in a cell.

use crate::board::{
    grid_of, in_bounds, is_grid, lemma_with_cell, lemma_write_is_with_cell, with_cell, Grid,
};
use vstd::prelude::*;

verus! {

/// `n` stands somewhere in row `r`.
pub open spec fn in_row(g: Grid, r: int, n: int) -> bool {
    exists|c: int| 0 <= c < 9 && #[trigger] g[r][c] == n
}

/// `n` stands somewhere in column `c`.
pub open spec fn in_col(g: Grid, c: int, n: int) -> bool {
    exists|r: int| 0 <= r < 9 && #[trigger] g[r][c] == n
}

/// `n` stands somewhere in the 3×3 block whose top-left cell is `(r0, c0)`.
pub open spec fn in_box(g: Grid, r0: int, c0: int, n: int) -> bool {
    exists|r: int, c: int| r0 <= r < r0 + 3 && c0 <= c < c0 + 3 && #[trigger] g[r][c] == n
}

/// The first row (or column) of the box that row (or column) `i` lies in.
pub open spec fn box_origin(i: int) -> int {
    i - i % 3
}

/// `n` may be placed at `(r, c)`: the cell is empty, and `n` stands neither
/// in its row, nor in its column, nor in its box.
pub open spec fn safe(g: Grid, r: int, c: int, n: int) -> bool {
    &&& !in_row(g, r, n)
    &&& !in_col(g, c, n)
    &&& !in_box(g, box_origin(r), box_origin(c), n)
    &&& g[r][c] == 0
}

/// Two cells share a row, a column or a box (a cell sees itself).
pub open spec fn sees(r1: int, c1: int, r2: int, c2: int) -> bool {
    ||| r1 == r2
    ||| c1 == c2
    ||| box_origin(r1) == box_origin(r2) && box_origin(c1) == box_origin(c2)
}

/// Two different cells that share a row, a column or a box.
pub open spec fn peers(r1: int, c1: int, r2: int, c2: int) -> bool {
    sees(r1, c1, r2, c2) && !(r1 == r2 && c1 == c2)
}

/// No cell that `(r, c)` sees holds `n`, `(r, c)` itself included.
pub open spec fn unseen(g: Grid, r: int, c: int, n: int) -> bool {
    forall|i: int, j: int| in_bounds(i, j) && sees(r, c, i, j) ==> #[trigger] g[i][j] != n
}

/// Every cell is empty or holds a digit.
pub open spec fn digits_only(g: Grid) -> bool {
    forall|r: int, c: int| in_bounds(r, c) ==> 0 <= #[trigger] g[r][c] <= 9
}

/// The invariant of a board in play: every cell is empty or a digit, and no
/// digit stands twice in a row, a column or a box.
pub open spec fn consistent(g: Grid) -> bool {
    &&& is_grid(g)
    &&& digits_only(g)
    &&& forall|r1: int, c1: int, r2: int, c2: int|
        in_bounds(r1, c1) && in_bounds(r2, c2) && peers(r1, c1, r2, c2) && g[r1][c1] != 0
            ==> #[trigger] g[r1][c1] != #[trigger] g[r2][c2]
}

/// No cell is empty.
pub open spec fn full(g: Grid) -> bool {
    forall|r: int, c: int| in_bounds(r, c) ==> #[trigger] g[r][c] != 0
}

/// A digit is safe at a cell exactly when the cell is empty and nothing the
/// cell sees holds the digit.
pub proof fn lemma_safe_is_unseen(g: Grid, r: int, c: int, n: int)
    requires
        in_bounds(r, c),
    ensures
        safe(g, r, c, n) <==> g[r][c] == 0 && unseen(g, r, c, n),
{
    let r0 = box_origin(r);
    let c0 = box_origin(c);
    if safe(g, r, c, n) {
        assert forall|i: int, j: int| in_bounds(i, j) && sees(r, c, i, j) implies #[trigger] g[i][j]
            != n by {
            if i == r {
            } else if j == c {
            } else {
                assert(r0 <= i < r0 + 3 && c0 <= j < c0 + 3);
            }
        }
    }
    if g[r][c] == 0 && unseen(g, r, c, n) {
        assert forall|i: int, j: int| r0 <= i < r0 + 3 && c0 <= j < c0 + 3 implies #[trigger] g[i][j]
            != n by {
            assert(in_bounds(i, j) && sees(r, c, i, j));
        }
    }
}

/// Placing a safe digit keeps a board consistent.
pub proof fn lemma_safe_keeps_consistent(g: Grid, r: int, c: int, n: int)
    requires
        consistent(g),
        in_bounds(r, c),
        1 <= n <= 9,
        safe(g, r, c, n),
    ensures
        consistent(with_cell(g, r, c, n)),
{
    let h = with_cell(g, r, c, n);
    lemma_safe_is_unseen(g, r, c, n);
    lemma_with_cell(g, r, c, n);
    assert forall|r1: int, c1: int, r2: int, c2: int|
        in_bounds(r1, c1) && in_bounds(r2, c2) && peers(r1, c1, r2, c2) && h[r1][c1] != 0 implies #[trigger] h[r1][c1]
        != #[trigger] h[r2][c2] by {
        if r1 == r && c1 == c {
            assert(sees(r, c, r2, c2));
            assert(g[r2][c2] != n);
        } else if r2 == r && c2 == c {
            assert(sees(r, c, r1, c1));
            assert(g[r1][c1] != n);
        } else {
            assert(g[r1][c1] != g[r2][c2]);
        }
    }
}

/// Whether `num` appears anywhere in row `row`.
pub fn used_in_row(board: [[i32; 9]; 9], row: usize, num: i32) -> (used: bool)
    requires
        row < 9,
    ensures
        used == in_row(grid_of(board), row as int, num as int),
{
    for col in 0..9usize
        invariant
            row < 9,
            forall|j: int| 0 <= j < col ==> grid_of(board)[row as int][j] != num,
    {
        if board[row][col] == num {
            assert(grid_of(board)[row as int][col as int] == num);
            return true;
        }
    }
    false
}

/// Whether `num` appears anywhere in column `col`.
pub fn used_in_col(board: [[i32; 9]; 9], col: usize, num: i32) -> (used: bool)
    requires
        col < 9,
    ensures
        used == in_col(grid_of(board), col as int, num as int),
{
    for row in 0..9usize
        invariant
            col < 9,
            forall|i: int| 0 <= i < row ==> grid_of(board)[i][col as int] != num,
    {
        if board[row][col] == num {
            assert(grid_of(board)[row as int][col as int] == num);
            return true;
        }
    }
    false
}

/// Whether `num` appears anywhere in the 3×3 block whose top-left cell is
/// `(box_start_row, box_start_col)`. The block has to lie on the board.
pub fn used_in_box(board: [[i32; 9]; 9], box_start_row: usize, box_start_col: usize, num: i32) -> (used: bool)
    requires
        box_start_row <= 6,
        box_start_col <= 6,
    ensures
        used == in_box(grid_of(board), box_start_row as int, box_start_col as int, num as int),
{
    for row in 0..3usize
        invariant
            box_start_row <= 6,
            box_start_col <= 6,
            forall|i: int, j: int|
                box_start_row <= i < box_start_row + row && box_start_col <= j < box_start_col + 3
                    ==> #[trigger] grid_of(board)[i][j] != num,
    {
        let r: usize = row + box_start_row;
        for col in 0..3usize
            invariant
                row < 3,
                r == row + box_start_row,
                box_start_row <= 6,
                box_start_col <= 6,
                forall|i: int, j: int|
                    box_start_row <= i < box_start_row + row && box_start_col <= j < box_start_col + 3
                        ==> #[trigger] grid_of(board)[i][j] != num,
                forall|j: int|
                    box_start_col <= j < box_start_col + col ==> grid_of(board)[r as int][j] != num,
        {
            let c: usize = col + box_start_col;
            if board[r][c] == num {
                assert(grid_of(board)[r as int][c as int] == num);
                return true;
            }
        }
    }
    false
}

/// Whether `num` may be placed at `(row, col)`: the one test that the
/// search applies before it writes a digit.
pub fn is_safe(board: [[i32; 9]; 9], row: usize, col: usize, num: i32) -> (ok: bool)
    requires
        row < 9,
        col < 9,
    ensures
        ok == safe(grid_of(board), row as int, col as int, num as int),
{
    !used_in_row(board, row, num) && !used_in_col(board, col, num) && !used_in_box(
        board,
        row - row % 3,
        col - col % 3,
        num,
    ) && board[row][col] == 0
}

/// The cell at `(r, c)` is empty, or holds a digit that none of its peers
/// holds.
pub open spec fn fits(g: Grid, r: int, c: int) -> bool {
    &&& 0 <= g[r][c] <= 9
    &&& g[r][c] != 0 ==> forall|i: int, j: int|
        in_bounds(i, j) && peers(r, c, i, j) ==> #[trigger] g[i][j] != g[r][c]
}

/// A digit fits its cell exactly when it would be safe there, were the cell
/// empty.
pub proof fn lemma_fits_is_safe_when_blanked(g: Grid, r: int, c: int)
    requires
        is_grid(g),
        in_bounds(r, c),
        1 <= g[r][c] <= 9,
    ensures
        fits(g, r, c) <==> safe(with_cell(g, r, c, 0), r, c, g[r][c]),
{
    let h = with_cell(g, r, c, 0);
    let n = g[r][c];
    lemma_safe_is_unseen(h, r, c, n);
    lemma_with_cell(g, r, c, 0);
    if fits(g, r, c) {
        assert forall|i: int, j: int| in_bounds(i, j) && sees(r, c, i, j) implies #[trigger] h[i][j]
            != n by {
            if !(i == r && j == c) {
                assert(peers(r, c, i, j));
                assert(g[i][j] != n);
            }
        }
    }
    if unseen(h, r, c, n) {
        assert forall|i: int, j: int| in_bounds(i, j) && peers(r, c, i, j) implies #[trigger] g[i][j]
            != n by {
            assert(sees(r, c, i, j));
            assert(h[i][j] != n);
        }
    }
}

/// Whether the board obeys the rules as it stands: every cell empty or a
/// digit, and no digit twice in a row, a column or a box.
pub fn is_consistent(board: [[i32; 9]; 9]) -> (ok: bool)
    ensures
        ok == consistent(grid_of(board)),
{
    let ghost g = grid_of(board);
    for row in 0..9usize
        invariant
            g == grid_of(board),
            forall|i: int, j: int| 0 <= i < row && 0 <= j < 9 ==> #[trigger] fits(g, i, j),
    {
        for col in 0..9usize
            invariant
                row < 9,
                g == grid_of(board),
                forall|i: int, j: int| 0 <= i < row && 0 <= j < 9 ==> #[trigger] fits(g, i, j),
                forall|j: int| 0 <= j < col ==> #[trigger] fits(g, row as int, j),
        {
            let v: i32 = board[row][col];
            assert(g[row as int][col as int] == v);
            assert(in_bounds(row as int, col as int));
            if v < 0 || v > 9 {
                return false;
            }
            if v != 0 {
                let mut probe = board;
                probe[row][col] = 0;
                proof {
                    lemma_write_is_with_cell(board, probe, row as int, col as int, 0);
                    lemma_fits_is_safe_when_blanked(g, row as int, col as int);
                }
                if !is_safe(probe, row, col, v) {
                    proof {
                        let (i, j) = choose|i: int, j: int|
                            in_bounds(i, j) && peers(row as int, col as int, i, j) && #[trigger] g[i][j]
                                == g[row as int][col as int];
                        assert(g[row as int][col as int] == g[i][j]);
                    }
                    return false;
                }
            }
        }
    }
    proof {
        assert forall|r1: int, c1: int, r2: int, c2: int|
            in_bounds(r1, c1) && in_bounds(r2, c2) && peers(r1, c1, r2, c2) && g[r1][c1]
                != 0 implies #[trigger] g[r1][c1] != #[trigger] g[r2][c2] by {
            assert(fits(g, r1, c1));
        }
        assert forall|r: int, c: int| in_bounds(r, c) implies 0 <= #[trigger] g[r][c] <= 9 by {
            assert(fits(g, r, c));
        }
    }
    true
}

} // verus!
