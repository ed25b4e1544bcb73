//! The board, its mathematical model, and the single-cell write.

use vstd::prelude::*;

verus! {

/// A board as a mathematical object: nine rows of nine integers, `0` for an
/// empty cell.
pub type Grid = Seq<Seq<int>>;

/// `g` has nine rows of nine cells each.
pub open spec fn is_grid(g: Grid) -> bool {
    &&& g.len() == 9
    &&& forall|r: int| 0 <= r < 9 ==> (#[trigger] g[r]).len() == 9
}

/// `(r, c)` names a cell of the board (0-based).
pub open spec fn in_bounds(r: int, c: int) -> bool {
    0 <= r < 9 && 0 <= c < 9
}

/// The model of an executable board.
pub open spec fn grid_of(b: [[i32; 9]; 9]) -> Grid {
    Seq::new(9, |r: int| Seq::new(9, |c: int| b[r][c] as int))
}

/// `g` with cell `(r, c)` replaced by `v`, every other cell as it was.
pub open spec fn with_cell(g: Grid, r: int, c: int, v: int) -> Grid {
    g.update(r, g[r].update(c, v))
}

/// Cell `(r1, c1)` comes before `(r2, c2)` when the board is read row by
/// row, each row from left to right.
pub open spec fn before(r1: int, c1: int, r2: int, c2: int) -> bool {
    r1 < r2 || (r1 == r2 && c1 < c2)
}

/// The number of empty cells among the first `k` cells in reading order.
pub open spec fn blanks_among(g: Grid, k: nat) -> nat
    decreases k,
{
    if k == 0 {
        0
    } else {
        let rest = blanks_among(g, (k - 1) as nat);
        if g[(k - 1) / 9][(k - 1) % 9] == 0 {
            rest + 1
        } else {
            rest
        }
    }
}

/// The number of empty cells of the board.
pub open spec fn blanks(g: Grid) -> nat {
    blanks_among(g, 81)
}

/// The inputs that [`user_input`] acts on: a 1-based row and column on the
/// board and a value that is empty (`0`) or a digit.
pub open spec fn accepted(row: int, column: int, input: int) -> bool {
    1 <= row <= 9 && 1 <= column <= 9 && 0 <= input <= 9
}

/// Two boards with the same model are the same board.
pub proof fn lemma_same_grid_same_board(a: [[i32; 9]; 9], b: [[i32; 9]; 9])
    requires
        grid_of(a) == grid_of(b),
    ensures
        a == b,
{
    assert forall|r: int| 0 <= r < 9 implies a[r] == b[r] by {
        assert forall|c: int| 0 <= c < 9 implies a[r][c] == b[r][c] by {
            assert(grid_of(a)[r][c] == a[r][c]);
            assert(grid_of(b)[r][c] == b[r][c]);
        }
        assert(a[r] =~= b[r]);
    }
    assert(a =~= b);
}

/// What `with_cell` gives is a grid again, with `v` at `(r, c)` and every
/// other cell as in `g`.
pub proof fn lemma_with_cell(g: Grid, r: int, c: int, v: int)
    requires
        is_grid(g),
        in_bounds(r, c),
    ensures
        is_grid(with_cell(g, r, c, v)),
        with_cell(g, r, c, v)[r][c] == v,
        forall|i: int, j: int|
            in_bounds(i, j) && !(i == r && j == c) ==> #[trigger] with_cell(g, r, c, v)[i][j]
                == g[i][j],
{
    let h = with_cell(g, r, c, v);
    assert forall|i: int| 0 <= i < 9 implies (#[trigger] h[i]).len() == 9 by {
        assert(g[i].len() == 9);
    }
}

/// Of two writes to one cell, the second is the one that stays.
pub proof fn lemma_last_write_wins(g: Grid, r: int, c: int, v1: int, v2: int)
    requires
        is_grid(g),
        in_bounds(r, c),
    ensures
        with_cell(with_cell(g, r, c, v1), r, c, v2) == with_cell(g, r, c, v2),
{
    let once = with_cell(g, r, c, v2);
    let twice = with_cell(with_cell(g, r, c, v1), r, c, v2);
    assert(g[r].len() == 9);
    assert(twice[r] =~= once[r]);
    assert(twice =~= once);
}

/// Writing one cell of a board is `with_cell` on its model.
pub proof fn lemma_write_is_with_cell(
    before: [[i32; 9]; 9],
    after: [[i32; 9]; 9],
    r: int,
    c: int,
    v: i32,
)
    requires
        in_bounds(r, c),
        after[r][c] == v,
        forall|i: int, j: int| in_bounds(i, j) && !(i == r && j == c) ==> after[i][j] == before[i][j],
    ensures
        grid_of(after) == with_cell(grid_of(before), r, c, v as int),
{
    let lhs = grid_of(after);
    let rhs = with_cell(grid_of(before), r, c, v as int);
    assert forall|i: int| 0 <= i < 9 implies lhs[i] == rhs[i] by {
        assert forall|j: int| 0 <= j < 9 implies lhs[i][j] == rhs[i][j] by {
            assert(in_bounds(i, j));
            assert(grid_of(before)[i][j] == before[i][j]);
        }
        assert(lhs[i] =~= rhs[i]);
    }
    assert(lhs =~= rhs);
}

/// Filling an empty cell leaves one empty cell less among the cells up to
/// it, and as many as before among the cells ahead of it.
proof fn lemma_fill_blanks_among(g: Grid, r: int, c: int, v: int, k: nat)
    requires
        is_grid(g),
        in_bounds(r, c),
        g[r][c] == 0,
        v != 0,
        k <= 81,
    ensures
        blanks_among(g, k) == blanks_among(with_cell(g, r, c, v), k) + (if k > 9 * r + c {
            1nat
        } else {
            0nat
        }),
    decreases k,
{
    if k > 0 {
        lemma_fill_blanks_among(g, r, c, v, (k - 1) as nat);
        let i = (k - 1) / 9;
        let j = (k - 1) % 9;
        assert(in_bounds(i, j));
        assert((i == r && j == c) <==> k - 1 == 9 * r + c);
        lemma_with_cell(g, r, c, v);
    }
}

/// Filling an empty cell leaves one empty cell less on the board.
pub proof fn lemma_fill_blanks(g: Grid, r: int, c: int, v: int)
    requires
        is_grid(g),
        in_bounds(r, c),
        g[r][c] == 0,
        v != 0,
    ensures
        blanks(g) == blanks(with_cell(g, r, c, v)) + 1,
{
    lemma_fill_blanks_among(g, r, c, v, 81);
}

/// Writes `input` into the cell at the 1-based `row` and `column`, with no
/// regard to the rules of the game: whatever stood there is overwritten, and
/// no other cell changes.
///
/// A row or column outside `1..=9`, or an `input` outside `0..=9`, is
/// rejected: the board is left exactly as it was.
pub fn user_input(board: &mut [[i32; 9]; 9], row: i32, column: i32, input: i32)
    ensures
        accepted(row as int, column as int, input as int) ==> grid_of(*final(board)) == with_cell(
            grid_of(*old(board)),
            row - 1,
            column - 1,
            input as int,
        ),
        !accepted(row as int, column as int, input as int) ==> *final(board) == *old(board),
{
    if row < 1 || row > 9 || column < 1 || column > 9 || input < 0 || input > 9 {
        return ;
    }
    let x: usize = (row - 1) as usize;
    let y: usize = (column - 1) as usize;
    board[x][y] = input;
    proof {
        lemma_write_is_with_cell(*old(board), *board, x as int, y as int, input);
    }
}

} // verus!
