//! The order in which the search reaches the solutions of a board.

use crate::board::{before, blanks, in_bounds, is_grid, lemma_fill_blanks, with_cell, Grid};
use crate::rules::{consistent, full, lemma_safe_keeps_consistent};
use crate::solution::{
    is_solution, lemma_solution_digit_is_safe, lemma_solutions_through,
    lemma_solved_iff_consistent_and_full, solvable, solved,
};
use vstd::prelude::*;

verus! {

/// `(r, c)` is the first empty cell of `g` in reading order.
pub open spec fn first_blank(g: Grid, r: int, c: int) -> bool {
    &&& in_bounds(r, c)
    &&& g[r][c] == 0
    &&& forall|i: int, j: int| in_bounds(i, j) && before(i, j, r, c) ==> #[trigger] g[i][j] != 0
}

/// `s` comes before `t` in the order of the search: at the first cell, in
/// reading order, where the two differ, `s` holds the smaller value.
pub open spec fn precedes(s: Grid, t: Grid) -> bool {
    exists|r: int, c: int|
        in_bounds(r, c) && #[trigger] s[r][c] < t[r][c] && forall|i: int, j: int|
            in_bounds(i, j) && before(i, j, r, c) ==> #[trigger] s[i][j] == t[i][j]
}

/// `s` is the solution of `g` that the search reaches first: a solution that
/// comes before every other solution of `g`.
pub open spec fn is_first_solution(g: Grid, s: Grid) -> bool {
    &&& is_solution(g, s)
    &&& forall|t: Grid| #[trigger] is_solution(g, t) ==> t == s || precedes(s, t)
}

/// The first solution of `g`, where `g` has a solution.
pub open spec fn first_solution(g: Grid) -> Grid {
    choose|s: Grid| is_first_solution(g, s)
}

/// Of two grids, at most one precedes the other.
pub proof fn lemma_precedes_is_asymmetric(s: Grid, t: Grid)
    ensures
        !(precedes(s, t) && precedes(t, s)),
{
    if precedes(s, t) && precedes(t, s) {
        let (r1, c1) = choose|r: int, c: int|
            in_bounds(r, c) && #[trigger] s[r][c] < t[r][c] && forall|i: int, j: int|
                in_bounds(i, j) && before(i, j, r, c) ==> #[trigger] s[i][j] == t[i][j];
        let (r2, c2) = choose|r: int, c: int|
            in_bounds(r, c) && #[trigger] t[r][c] < s[r][c] && forall|i: int, j: int|
                in_bounds(i, j) && before(i, j, r, c) ==> #[trigger] t[i][j] == s[i][j];
        if before(r1, c1, r2, c2) {
            assert(t[r1][c1] == s[r1][c1]);
        } else if before(r2, c2, r1, c1) {
            assert(s[r2][c2] == t[r2][c2]);
        }
    }
}

/// A grid has at most one first solution.
pub proof fn lemma_first_solution_is_unique(g: Grid, s: Grid)
    requires
        is_first_solution(g, s),
    ensures
        s == first_solution(g),
{
    let t = first_solution(g);
    assert(is_first_solution(g, t));
    assert(is_solution(g, s) && is_solution(g, t));
    lemma_precedes_is_asymmetric(s, t);
}

/// A solved grid is its own first solution, and its only one.
pub proof fn lemma_solved_is_first_solution(g: Grid)
    requires
        solved(g),
    ensures
        is_first_solution(g, g),
        forall|t: Grid| #[trigger] is_solution(g, t) ==> t == g,
{
    lemma_solved_iff_consistent_and_full(g);
    assert forall|t: Grid| #[trigger] is_solution(g, t) implies t == g by {
        assert forall|r: int| 0 <= r < 9 implies t[r] == g[r] by {
            assert forall|c: int| 0 <= c < 9 implies t[r][c] == g[r][c] by {
                assert(in_bounds(r, c));
                assert(g[r][c] != 0);
            }
            assert(t[r].len() == 9 && g[r].len() == 9);
            assert(t[r] =~= g[r]);
        }
        assert(t =~= g);
    }
}

/// If no solution of `g` holds less than `n` at the first empty cell of `g`,
/// the first solution of `g` with `n` written there is the first solution
/// of `g`.
pub proof fn lemma_first_solution_through(g: Grid, r: int, c: int, n: int, s: Grid)
    requires
        is_grid(g),
        first_blank(g, r, c),
        n != 0,
        is_first_solution(with_cell(g, r, c, n), s),
        forall|t: Grid| #[trigger] is_solution(g, t) ==> t[r][c] >= n,
    ensures
        is_first_solution(g, s),
{
    let h = with_cell(g, r, c, n);
    lemma_solutions_through(g, r, c, n, s);
    assert forall|t: Grid| #[trigger] is_solution(g, t) implies t == s || precedes(s, t) by {
        lemma_solutions_through(g, r, c, n, t);
        if t[r][c] == n {
            assert(is_solution(h, t));
        } else {
            assert(s[r][c] < t[r][c]);
            assert forall|i: int, j: int| in_bounds(i, j) && before(i, j, r, c) implies #[trigger] s[i][j]
                == t[i][j] by {
                assert(g[i][j] != 0);
            }
        }
    }
}

/// A grid with an empty cell among its first `k` cells in reading order has
/// a first empty cell, and it is among them.
proof fn lemma_first_blank_among(g: Grid, k: nat) -> (cell: (int, int))
    requires
        k <= 81,
        exists|i: int, j: int| in_bounds(i, j) && 9 * i + j < k && #[trigger] g[i][j] == 0,
    ensures
        first_blank(g, cell.0, cell.1),
        9 * cell.0 + cell.1 < k,
    decreases k,
{
    if exists|i: int, j: int| in_bounds(i, j) && 9 * i + j < k - 1 && #[trigger] g[i][j] == 0 {
        lemma_first_blank_among(g, (k - 1) as nat)
    } else {
        let (r, c) = choose|i: int, j: int| in_bounds(i, j) && 9 * i + j < k && #[trigger] g[i][j] == 0;
        assert(9 * r + c == k - 1);
        assert forall|i: int, j: int| in_bounds(i, j) && before(i, j, r, c) implies #[trigger] g[i][j]
            != 0 by {
            assert(9 * i + j < k - 1);
        }
        (r, c)
    }
}

/// A grid that is not full has a first empty cell.
pub proof fn lemma_first_blank_exists(g: Grid) -> (cell: (int, int))
    requires
        !full(g),
    ensures
        first_blank(g, cell.0, cell.1),
{
    let (r, c) = choose|r: int, c: int| in_bounds(r, c) && #[trigger] g[r][c] == 0;
    assert(9 * r + c < 81);
    lemma_first_blank_among(g, 81)
}

/// Among the digits that the solutions of `g` hold at an empty cell, there
/// is a least one.
proof fn lemma_least_digit(g: Grid, r: int, c: int, n: int) -> (m: int)
    requires
        1 <= n <= 9,
        in_bounds(r, c),
        g[r][c] == 0,
        solvable(g),
        forall|t: Grid| #[trigger] is_solution(g, t) ==> t[r][c] >= n,
    ensures
        1 <= m <= 9,
        exists|t: Grid| #[trigger] is_solution(g, t) && t[r][c] == m,
        forall|t: Grid| #[trigger] is_solution(g, t) ==> t[r][c] >= m,
    decreases 10 - n,
{
    if exists|t: Grid| #[trigger] is_solution(g, t) && t[r][c] == n {
        n
    } else {
        let t = choose|t: Grid| is_solution(g, t);
        lemma_solution_digit_is_safe(g, t, r, c);
        lemma_least_digit(g, r, c, n + 1)
    }
}

/// A board that obeys the rules and has a solution has a first solution.
pub proof fn lemma_first_solution_exists(g: Grid)
    requires
        consistent(g),
        solvable(g),
    ensures
        is_first_solution(g, first_solution(g)),
    decreases blanks(g),
{
    if full(g) {
        lemma_solved_iff_consistent_and_full(g);
        lemma_solved_is_first_solution(g);
    } else {
        let (r, c) = lemma_first_blank_exists(g);
        assert forall|t: Grid| #[trigger] is_solution(g, t) implies t[r][c] >= 1 by {
            lemma_solution_digit_is_safe(g, t, r, c);
        }
        let m = lemma_least_digit(g, r, c, 1);
        let t = choose|t: Grid| #[trigger] is_solution(g, t) && t[r][c] == m;
        let h = with_cell(g, r, c, m);
        lemma_solution_digit_is_safe(g, t, r, c);
        lemma_safe_keeps_consistent(g, r, c, m);
        lemma_solutions_through(g, r, c, m, t);
        lemma_fill_blanks(g, r, c, m);
        lemma_first_solution_exists(h);
        lemma_first_solution_through(g, r, c, m, first_solution(h));
    }
}

} // verus!
