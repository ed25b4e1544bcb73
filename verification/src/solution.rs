//! What it means for a grid to be solved, and for one grid to solve another.

use crate::board::{in_bounds, is_grid, lemma_with_cell, with_cell, Grid};
use crate::rules::{box_origin, consistent, digits_only, full, lemma_safe_is_unseen, peers, safe, sees};
use vstd::prelude::*;
use vstd::set_lib::{lemma_int_range, lemma_len_subset, lemma_subset_equality, set_int_range};

verus! {

/// Row `r` holds `d` in exactly one cell.
pub open spec fn once_in_row(g: Grid, r: int, d: int) -> bool {
    exists|c: int|
        0 <= c < 9 && #[trigger] g[r][c] == d && forall|j: int|
            0 <= j < 9 && j != c ==> #[trigger] g[r][j] != d
}

/// Column `c` holds `d` in exactly one cell.
pub open spec fn once_in_col(g: Grid, c: int, d: int) -> bool {
    exists|r: int|
        0 <= r < 9 && #[trigger] g[r][c] == d && forall|i: int|
            0 <= i < 9 && i != r ==> #[trigger] g[i][c] != d
}

/// The 3×3 block whose top-left cell is `(r0, c0)` holds `d` in exactly one
/// cell.
pub open spec fn once_in_box(g: Grid, r0: int, c0: int, d: int) -> bool {
    exists|r: int, c: int|
        r0 <= r < r0 + 3 && c0 <= c < c0 + 3 && #[trigger] g[r][c] == d && forall|i: int, j: int|
            r0 <= i < r0 + 3 && c0 <= j < c0 + 3 && !(i == r && j == c) ==> #[trigger] g[i][j] != d
}

/// `i` is the first row (or column) of a box.
pub open spec fn is_box_origin(i: int) -> bool {
    i == 0 || i == 3 || i == 6
}

/// A solved grid: every row, every column and every box holds each of the
/// digits 1 to 9 exactly once.
pub open spec fn solved(g: Grid) -> bool {
    &&& is_grid(g)
    &&& forall|r: int, d: int| 0 <= r < 9 && 1 <= d <= 9 ==> #[trigger] once_in_row(g, r, d)
    &&& forall|c: int, d: int| 0 <= c < 9 && 1 <= d <= 9 ==> #[trigger] once_in_col(g, c, d)
    &&& forall|r0: int, c0: int, d: int|
        is_box_origin(r0) && is_box_origin(c0) && 1 <= d <= 9 ==> #[trigger] once_in_box(
            g,
            r0,
            c0,
            d,
        )
}

/// `s` keeps every digit that `g` already holds.
pub open spec fn extends(g: Grid, s: Grid) -> bool {
    forall|r: int, c: int| in_bounds(r, c) && g[r][c] != 0 ==> #[trigger] s[r][c] == g[r][c]
}

/// `s` is a solution of `g`: a solved grid that keeps the digits of `g`.
pub open spec fn is_solution(g: Grid, s: Grid) -> bool {
    solved(s) && extends(g, s)
}

/// `g` has at least one solution.
pub open spec fn solvable(g: Grid) -> bool {
    exists|s: Grid| is_solution(g, s)
}

/// Nine different digits are all the digits.
proof fn lemma_nine_distinct_digits(s: Seq<int>, d: int)
    requires
        s.len() == 9,
        forall|i: int| 0 <= i < 9 ==> 1 <= #[trigger] s[i] <= 9,
        forall|i: int, j: int| 0 <= i < 9 && 0 <= j < 9 && i != j ==> s[i] != s[j],
        1 <= d <= 9,
    ensures
        exists|i: int| 0 <= i < 9 && s[i] == d,
{
    let digits = set_int_range(1, 10);
    assert(s.no_duplicates());
    s.unique_seq_to_set();
    lemma_int_range(1, 10);
    assert(s.to_set().subset_of(digits)) by {
        assert forall|a: int| s.to_set().contains(a) implies digits.contains(a) by {
            assert(s.contains(a));
        }
    }
    lemma_len_subset(s.to_set(), digits);
    lemma_subset_equality(s.to_set(), digits);
    assert(digits.contains(d));
    assert(s.to_set().contains(d));
    assert(s.contains(d));
}

/// A full consistent grid holds every digit once in each row.
proof fn lemma_full_row(g: Grid, r: int, d: int)
    requires
        consistent(g),
        full(g),
        0 <= r < 9,
        1 <= d <= 9,
    ensures
        once_in_row(g, r, d),
{
    let s = g[r];
    assert forall|i: int| 0 <= i < 9 implies 1 <= #[trigger] s[i] <= 9 by {
        assert(in_bounds(r, i));
        assert(g[r][i] != 0);
    }
    assert forall|i: int, j: int| 0 <= i < 9 && 0 <= j < 9 && i != j implies s[i] != s[j] by {
        assert(in_bounds(r, i) && in_bounds(r, j) && peers(r, i, r, j));
        assert(g[r][i] != 0);
    }
    lemma_nine_distinct_digits(s, d);
    let c = choose|c: int| 0 <= c < 9 && s[c] == d;
    assert(g[r][c] == d);
    assert forall|j: int| 0 <= j < 9 && j != c implies #[trigger] g[r][j] != d by {
        assert(in_bounds(r, c) && in_bounds(r, j) && peers(r, c, r, j));
    }
}

/// A full consistent grid holds every digit once in each column.
proof fn lemma_full_col(g: Grid, c: int, d: int)
    requires
        consistent(g),
        full(g),
        0 <= c < 9,
        1 <= d <= 9,
    ensures
        once_in_col(g, c, d),
{
    let s = Seq::new(9, |i: int| g[i][c]);
    assert forall|i: int| 0 <= i < 9 implies 1 <= #[trigger] s[i] <= 9 by {
        assert(in_bounds(i, c));
        assert(g[i][c] != 0);
    }
    assert forall|i: int, j: int| 0 <= i < 9 && 0 <= j < 9 && i != j implies s[i] != s[j] by {
        assert(in_bounds(i, c) && in_bounds(j, c) && peers(i, c, j, c));
        assert(g[i][c] != 0);
    }
    lemma_nine_distinct_digits(s, d);
    let r = choose|r: int| 0 <= r < 9 && s[r] == d;
    assert(g[r][c] == d);
    assert forall|i: int| 0 <= i < 9 && i != r implies #[trigger] g[i][c] != d by {
        assert(in_bounds(r, c) && in_bounds(i, c) && peers(r, c, i, c));
    }
}

/// A full consistent grid holds every digit once in each box.
proof fn lemma_full_box(g: Grid, r0: int, c0: int, d: int)
    requires
        consistent(g),
        full(g),
        is_box_origin(r0),
        is_box_origin(c0),
        1 <= d <= 9,
    ensures
        once_in_box(g, r0, c0, d),
{
    let s = Seq::new(9, |k: int| g[r0 + k / 3][c0 + k % 3]);
    assert forall|k: int| 0 <= k < 9 implies 1 <= #[trigger] s[k] <= 9 by {
        assert(in_bounds(r0 + k / 3, c0 + k % 3));
        assert(g[r0 + k / 3][c0 + k % 3] != 0);
    }
    assert forall|k: int, l: int| 0 <= k < 9 && 0 <= l < 9 && k != l implies s[k] != s[l] by {
        let (r1, c1) = (r0 + k / 3, c0 + k % 3);
        let (r2, c2) = (r0 + l / 3, c0 + l % 3);
        assert(in_bounds(r1, c1) && in_bounds(r2, c2));
        assert(box_origin(r1) == r0 && box_origin(r2) == r0);
        assert(box_origin(c1) == c0 && box_origin(c2) == c0);
        assert(peers(r1, c1, r2, c2));
        assert(g[r1][c1] != 0);
    }
    lemma_nine_distinct_digits(s, d);
    let k = choose|k: int| 0 <= k < 9 && s[k] == d;
    let (r, c) = (r0 + k / 3, c0 + k % 3);
    assert(g[r][c] == d);
    assert forall|i: int, j: int|
        r0 <= i < r0 + 3 && c0 <= j < c0 + 3 && !(i == r && j == c) implies #[trigger] g[i][j] != d by {
        assert(in_bounds(r, c) && in_bounds(i, j));
        assert(box_origin(r) == r0 && box_origin(i) == r0);
        assert(box_origin(c) == c0 && box_origin(j) == c0);
        assert(peers(r, c, i, j));
    }
}

/// A column of row `r` in which `d` stands, if there is one.
spec fn column_of(g: Grid, r: int, d: int) -> int {
    choose|j: int| 0 <= j < 9 && g[r][j] == d
}

/// In a solved grid every cell holds a digit.
proof fn lemma_solved_cell_is_digit(g: Grid, r: int, c: int)
    requires
        solved(g),
        in_bounds(r, c),
    ensures
        1 <= g[r][c] <= 9,
{
    // Where each digit stands in row `r`, counted from 1.
    let s = Seq::new(9, |k: int| column_of(g, r, k + 1) + 1);
    assert forall|d: int| 1 <= d <= 9 implies 0 <= #[trigger] column_of(g, r, d) < 9 && g[r][column_of(
        g,
        r,
        d,
    )] == d by {
        assert(once_in_row(g, r, d));
    }
    assert forall|k: int| 0 <= k < 9 implies 1 <= #[trigger] s[k] <= 9 by {
        assert(0 <= column_of(g, r, k + 1) < 9);
    }
    assert forall|k: int, l: int| 0 <= k < 9 && 0 <= l < 9 && k != l implies s[k] != s[l] by {
        assert(g[r][column_of(g, r, k + 1)] == k + 1);
        assert(g[r][column_of(g, r, l + 1)] == l + 1);
    }
    lemma_nine_distinct_digits(s, c + 1);
    let k = choose|k: int| 0 <= k < 9 && s[k] == c + 1;
    assert(g[r][column_of(g, r, k + 1)] == k + 1);
}

/// A grid is solved exactly when it is consistent and full.
pub proof fn lemma_solved_iff_consistent_and_full(g: Grid)
    ensures
        solved(g) <==> consistent(g) && full(g),
{
    if consistent(g) && full(g) {
        assert forall|r: int, d: int| 0 <= r < 9 && 1 <= d <= 9 implies #[trigger] once_in_row(
            g,
            r,
            d,
        ) by {
            lemma_full_row(g, r, d);
        }
        assert forall|c: int, d: int| 0 <= c < 9 && 1 <= d <= 9 implies #[trigger] once_in_col(
            g,
            c,
            d,
        ) by {
            lemma_full_col(g, c, d);
        }
        assert forall|r0: int, c0: int, d: int|
            is_box_origin(r0) && is_box_origin(c0) && 1 <= d <= 9 implies #[trigger] once_in_box(
            g,
            r0,
            c0,
            d,
        ) by {
            lemma_full_box(g, r0, c0, d);
        }
    }
    if solved(g) {
        assert forall|r: int, c: int| in_bounds(r, c) implies 1 <= #[trigger] g[r][c] <= 9 by {
            lemma_solved_cell_is_digit(g, r, c);
        }
        assert(digits_only(g));
        assert(full(g));
        assert forall|r1: int, c1: int, r2: int, c2: int|
            in_bounds(r1, c1) && in_bounds(r2, c2) && peers(r1, c1, r2, c2) && g[r1][c1]
                != 0 implies #[trigger] g[r1][c1] != #[trigger] g[r2][c2] by {
            let d = g[r1][c1];
            if r1 == r2 {
                assert(once_in_row(g, r1, d));
            } else if c1 == c2 {
                assert(once_in_col(g, c1, d));
            } else {
                let r0 = box_origin(r1);
                let c0 = box_origin(c1);
                assert(is_box_origin(r0) && is_box_origin(c0));
                assert(once_in_box(g, r0, c0, d));
                assert(r0 <= r1 < r0 + 3 && c0 <= c1 < c0 + 3);
                assert(r0 <= r2 < r0 + 3 && c0 <= c2 < c0 + 3);
            }
        }
    }
}

/// A grid with a solution obeys the rules.
pub proof fn lemma_solvable_is_consistent(g: Grid)
    requires
        is_grid(g),
        solvable(g),
    ensures
        consistent(g),
{
    let s = choose|s: Grid| is_solution(g, s);
    lemma_solved_iff_consistent_and_full(s);
    assert forall|r: int, c: int| in_bounds(r, c) implies 0 <= #[trigger] g[r][c] <= 9 by {
        if g[r][c] != 0 {
            assert(s[r][c] == g[r][c]);
        }
    }
    assert forall|r1: int, c1: int, r2: int, c2: int|
        in_bounds(r1, c1) && in_bounds(r2, c2) && peers(r1, c1, r2, c2) && g[r1][c1]
            != 0 implies #[trigger] g[r1][c1] != #[trigger] g[r2][c2] by {
        assert(s[r1][c1] == g[r1][c1]);
        if g[r2][c2] != 0 {
            assert(s[r2][c2] == g[r2][c2]);
        }
    }
}

/// A solution of `g` holds, at an empty cell of `g`, a digit that is safe
/// there.
pub proof fn lemma_solution_digit_is_safe(g: Grid, t: Grid, r: int, c: int)
    requires
        is_solution(g, t),
        in_bounds(r, c),
        g[r][c] == 0,
    ensures
        1 <= t[r][c] <= 9,
        safe(g, r, c, t[r][c]),
{
    let n = t[r][c];
    lemma_solved_iff_consistent_and_full(t);
    assert(n != 0);
    assert forall|i: int, j: int| in_bounds(i, j) && sees(r, c, i, j) implies #[trigger] g[i][j]
        != n by {
        if g[i][j] == n {
            assert(t[i][j] == n);
            assert(peers(r, c, i, j));
        }
    }
    lemma_safe_is_unseen(g, r, c, n);
}

/// The solutions of `g` with `n` at an empty cell are the solutions of `g`
/// with `n` written there.
pub proof fn lemma_solutions_through(g: Grid, r: int, c: int, n: int, t: Grid)
    requires
        is_grid(g),
        in_bounds(r, c),
        g[r][c] == 0,
        n != 0,
    ensures
        is_solution(with_cell(g, r, c, n), t) <==> is_solution(g, t) && t[r][c] == n,
{
    let h = with_cell(g, r, c, n);
    lemma_with_cell(g, r, c, n);
    if is_solution(h, t) {
        assert(h[r][c] != 0);
        assert(t[r][c] == n);
        assert forall|i: int, j: int| in_bounds(i, j) && g[i][j] != 0 implies #[trigger] t[i][j]
            == g[i][j] by {
            assert(h[i][j] == g[i][j]);
        }
    }
    if is_solution(g, t) && t[r][c] == n {
        assert forall|i: int, j: int| in_bounds(i, j) && h[i][j] != 0 implies #[trigger] t[i][j]
            == h[i][j] by {
            if !(i == r && j == c) {
                assert(g[i][j] != 0);
            }
        }
    }
}

} // verus!
