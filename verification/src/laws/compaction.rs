//! Clearing rows compacts the stack: on a grid where no filled row lies above
//! an empty one, clearing rows in ascending order keeps every other row, in
//! order and cell by cell, and lets it sink by the number of cleared rows
//! below it.

use vstd::prelude::*;
use crate::grid::{lemma_anchor, lemma_clear_one_shape, lemma_same_cells, Grid};

verus! {

/// Whether no row with a filled cell lies above an empty row.
pub open spec fn compact(g: Grid) -> bool {
    forall|upper: int, lower: int|
        #![trigger g.row_empty(upper), g.row_empty(lower)]
        0 <= upper < lower < g.n_rows() && g.row_empty(lower) ==> g.row_empty(upper)
}

/// Whether each row of the list lies below the one before it.
pub open spec fn strictly_ascending(rows: Seq<usize>) -> bool {
    forall|a: int, b: int| 0 <= a < b < rows.len() ==> rows[a] < rows[b]
}

/// How many rows of the list lie below row `p`.
pub open spec fn cleared_below(rows: Seq<usize>, p: int) -> int
    decreases rows.len(),
{
    if rows.len() == 0 {
        0
    } else {
        cleared_below(rows.drop_last(), p) + if rows.last() > p {
            1int
        } else {
            0int
        }
    }
}

/// Where row `p` lies after the rows of the list were cleared, if it is not
/// one of them: as many rows further down as rows below it were cleared.
pub open spec fn sinks_to(rows: Seq<usize>, p: int) -> int {
    p + cleared_below(rows, p)
}


/// Whether a row of one grid holds, between the walls, what a row of
/// another holds.
pub open spec fn same_row(a: Grid, ra: int, b: Grid, rb: int) -> bool {
    forall|c: int| b.interior(c) ==> #[trigger] a.cell(ra, c) == b.cell(rb, c)
}

/// Clearing one row keeps the size of the grid and its walls, and leaves
/// every row below the cleared one as it was.
pub proof fn lemma_clear_one_frame(g: Grid, row: int)
    requires
        g.wf(),
        0 <= row < g.n_rows(),
    ensures
        g.clear_one(row).wf(),
        g.clear_one(row).n_rows() == g.n_rows(),
        g.clear_one(row).n_cols() == g.n_cols(),
        forall|r: int, c: int|
            g.inside(r, c) && (!g.interior(c) || r > row) ==> #[trigger] g.clear_one(row).cell(r, c)
                == g.cell(r, c),
{
    lemma_anchor(g, row);
    lemma_clear_one_shape(g, row);
}

/// Where the top row and every row above the cleared one hold something,
/// clearing moves each of them one row down and leaves the top row empty:
/// every row has left its place, and none has moved into the top one.
pub proof fn lemma_top_row_left_empty(g: Grid, row: int)
    requires
        g.wf(),
        0 <= row < g.n_rows(),
        !g.row_empty(0),
        forall|r: int| 0 <= r < row ==> !#[trigger] g.row_empty(r),
    ensures
        g.clear_one(row).row_empty(0),
        forall|r: int| 0 < r <= row ==> #[trigger] same_row(g.clear_one(row), r, g, r - 1),
{
    lemma_anchor(g, row);
    lemma_clear_one_shape(g, row);
    let after = g.clear_one(row);
    assert(!g.row_empty(g.anchor(row)));
    assert forall|c: int| after.interior(c) implies #[trigger] after.cell(0, c) == 0 by {}
    assert forall|r: int| 0 < r <= row implies #[trigger] same_row(after, r, g, r - 1) by {
        assert forall|c: int| g.interior(c) implies #[trigger] after.cell(r, c) == g.cell(
            r - 1,
            c,
        ) by {}
    }
}

/// A row of the cleared grid is empty exactly if the row it came from was;
/// the top row, where it was left behind by all the others, is empty.
proof fn lemma_moved_row(g: Grid, row: int, r: int)
    requires
        g.wf(),
        0 <= row < g.n_rows(),
        0 <= r < g.n_rows(),
    ensures
        g.anchor(row) < r <= row ==> g.clear_one(row).row_empty(r) == g.row_empty(r - 1),
        r == 0 && !g.row_empty(g.anchor(row)) ==> g.clear_one(row).row_empty(r),
        !(g.anchor(row) < r <= row) && !(r == 0 && !g.row_empty(g.anchor(row))) ==> g.clear_one(
            row,
        ).row_empty(r) == g.row_empty(r),
{
    lemma_anchor(g, row);
    lemma_clear_one_shape(g, row);
    let after = g.clear_one(row);
    if r == 0 && !g.row_empty(g.anchor(row)) {
        assert forall|c: int| after.interior(c) implies #[trigger] after.cell(r, c) == 0 by {}
    } else {
        let from = if g.anchor(row) < r <= row {
            r - 1
        } else {
            r
        };
        if g.row_empty(from) {
            assert forall|c: int| after.interior(c) implies #[trigger] after.cell(r, c) == 0 by {
                assert(g.cell(from, c) == 0);
            }
        }
        if after.row_empty(r) {
            assert forall|c: int| g.interior(c) implies #[trigger] g.cell(from, c) == 0 by {
                assert(after.cell(r, c) == 0);
            }
        }
    }
}

/// Clearing one row of a compact grid leaves a compact grid.
pub proof fn lemma_clear_one_compact(g: Grid, row: int)
    requires
        g.wf(),
        compact(g),
        0 <= row < g.n_rows(),
    ensures
        compact(g.clear_one(row)),
{
    let after = g.clear_one(row);
    let a = g.anchor(row);
    lemma_anchor(g, row);
    lemma_clear_one_frame(g, row);
    assert forall|upper: int, lower: int|
        #![trigger after.row_empty(upper), after.row_empty(lower)]
        0 <= upper < lower < after.n_rows() && after.row_empty(lower) implies after.row_empty(
        upper,
    ) by {
        lemma_moved_row(g, row, upper);
        lemma_moved_row(g, row, lower);
        let from_lower = if a < lower <= row {
            lower - 1
        } else {
            lower
        };
        let from_upper = if a < upper <= row {
            upper - 1
        } else {
            upper
        };
        assert(g.row_empty(from_lower));
        if g.row_empty(a) {
            if from_upper < from_lower {
                assert(g.row_empty(from_upper));
            } else {
                assert(from_upper == from_lower);
            }
        } else {
            // No row down to the cleared one was empty, so a row that is
            // empty now lay below the cleared one, with filled rows above.
            assert(a == 0);
            if from_lower != 0 {
                assert(g.row_empty(0));
            }
            assert(g.row_empty(g.anchor(row)));
        }
    }
}

/// Clearing a row that is empty changes nothing on a compact grid: rows
/// that were cleared can be cleared again without harm.
pub proof fn lemma_clearing_an_empty_row(g: Grid, row: int)
    requires
        g.wf(),
        compact(g),
        0 <= row < g.n_rows(),
        g.row_empty(row),
    ensures
        g.clear_one(row) == g,
{
    lemma_anchor(g, row);
    lemma_clear_one_shape(g, row);
    let after = g.clear_one(row);
    if row > 0 {
        assert(g.row_empty(row - 1));
    }
    assert(g.row_empty(g.anchor(row)));
    assert forall|r: int, c: int| after.inside(r, c) implies #[trigger] after.cell(r, c) == g.cell(
        r,
        c,
    ) by {
        if g.anchor(row) < r <= row && g.interior(c) {
            assert(r == row);
            assert(g.cell(row - 1, c) == 0);
            assert(g.cell(row, c) == 0);
        }
    }
    lemma_same_cells(after, g);
}

/// Clearing rows keeps the size of the grid and its walls, and leaves every
/// row below all the cleared ones as it was.
pub proof fn lemma_clear_all_frame(g: Grid, rows: Seq<usize>)
    requires
        g.wf(),
        forall|i: int| 0 <= i < rows.len() ==> rows[i] < g.n_rows(),
    ensures
        g.clear_all(rows).wf(),
        g.clear_all(rows).n_rows() == g.n_rows(),
        g.clear_all(rows).n_cols() == g.n_cols(),
        forall|r: int, c: int|
            g.inside(r, c) && (!g.interior(c) || forall|i: int|
                0 <= i < rows.len() ==> rows[i] < r) ==> #[trigger] g.clear_all(rows).cell(r, c)
                == g.cell(r, c),
    decreases rows.len(),
{
    if rows.len() > 0 {
        let head = rows.drop_last();
        let last = rows.last() as int;
        lemma_clear_all_frame(g, head);
        lemma_clear_one_frame(g.clear_all(head), last);
        let mid = g.clear_all(head);
        let after = g.clear_all(rows);
        assert forall|r: int, c: int|
            g.inside(r, c) && (!g.interior(c) || forall|i: int|
                0 <= i < rows.len() ==> rows[i] < r) implies #[trigger] after.cell(r, c) == g.cell(
            r,
            c,
        ) by {
            if g.interior(c) {
                assert(rows[rows.len() - 1] < r);
                assert forall|i: int| 0 <= i < head.len() implies head[i] < r by {
                    assert(head[i] == rows[i]);
                }
            }
            assert(after.cell(r, c) == mid.cell(r, c));
        }
    }
}

/// The border is never cleared away: where both walls and the floor stand
/// and the floor row is not among the rows to clear, they stand afterwards.
pub proof fn lemma_clear_rows_keeps_border(g: Grid, rows: Seq<usize>)
    requires
        g.wf(),
        g.has_borders(),
        forall|i: int| 0 <= i < rows.len() ==> rows[i] < g.n_rows() - 1,
    ensures
        g.clear_all(rows).has_borders(),
{
    lemma_clear_all_frame(g, rows);
    let after = g.clear_all(rows);
    assert forall|r: int, c: int|
        after.inside(r, c) && (c == 0 || c == after.n_cols() - 1 || r == after.n_rows()
            - 1) implies #[trigger] after.cell(r, c) == crate::grid::WALL by {
        assert(g.cell(r, c) == crate::grid::WALL);
    }
}

/// A fresh grid is in order: its border stands, every row above the floor
/// is empty, and no filled row lies above an empty one.
pub proof fn lemma_fresh_grid(rows: int, cols: int)
    requires
        rows >= 1,
        cols >= 2,
    ensures
        Grid::walled(rows, cols).wf(),
        Grid::walled(rows, cols).n_rows() == rows,
        Grid::walled(rows, cols).n_cols() == cols,
        Grid::walled(rows, cols).has_borders(),
        forall|r: int| 0 <= r < rows - 1 ==> #[trigger] Grid::walled(rows, cols).row_empty(r),
        compact(Grid::walled(rows, cols)),
{
    let g = Grid::walled(rows, cols);
    assert forall|r: int| 0 <= r < rows - 1 implies #[trigger] g.row_empty(r) by {}
}

/// Clearing rows of a compact grid leaves a compact grid.
pub proof fn lemma_clear_all_compact(g: Grid, rows: Seq<usize>)
    requires
        g.wf(),
        compact(g),
        forall|i: int| 0 <= i < rows.len() ==> rows[i] < g.n_rows(),
    ensures
        compact(g.clear_all(rows)),
    decreases rows.len(),
{
    if rows.len() > 0 {
        let head = rows.drop_last();
        lemma_clear_all_compact(g, head);
        lemma_clear_all_frame(g, head);
        lemma_clear_one_compact(g.clear_all(head), rows.last() as int);
    }
}

/// Of rows listed in ascending order, all above row `limit`, few lie below
/// row `p`: no more than there are rows between the two.
pub proof fn lemma_cleared_below_bound(rows: Seq<usize>, p: int, limit: int)
    requires
        strictly_ascending(rows),
        forall|i: int| 0 <= i < rows.len() ==> rows[i] < limit,
    ensures
        0 <= cleared_below(rows, p),
        p < limit ==> cleared_below(rows, p) <= limit - 1 - p,
        p >= limit - 1 ==> cleared_below(rows, p) == 0,
    decreases rows.len(),
{
    if rows.len() > 0 {
        let head = rows.drop_last();
        let last = rows.last() as int;
        assert forall|i: int| 0 <= i < head.len() implies head[i] < last by {
            assert(head[i] == rows[i]);
        }
        lemma_cleared_below_bound(head, p, last);
    }
}

/// The row in the `i`-th place of an ascending list is row `i` or a row
/// below it.
pub proof fn lemma_ascending_floor(rows: Seq<usize>, i: int)
    requires
        strictly_ascending(rows),
        0 <= i < rows.len(),
    ensures
        rows[i] >= i,
    decreases i,
{
    if i > 0 {
        lemma_ascending_floor(rows, i - 1);
    }
}

/// Clearing rows compacts the stack. On a compact grid, with the rows to
/// clear listed in ascending order:
/// the grid keeps its size and its walls, and stays compact;
/// every row that is not cleared keeps what it holds between the walls and
/// sinks by the number of cleared rows below it;
/// and where none of the cleared rows was empty, as many rows at the top are
/// empty afterwards as rows were cleared.
pub proof fn lemma_clear_rows_compacts(g: Grid, rows: Seq<usize>)
    requires
        g.wf(),
        compact(g),
        strictly_ascending(rows),
        forall|i: int| 0 <= i < rows.len() ==> rows[i] < g.n_rows(),
    ensures
        g.clear_all(rows).wf(),
        g.clear_all(rows).n_rows() == g.n_rows(),
        g.clear_all(rows).n_cols() == g.n_cols(),
        compact(g.clear_all(rows)),
        forall|r: int, c: int|
            g.inside(r, c) && !g.interior(c) ==> #[trigger] g.clear_all(rows).cell(r, c) == g.cell(
                r,
                c,
            ),
        forall|p: usize|
            p < g.n_rows() && !rows.contains(p) ==> 0 <= #[trigger] sinks_to(rows, p as int)
                < g.n_rows(),
        forall|p: usize|
            p < g.n_rows() && !rows.contains(p) ==> #[trigger] same_row(
                g.clear_all(rows),
                sinks_to(rows, p as int),
                g,
                p as int,
            ),
        (forall|i: int| 0 <= i < rows.len() ==> !g.row_empty(rows[i] as int)) ==> forall|r: int|
            0 <= r < rows.len() ==> #[trigger] g.clear_all(rows).row_empty(r),
    decreases rows.len(),
{
    lemma_clear_all_frame(g, rows);
    lemma_clear_all_compact(g, rows);
    let after = g.clear_all(rows);
    if rows.len() == 0 {
        assert forall|p: usize| p < g.n_rows() implies #[trigger] same_row(
            after,
            sinks_to(rows, p as int),
            g,
            p as int,
        ) by {
            assert(cleared_below(rows, p as int) == 0);
        }
    } else {
        let head = rows.drop_last();
        let last = rows.last() as int;
        let mid = g.clear_all(head);
        let a = mid.anchor(last);
        assert(strictly_ascending(head)) by {
            assert forall|x: int, y: int| 0 <= x < y < head.len() implies head[x] < head[y] by {
                assert(head[x] == rows[x] && head[y] == rows[y]);
            }
        }
        assert forall|i: int| 0 <= i < head.len() implies head[i] < last by {
            assert(head[i] == rows[i]);
        }
        lemma_clear_rows_compacts(g, head);
        lemma_clear_all_frame(g, head);
        lemma_anchor(mid, last);
        lemma_clear_one_shape(mid, last);
        assert forall|row: usize| row < g.n_rows() && !rows.contains(row) implies 0
            <= #[trigger] sinks_to(rows, row as int) < g.n_rows() by {
            lemma_cleared_below_bound(rows, row as int, g.n_rows());
            lemma_cleared_below_bound(head, row as int, last);
            assert(rows[rows.len() - 1] == last);
        }
        assert forall|row: usize| row < g.n_rows() && !rows.contains(row) implies #[trigger] same_row(
            after,
            sinks_to(rows, row as int),
            g,
            row as int,
        ) by {
            let p = row as int;
            assert(p != last) by {
                assert(rows[rows.len() - 1] == last);
            }
            assert(!head.contains(row)) by {
                if head.contains(row) {
                    let i = choose|i: int| 0 <= i < head.len() && head[i] == row;
                    assert(rows[i] == row);
                }
            }
            lemma_cleared_below_bound(head, p, last);
            let q = sinks_to(head, p);
            assert(same_row(mid, q, g, p));
            if p > last {
                assert(q == p);
                assert forall|c: int| g.interior(c) implies #[trigger] after.cell(p, c) == g.cell(
                    p,
                    c,
                ) by {
                    assert(mid.cell(q, c) == g.cell(p, c));
                }
            } else {
                assert(q < last);
                assert(cleared_below(rows, p) == cleared_below(head, p) + 1);
                if a <= q {
                    assert forall|c: int| g.interior(c) implies #[trigger] after.cell(q + 1, c)
                        == g.cell(p, c) by {
                        assert(mid.cell(q, c) == g.cell(p, c));
                    }
                } else {
                    assert(mid.row_empty(a));
                    assert(mid.row_empty(q));
                    assert(q + 1 == a || mid.row_empty(q + 1));
                    assert forall|c: int| g.interior(c) implies #[trigger] after.cell(q + 1, c)
                        == g.cell(p, c) by {
                        assert(mid.cell(q, c) == g.cell(p, c));
                        assert(mid.cell(q, c) == 0);
                        assert(mid.cell(q + 1, c) == 0);
                    }
                }
            }
        }
        if forall|i: int| 0 <= i < rows.len() ==> !g.row_empty(rows[i] as int) {
            assert forall|i: int| 0 <= i < head.len() implies !g.row_empty(head[i] as int) by {
                assert(head[i] == rows[i]);
            }
            let k = rows.len() as int;
            lemma_ascending_floor(rows, k - 1);
            assert(!g.row_empty(last)) by {
                assert(rows[k - 1] == last);
            }
            assert(!mid.row_empty(last)) by {
                if mid.row_empty(last) {
                    assert forall|c: int| g.interior(c) implies #[trigger] g.cell(last, c) == 0 by {
                        assert(mid.cell(last, c) == 0);
                    }
                }
            }
            if mid.row_empty(a) {
                assert(a < last);
                assert(a >= k - 2) by {
                    if k >= 2 {
                        assert(mid.row_empty(k - 2));
                        if a < k - 2 {
                            assert(!mid.row_empty(k - 2));
                        }
                    }
                }
                assert forall|r: int| 0 <= r < rows.len() implies #[trigger] after.row_empty(r) by {
                    assert(mid.row_empty(if r <= a {
                        r
                    } else {
                        r - 1
                    })) by {
                        if r < a {
                            assert(mid.row_empty(r));
                        }
                    }
                    assert forall|c: int| after.interior(c) implies #[trigger] after.cell(r, c)
                        == 0 by {
                        if r <= a {
                            assert(mid.cell(r, c) == 0);
                        } else {
                            assert(mid.cell(r - 1, c) == 0);
                        }
                    }
                }
            } else {
                assert(!mid.row_empty(0));
                lemma_top_row_left_empty(mid, last);
                assert(k == 1) by {
                    if k >= 2 {
                        assert(mid.row_empty(0));
                        assert(0 < last);
                    }
                }
            }
        }
    }
}

} // verus!
