//! Full rows: which rows are reported, and what the report depends on.

use vstd::prelude::*;
use crate::grid::{is_full_row, Grid};

verus! {

/// A row is reported exactly if it was offered and every cell between its
/// walls is filled. One empty cell there keeps the row out of the report.
pub proof fn lemma_reported_rows(g: Grid, rows: Seq<usize>, row: usize)
    ensures
        rows.filter(is_full_row(g)).contains(row) <==> rows.contains(row) && g.row_full(
            row as int,
        ),
        forall|c: int|
            g.interior(c) && #[trigger] g.cell(row as int, c) == 0 ==> !rows.filter(
                is_full_row(g),
            ).contains(row),
{
    let pred = is_full_row(g);
    let kept = rows.filter(pred);
    if kept.contains(row) {
        let i = choose|i: int| 0 <= i < kept.len() && kept[i] == row;
        rows.lemma_filter_pred(pred, i);
        rows.lemma_filter_contains_rev(pred, row);
    }
    if rows.contains(row) && g.row_full(row as int) {
        let i = choose|i: int| 0 <= i < rows.len() && rows[i] == row;
        rows.lemma_filter_contains(pred, i);
    }
}

/// The rows are reported in the order in which they were offered.
pub proof fn lemma_report_keeps_order(g: Grid, rows: Seq<usize>)
    requires
        forall|a: int, b: int| 0 <= a < b < rows.len() ==> rows[a] < rows[b],
    ensures
        forall|a: int, b: int|
            0 <= a < b < rows.filter(is_full_row(g)).len() ==> rows.filter(is_full_row(g))[a]
                < rows.filter(is_full_row(g))[b],
    decreases rows.len(),
{
    reveal(Seq::filter);
    let pred = is_full_row(g);
    if rows.len() > 0 {
        let head = rows.drop_last();
        lemma_report_keeps_order(g, head);
        assert forall|a: int, b: int| 0 <= a < b < rows.filter(pred).len() implies rows.filter(
            pred,
        )[a] < rows.filter(pred)[b] by {
            if b == head.filter(pred).len() {
                let x = head.filter(pred)[a];
                assert(head.filter(pred).contains(x));
                head.lemma_filter_contains_rev(pred, x);
                let i = choose|i: int| 0 <= i < head.len() && head[i] == x;
                assert(rows[i] < rows[rows.len() - 1]);
            }
        }
    }
}

/// The walls have no say: two grids that agree between the walls report
/// the same rows.
pub proof fn lemma_report_ignores_walls(a: Grid, b: Grid, rows: Seq<usize>)
    requires
        a.wf(),
        b.wf(),
        a.n_rows() == b.n_rows(),
        a.n_cols() == b.n_cols(),
        forall|r: int, c: int|
            a.inside(r, c) && a.interior(c) ==> #[trigger] a.cell(r, c) == b.cell(r, c),
        forall|i: int| 0 <= i < rows.len() ==> rows[i] < a.n_rows(),
    ensures
        rows.filter(is_full_row(a)) == rows.filter(is_full_row(b)),
    decreases rows.len(),
{
    reveal(Seq::filter);
    if rows.len() > 0 {
        lemma_report_ignores_walls(a, b, rows.drop_last());
        let row = rows.last() as int;
        if a.row_full(row) {
            assert forall|c: int| b.interior(c) implies #[trigger] b.cell(row, c) != 0 by {
                assert(a.cell(row, c) != 0);
            }
        }
        if b.row_full(row) {
            assert forall|c: int| a.interior(c) implies #[trigger] a.cell(row, c) != 0 by {
                assert(b.cell(row, c) != 0);
            }
        }
    }
}

} // verus!
