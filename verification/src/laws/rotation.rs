//! Rotation only relocates cells: under every rotation a piece shows each
//! stored cell exactly once.

use vstd::prelude::*;
use crate::shape::{
    lemma_catalogs_are_square,
    lemma_cell_of_index,
    lemma_index_of_cell,
    lemma_source_in_matrix,
    lemma_square_row_bound,
    valid_rotation,
    Geometry,
    Rotation,
    RotationSystem,
    RotationType,
    ShapeBuilder,
};

verus! {

/// Whether `(row, col)` lies in a box `w` cells wide and high.
pub open spec fn in_box(row: int, col: int, w: int) -> bool {
    0 <= row < w && 0 <= col < w
}

/// What a piece shows under `rot`, cell by cell in row-major order.
pub open spec fn shown(g: Geometry, rot: int) -> Seq<usize> {
    Seq::new(g.cells.len(), |i: int| g.cell_at(i / (g.width as int), i % (g.width as int), rot))
}

/// Where the stored cell `(row, col)` is shown under `rot`: the way back
/// from `source_cell`.
pub open spec fn shown_at(variant: RotationType, row: int, col: int, rot: int, w: int) -> (
    int,
    int,
) {
    match variant {
        RotationType::SRS => {
            if rot == 1 {
                (col, w - 1 - row)
            } else if rot == 2 {
                (w - 1 - row, w - 1 - col)
            } else if rot == 3 {
                (w - 1 - col, row)
            } else {
                (row, col)
            }
        },
        RotationType::NES => {
            if rot == 1 || rot == 3 {
                (w - 1 - col, row)
            } else {
                (row, col)
            }
        },
        RotationType::STILL => (row, col),
    }
}

/// Every rotation of every kind of piece maps the box onto itself, one to
/// one: each position shows a stored cell of the box, no two positions show
/// the same one, and every stored cell is shown at some position.
pub proof fn lemma_rotation_is_bijection(variant: RotationType, rot: int, w: int)
    ensures
        forall|row: int, col: int|
            in_box(row, col, w) ==> ({
                let src = #[trigger] variant.source_cell(row, col, rot, w);
                in_box(src.0, src.1, w) && shown_at(variant, src.0, src.1, rot, w) == (row, col)
            }),
        forall|row: int, col: int|
            in_box(row, col, w) ==> ({
                let at = #[trigger] shown_at(variant, row, col, rot, w);
                in_box(at.0, at.1, w) && variant.source_cell(at.0, at.1, rot, w) == (row, col)
            }),
        forall|r1: int, c1: int, r2: int, c2: int|
            in_box(r1, c1, w) && in_box(r2, c2, w) && #[trigger] variant.source_cell(r1, c1, rot, w)
                == #[trigger] variant.source_cell(r2, c2, rot, w) ==> r1 == r2 && c1 == c2,
{
}

/// A piece that never turns shows the same value at a position whatever the
/// rotation index.
pub proof fn lemma_still_ignores_rotation(g: Geometry, row: int, col: int, rot1: int, rot2: int)
    requires
        g.rot_type == RotationType::STILL,
    ensures
        g.cell_at(row, col, rot1) == g.cell_at(row, col, rot2),
{
}

/// A piece with two states shows under indices 0 and 2 what it stores, and
/// under indices 1 and 3 what a freely turning piece with the same matrix
/// shows under index 3.
pub proof fn lemma_two_states(g: Geometry, row: int, col: int)
    requires
        g.rot_type == RotationType::NES,
    ensures
        g.cell_at(row, col, 0) == g.cells[row * g.width + col],
        g.cell_at(row, col, 2) == g.cell_at(row, col, 0),
        g.cell_at(row, col, 3) == g.cell_at(row, col, 1),
        g.cell_at(row, col, 1) == (Geometry { rot_type: RotationType::SRS, ..g }).cell_at(
            row,
            col,
            3,
        ),
{
}

/// If `t` holds the items of `s` in another order, given by a one-to-one
/// map `p` from the positions of `t` to those of `s`, the two hold the same
/// items, each as often.
pub proof fn lemma_rearranged<A>(s: Seq<A>, t: Seq<A>, p: spec_fn(int) -> int)
    requires
        s.len() == t.len(),
        forall|i: int| 0 <= i < t.len() ==> 0 <= #[trigger] p(i) < s.len(),
        forall|i: int, j: int| 0 <= i < j < t.len() ==> #[trigger] p(i) != #[trigger] p(j),
        forall|i: int| 0 <= i < t.len() ==> #[trigger] t[i] == s[p(i)],
    ensures
        t.to_multiset() == s.to_multiset(),
    decreases t.len(),
{
    broadcast use vstd::seq_lib::group_to_multiset_ensures;

    if t.len() == 0 {
        assert(s =~= t);
    } else {
        let n = t.len() - 1;
        let j = p(n);
        let t1 = t.drop_last();
        let s1 = s.remove(j);
        let q = |i: int|
            if p(i) < j {
                p(i)
            } else {
                p(i) - 1
            };
        assert forall|i: int| 0 <= i < t1.len() implies 0 <= #[trigger] q(i) < s1.len() by {
            assert(p(i) != p(n));
        }
        assert forall|a: int, b: int| 0 <= a < b < t1.len() implies #[trigger] q(a)
            != #[trigger] q(b) by {
            assert(p(a) != p(b));
            assert(p(a) != p(n));
            assert(p(b) != p(n));
        }
        assert forall|i: int| 0 <= i < t1.len() implies #[trigger] t1[i] == s1[q(i)] by {
            assert(p(i) != p(n));
            assert(t[i] == s[p(i)]);
        }
        lemma_rearranged(s1, t1, q);
        assert(t =~= t1.push(t[n]));
        assert(t[n] == s[j]);
        assert(s.to_multiset().count(s[j]) > 0) by {
            assert(s.contains(s[j]));
        }
        assert(t.to_multiset() =~= s.to_multiset());
    }
}

/// Rotation never creates or destroys a cell: what a piece shows under a
/// rotation holds the stored values, each as often as the matrix does.
pub proof fn lemma_rotation_keeps_cells(g: Geometry, rot: int)
    requires
        valid_rotation(rot),
        g.placeable(rot),
    ensures
        shown(g, rot).len() == g.cells.len(),
        shown(g, rot).to_multiset() == g.cells.to_multiset(),
{
    let w = g.width as int;
    let t = shown(g, rot);
    let p = |i: int|
        {
            let src = g.rot_type.source_cell(i / w, i % w, rot, w);
            src.0 * w + src.1
        };
    if g.cells.len() > 0 {
        assert(w > 0) by {
            if g.is_square() && w == 0 {
                assert(w * w == 0);
            }
        }
        assert forall|i: int| 0 <= i < t.len() implies 0 <= #[trigger] p(i) < g.cells.len() by {
            lemma_cell_of_index(g, i);
            lemma_source_in_matrix(g, i / w, i % w, rot);
        }
        assert forall|i: int, j: int| 0 <= i < j < t.len() implies #[trigger] p(i)
            != #[trigger] p(j) by {
            lemma_cell_of_index(g, i);
            lemma_cell_of_index(g, j);
            lemma_source_in_matrix(g, i / w, i % w, rot);
            lemma_source_in_matrix(g, j / w, j % w, rot);
            let si = g.rot_type.source_cell(i / w, i % w, rot, w);
            let sj = g.rot_type.source_cell(j / w, j % w, rot, w);
            if p(i) == p(j) {
                lemma_index_of_cell(g, si.0, si.1);
                lemma_index_of_cell(g, sj.0, sj.1);
                assert(si == sj);
                if !g.rot_type.keeps_layout(rot) {
                    lemma_square_row_bound(g, i / w, i % w);
                    lemma_square_row_bound(g, j / w, j % w);
                    lemma_rotation_is_bijection(g.rot_type, rot, w);
                }
                assert(i / w == j / w && i % w == j % w);
            }
        }
        assert forall|i: int| 0 <= i < t.len() implies #[trigger] t[i] == g.cells[p(i)] by {}
        lemma_rearranged(g.cells, t, p);
    } else {
        assert(t =~= g.cells);
    }
}

/// Each piece of the built-in catalogs shows, under every rotation, the
/// cells it stores and no others.
pub proof fn lemma_catalog_rotation_keeps_cells(system: RotationSystem, i: int, rot: int)
    requires
        0 <= i < system.catalog().len(),
        valid_rotation(rot),
    ensures
        shown(system.catalog()[i], rot).to_multiset() == system.catalog()[i].cells.to_multiset(),
{
    lemma_catalogs_are_square(system, i);
    lemma_rotation_keeps_cells(system.catalog()[i], rot);
}

} // verus!
