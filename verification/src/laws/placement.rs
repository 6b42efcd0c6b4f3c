//! Collision and placement: a piece collides exactly where it lacks room,
//! and a piece placed where it does not collide changes nothing but the
//! empty cells it fills.

use vstd::prelude::*;
use crate::grid::{is_touched_rows, touches_row, Grid};
use crate::shape::Geometry;

verus! {

/// Whether every filled cell of the piece has an empty cell of the grid to
/// go to, between the edges and above the floor row.
pub open spec fn has_room(g: Grid, s: Geometry, row: int, col: int, rot: int) -> bool {
    forall|sr: int, sc: int| #[trigger]
        s.occupied(sr, sc, rot) ==> {
            &&& 0 <= col + sc < g.n_cols()
            &&& 0 <= row + sr < g.n_rows() - 1
            &&& g.cell(row + sr, col + sc) == 0
        }
}

/// On a grid whose border stands, a piece is free of collision exactly
/// where each of its filled cells has room.
pub proof fn lemma_collides_unless_room(g: Grid, s: Geometry, row: int, col: int, rot: int)
    requires
        g.wf(),
        g.has_borders(),
    ensures
        !g.collides(s, row, col, rot) <==> has_room(g, s, row, col, rot),
{
    if !g.collides(s, row, col, rot) {
        assert forall|sr: int, sc: int| #[trigger] s.occupied(sr, sc, rot) implies {
            &&& 0 <= col + sc < g.n_cols()
            &&& 0 <= row + sr < g.n_rows() - 1
            &&& g.cell(row + sr, col + sc) == 0
        } by {
            assert(!g.blocked(row + sr, col + sc));
            if row + sr == g.n_rows() - 1 {
                assert(g.cell(row + sr, col + sc) == crate::grid::WALL);
            }
        }
    }
}

/// What placing a piece does where it does not collide: the piece lies
/// wholly on the grid; each cell it fills was empty and now holds the value
/// the piece shows there; every other cell is as it was; and a border that
/// stood still stands.
pub proof fn lemma_place_where_free(g: Grid, s: Geometry, row: int, col: int, rot: int)
    requires
        g.wf(),
        !g.collides(s, row, col, rot),
    ensures
        !g.overhangs(s, row, col, rot),
        g.with_piece(s, row, col, rot).wf(),
        g.with_piece(s, row, col, rot).n_rows() == g.n_rows(),
        g.with_piece(s, row, col, rot).n_cols() == g.n_cols(),
        forall|r: int, c: int|
            g.inside(r, c) ==> #[trigger] g.with_piece(s, row, col, rot).cell(r, c) == if s.occupied(
                r - row,
                c - col,
                rot,
            ) {
                s.cell_at(r - row, c - col, rot)
            } else {
                g.cell(r, c)
            },
        forall|sr: int, sc: int| #[trigger]
            s.occupied(sr, sc, rot) ==> {
                &&& g.inside(row + sr, col + sc)
                &&& g.cell(row + sr, col + sc) == 0
                &&& g.with_piece(s, row, col, rot).cell(row + sr, col + sc) == s.cell_at(sr, sc, rot)
                &&& g.with_piece(s, row, col, rot).cell(row + sr, col + sc) != 0
            },
        g.has_borders() ==> g.with_piece(s, row, col, rot).has_borders(),
{
    let after = g.with_piece(s, row, col, rot);
    assert forall|sr: int, sc: int| #[trigger] s.occupied(sr, sc, rot) implies g.inside(
        row + sr,
        col + sc,
    ) by {
        assert(!g.blocked(row + sr, col + sc));
    }
    assert forall|sr: int, sc: int| #[trigger] s.occupied(sr, sc, rot) implies {
        &&& g.inside(row + sr, col + sc)
        &&& g.cell(row + sr, col + sc) == 0
        &&& after.cell(row + sr, col + sc) == s.cell_at(sr, sc, rot)
        &&& after.cell(row + sr, col + sc) != 0
    } by {
        assert(!g.blocked(row + sr, col + sc));
        assert(s.occupied((row + sr) - row, (col + sc) - col, rot));
    }
    if g.has_borders() {
        assert forall|r: int, c: int|
            after.inside(r, c) && (c == 0 || c == after.n_cols() - 1 || r == after.n_rows()
                - 1) implies #[trigger] after.cell(r, c) == crate::grid::WALL by {
            assert(g.cell(r, c) == crate::grid::WALL);
            if s.occupied(r - row, c - col, rot) {
                assert(!g.blocked(row + (r - row), col + (c - col)));
            }
        }
    }
}

/// Two lists that hold the same rows, each in ascending order and each row
/// once, are the same list.
pub proof fn lemma_ascending_lists_agree(a: Seq<usize>, b: Seq<usize>)
    requires
        forall|i: int, j: int| 0 <= i < j < a.len() ==> a[i] < a[j],
        forall|i: int, j: int| 0 <= i < j < b.len() ==> b[i] < b[j],
        forall|i: int| 0 <= i < a.len() ==> b.contains(#[trigger] a[i]),
        forall|i: int| 0 <= i < b.len() ==> a.contains(#[trigger] b[i]),
    ensures
        a == b,
    decreases a.len(),
{
    if a.len() == 0 {
        if b.len() > 0 {
            assert(a.contains(b[0]));
        }
        assert(a =~= b);
    } else {
        assert(b.contains(a[a.len() - 1]));
        assert(b.len() > 0);
        let la = a[a.len() - 1];
        let lb = b[b.len() - 1];
        assert(la == lb) by {
            let j = choose|j: int| 0 <= j < b.len() && b[j] == la;
            assert(a.contains(lb));
            let i = choose|i: int| 0 <= i < a.len() && a[i] == lb;
        }
        let a1 = a.drop_last();
        let b1 = b.drop_last();
        assert forall|i: int| 0 <= i < a1.len() implies b1.contains(#[trigger] a1[i]) by {
            assert(a1[i] == a[i]);
            assert(b.contains(a[i]));
            let j = choose|j: int| 0 <= j < b.len() && b[j] == a[i];
            assert(j < b.len() - 1);
            assert(b1[j] == a1[i]);
        }
        assert forall|i: int| 0 <= i < b1.len() implies a1.contains(#[trigger] b1[i]) by {
            assert(b1[i] == b[i]);
            assert(a.contains(b[i]));
            let j = choose|j: int| 0 <= j < a.len() && a[j] == b[i];
            assert(j < a.len() - 1);
            assert(a1[j] == b1[i]);
        }
        lemma_ascending_lists_agree(a1, b1);
        assert(a =~= a1.push(la));
        assert(b =~= b1.push(lb));
    }
}

/// There is one list of the rows that a piece writes to: what `add` hands
/// back is determined by the piece, its row and its rotation.
pub proof fn lemma_touched_rows_unique(a: Seq<usize>, b: Seq<usize>, s: Geometry, row: int, rot: int)
    requires
        is_touched_rows(a, s, row, rot),
        is_touched_rows(b, s, row, rot),
    ensures
        a == b,
{
    assert forall|i: int| 0 <= i < a.len() implies b.contains(#[trigger] a[i]) by {
        assert(touches_row(s, rot, a[i] - row));
    }
    assert forall|i: int| 0 <= i < b.len() implies a.contains(#[trigger] b[i]) by {
        assert(touches_row(s, rot, b[i] - row));
    }
    lemma_ascending_lists_agree(a, b);
}

} // verus!
