//! The mathematical model of the playing grid, over which the contracts of
//! the engine are stated.
//!
//! A cell holds 0 when it is empty, `WALL` where it belongs to the border,
//! and any other value where a piece was locked. The rules only ever ask
//! whether a cell is empty.

use vstd::prelude::*;
use crate::shape::Geometry;

verus! {

/// The value of a border cell.
pub const WALL: usize = 99;

/// What a cell value stands for.
#[derive(Debug, Clone, Copy, PartialEq, Eq, Structural)]
pub enum CellKind {
    /// Nothing is there.
    Empty,
    /// A cell of the border.
    Wall,
    /// A cell of a locked piece.
    Block,
}

/// What the value `v` stands for.
pub open spec fn kind_of(v: usize) -> CellKind {
    if v == 0 {
        CellKind::Empty
    } else if v == WALL {
        CellKind::Wall
    } else {
        CellKind::Block
    }
}

/// What the value of a cell stands for.
pub fn cell_kind(v: usize) -> (kind: CellKind)
    ensures
        kind == kind_of(v),
{
    if v == 0 {
        CellKind::Empty
    } else if v == WALL {
        CellKind::Wall
    } else {
        CellKind::Block
    }
}

/// The mathematical content of a playing grid: its rows, top to bottom, each
/// a sequence of cell values, left to right.
#[verifier::ext_equal]
pub struct Grid {
    pub rows: Seq<Seq<usize>>,
}

impl Grid {
    pub open spec fn n_rows(self) -> int {
        self.rows.len() as int
    }

    pub open spec fn n_cols(self) -> int {
        if self.rows.len() > 0 {
            self.rows[0].len() as int
        } else {
            0
        }
    }

    /// A grid is a rectangle with room for a floor and two walls.
    pub open spec fn wf(self) -> bool {
        &&& self.n_rows() >= 1
        &&& self.n_cols() >= 2
        &&& forall|r: int| 0 <= r < self.n_rows() ==> (#[trigger] self.rows[r]).len() == self.n_cols()
    }

    /// Whether `(row, col)` names a cell of the grid.
    pub open spec fn inside(self, row: int, col: int) -> bool {
        0 <= row < self.n_rows() && 0 <= col < self.n_cols()
    }

    pub open spec fn cell(self, row: int, col: int) -> usize {
        self.rows[row][col]
    }

    /// Whether `col` lies strictly between the two walls.
    pub open spec fn interior(self, col: int) -> bool {
        1 <= col < self.n_cols() - 1
    }

    /// Whether no cell between the walls of `row` is filled.
    pub open spec fn row_empty(self, row: int) -> bool {
        forall|c: int| self.interior(c) ==> #[trigger] self.cell(row, c) == 0
    }

    /// Whether every cell between the walls of `row` is filled.
    pub open spec fn row_full(self, row: int) -> bool {
        forall|c: int| self.interior(c) ==> #[trigger] self.cell(row, c) != 0
    }

    /// The fresh grid of the given size: walls and floor, and nothing else.
    pub open spec fn walled(rows: int, cols: int) -> Grid {
        Grid {
            rows: Seq::new(
                rows as nat,
                |r: int|
                    Seq::new(
                        cols as nat,
                        |c: int|
                            if c == 0 || c == cols - 1 || r == rows - 1 {
                                WALL
                            } else {
                                0usize
                            },
                    ),
            ),
        }
    }

    /// Whether both walls and the floor stand.
    pub open spec fn has_borders(self) -> bool {
        forall|r: int, c: int|
            self.inside(r, c) && (c == 0 || c == self.n_cols() - 1 || r == self.n_rows() - 1)
                ==> #[trigger] self.cell(r, c) == WALL
    }

    /// The grid with the value of one cell replaced.
    pub open spec fn put(self, row: int, col: int, v: usize) -> Grid {
        Grid { rows: self.rows.update(row, self.rows[row].update(col, v)) }
    }

    /// Whether a filled cell of a piece may not go to `(row, col)`: the
    /// position is off the grid, or the cell there is not empty.
    pub open spec fn blocked(self, row: int, col: int) -> bool {
        !self.inside(row, col) || self.cell(row, col) != 0
    }

    /// Whether piece `s`, shown under rotation `rot` with the top left corner
    /// of its box at `(row, col)`, has a filled cell where it may not go.
    pub open spec fn collides(self, s: Geometry, row: int, col: int, rot: int) -> bool {
        exists|sr: int, sc: int| #[trigger]
            s.occupied(sr, sc, rot) && self.blocked(row + sr, col + sc)
    }

    /// Whether the piece has a filled cell off the grid.
    pub open spec fn overhangs(self, s: Geometry, row: int, col: int, rot: int) -> bool {
        exists|sr: int, sc: int| #[trigger]
            s.occupied(sr, sc, rot) && !self.inside(row + sr, col + sc)
    }

    /// The grid after the filled cells of the piece were written into it.
    /// Cells that the piece shows empty are left as they are.
    pub open spec fn with_piece(self, s: Geometry, row: int, col: int, rot: int) -> Grid {
        Grid {
            rows: Seq::new(
                self.rows.len(),
                |r: int|
                    Seq::new(
                        self.rows[r].len(),
                        |c: int|
                            if s.occupied(r - row, c - col, rot) {
                                s.cell_at(r - row, c - col, rot)
                            } else {
                                self.cell(r, c)
                            },
                    ),
            ),
        }
    }

    /// The grid after the part between the walls of each row above `from`,
    /// down to row `to - 1`, moved one row down. The walls stay.
    pub open spec fn shifted(self, from: int, to: int) -> Grid {
        Grid {
            rows: Seq::new(
                self.rows.len(),
                |r: int|
                    Seq::new(
                        self.rows[r].len(),
                        |c: int|
                            if from < r <= to && self.interior(c) {
                                self.cell(r - 1, c)
                            } else {
                                self.cell(r, c)
                            },
                    ),
            ),
        }
    }

    /// The grid with nothing left between the walls of `row`.
    pub open spec fn emptied(self, row: int) -> Grid {
        Grid {
            rows: Seq::new(
                self.rows.len(),
                |r: int|
                    Seq::new(
                        self.rows[r].len(),
                        |c: int|
                            if r == row && self.interior(c) {
                                0usize
                            } else {
                                self.cell(r, c)
                            },
                    ),
            ),
        }
    }

    /// Where the rows that move down when `row` is cleared begin: the
    /// nearest empty row above `row`, or row 0 where none is empty.
    pub open spec fn anchor(self, row: int) -> int
        decreases row,
    {
        if row <= 0 {
            0
        } else if self.row_empty(row - 1) {
            row - 1
        } else {
            self.anchor(row - 1)
        }
    }

    /// The grid after `row` was cleared: the rows from the anchor down to
    /// `row - 1` each moved one row down. Where the anchor is an empty row,
    /// its emptiness has come down with them. Where no row above was empty,
    /// everything from row 0 on has moved, and row 0, which nothing has
    /// moved into, is left empty.
    pub open spec fn clear_one(self, row: int) -> Grid {
        if self.row_empty(self.anchor(row)) {
            self.shifted(self.anchor(row), row)
        } else {
            self.shifted(0, row).emptied(0)
        }
    }

    /// The grid after the rows of `rows` were cleared one after the other,
    /// in the order of the sequence.
    pub open spec fn clear_all(self, rows: Seq<usize>) -> Grid
        decreases rows.len(),
    {
        if rows.len() == 0 {
            self
        } else {
            self.clear_all(rows.drop_last()).clear_one(rows.last() as int)
        }
    }
}

/// The test that `check_rows` applies to each candidate row.
pub open spec fn is_full_row(g: Grid) -> spec_fn(usize) -> bool {
    |row: usize| g.row_full(row as int)
}

/// Whether row `sr` of the box of piece `s` shows a filled cell under `rot`.
pub open spec fn touches_row(s: Geometry, rot: int, sr: int) -> bool {
    exists|sc: int| #[trigger] s.occupied(sr, sc, rot)
}

/// Whether `rows` lists, in ascending order and each once, the grid rows
/// that piece `s` writes to when the top of its box is at `row`.
pub open spec fn is_touched_rows(rows: Seq<usize>, s: Geometry, row: int, rot: int) -> bool {
    &&& forall|a: int, b: int| 0 <= a < b < rows.len() ==> rows[a] < rows[b]
    &&& forall|k: int| 0 <= k < rows.len() ==> touches_row(s, rot, (#[trigger] rows[k]) - row)
    &&& forall|sr: int| #[trigger]
        touches_row(s, rot, sr) ==> row + sr >= 0 && rows.contains((row + sr) as usize)
}

/// Two grids of one size that agree cell by cell are the same grid.
pub proof fn lemma_same_cells(a: Grid, b: Grid)
    requires
        a.wf(),
        b.wf(),
        a.n_rows() == b.n_rows(),
        a.n_cols() == b.n_cols(),
        forall|r: int, c: int| a.inside(r, c) ==> #[trigger] a.cell(r, c) == b.cell(r, c),
    ensures
        a == b,
{
    assert forall|r: int| 0 <= r < a.n_rows() implies #[trigger] a.rows[r] =~= b.rows[r] by {
        assert forall|c: int| 0 <= c < a.n_cols() implies a.rows[r][c] == b.rows[r][c] by {
            assert(a.cell(r, c) == b.cell(r, c));
        }
    }
}

/// What emptying a row does: the size stays, and so does every cell but
/// those between the walls of that row, which hold nothing.
pub proof fn lemma_emptied_shape(g: Grid, row: int)
    requires
        g.wf(),
    ensures
        g.emptied(row).wf(),
        g.emptied(row).n_rows() == g.n_rows(),
        g.emptied(row).n_cols() == g.n_cols(),
        forall|r: int, c: int|
            g.inside(r, c) ==> #[trigger] g.emptied(row).cell(r, c) == if r == row && g.interior(c) {
                0usize
            } else {
                g.cell(r, c)
            },
{
}

/// The anchor of a row lies above it, no row between the two is empty, and
/// the anchor is empty itself wherever some row above is.
pub proof fn lemma_anchor(g: Grid, row: int)
    requires
        0 <= row,
    ensures
        0 <= g.anchor(row) <= row,
        row > 0 ==> g.anchor(row) < row,
        forall|r: int| g.anchor(row) < r < row ==> !#[trigger] g.row_empty(r),
        forall|r: int| 0 <= r < row && #[trigger] g.row_empty(r) ==> g.row_empty(g.anchor(row)),
        g.anchor(row) > 0 ==> g.row_empty(g.anchor(row)),
    decreases row,
{
    if row > 0 && !g.row_empty(row - 1) {
        lemma_anchor(g, row - 1);
    }
}

/// What clearing a row does, cell by cell: the size stays; between the
/// walls, each row from just below the anchor down to the cleared one holds
/// what the row above it held; where no row above the cleared one was empty,
/// row 0 holds nothing; every other cell is as it was.
pub proof fn lemma_clear_one_shape(g: Grid, row: int)
    requires
        g.wf(),
        0 <= row < g.n_rows(),
    ensures
        g.clear_one(row).wf(),
        g.clear_one(row).n_rows() == g.n_rows(),
        g.clear_one(row).n_cols() == g.n_cols(),
        !g.row_empty(g.anchor(row)) ==> g.anchor(row) == 0,
        forall|r: int, c: int|
            g.inside(r, c) ==> #[trigger] g.clear_one(row).cell(r, c) == if g.anchor(row) < r <= row
                && g.interior(c) {
                g.cell(r - 1, c)
            } else if r == 0 && g.interior(c) && !g.row_empty(g.anchor(row)) {
                0usize
            } else {
                g.cell(r, c)
            },
{
    lemma_anchor(g, row);
    lemma_shift_shape(g, g.anchor(row), row);
    lemma_shift_shape(g, 0, row);
    lemma_emptied_shape(g.shifted(0, row), 0);
}

/// What a shift does: the size stays, and so does every cell but those
/// between the walls of the rows that receive the row above.
pub proof fn lemma_shift_shape(g: Grid, from: int, to: int)
    requires
        g.wf(),
    ensures
        g.shifted(from, to).wf(),
        g.shifted(from, to).n_rows() == g.n_rows(),
        g.shifted(from, to).n_cols() == g.n_cols(),
        forall|r: int, c: int|
            g.inside(r, c) ==> #[trigger] g.shifted(from, to).cell(r, c) == if from < r <= to
                && g.interior(c) {
                g.cell(r - 1, c)
            } else {
                g.cell(r, c)
            },
{
}

} // verus!
