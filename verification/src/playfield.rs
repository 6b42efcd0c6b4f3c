//! The playing grid: a fixed rectangle of cells with a wall down each side
//! and a floor along the bottom, and the operations that read and change it.

use vstd::prelude::*;
use vstd::arithmetic::div_mod::lemma_div_is_ordered;
use crate::error::EngineError;
use crate::grid::{
    is_full_row,
    is_touched_rows,
    lemma_emptied_shape,
    lemma_same_cells,
    lemma_shift_shape,
    touches_row,
    Grid,
    WALL,
};
use crate::shape::{lemma_cell_of_index, lemma_index_of_cell, valid_rotation, Geometry, Shape};

verus! {

/// The number of rows of the standard grid, floor included.
pub const ROWS: usize = 23;

/// The number of columns of the standard grid, both walls included.
pub const COLS: usize = 12;

/// The number of rows at the top that serve as a spawn buffer and are not
/// part of the visible play area.
pub const HIDDEN_ROWS: usize = 2;

/// The position of cell `(row, col)` in a row-major array `cols` wide.
spec fn flat_index(row: int, col: int, cols: int) -> int {
    row * cols + col
}

/// Two cells of a grid share a position in the array only if they are the
/// same cell.
proof fn lemma_flat_index(row: int, col: int, rows: int, cols: int)
    requires
        0 <= row < rows,
        0 <= col < cols,
    ensures
        0 <= flat_index(row, col, cols) < rows * cols,
        forall|r: int, c: int|
            0 <= r && 0 <= c < cols && (r != row || c != col) ==> #[trigger] flat_index(r, c, cols)
                != flat_index(row, col, cols),
{
    assert(0 <= row * cols + col < rows * cols) by (nonlinear_arith)
        requires
            0 <= row < rows,
            0 <= col < cols,
    ;
    assert forall|r: int, c: int| 0 <= r && 0 <= c < cols && (r != row || c != col) implies
        #[trigger] flat_index(r, c, cols) != flat_index(row, col, cols) by {
        assert(r * cols + c != row * cols + col) by (nonlinear_arith)
            requires
                0 <= r,
                0 <= row,
                0 <= c < cols,
                0 <= col < cols,
                r != row || c != col,
        ;
    }
}

/// The grid in which the filled cells of the piece with a row-major index
/// below `n` are written.
spec fn stamped(g: Grid, s: Geometry, row: int, col: int, rot: int, n: int) -> Grid {
    Grid {
        rows: Seq::new(
            g.rows.len(),
            |r: int|
                Seq::new(
                    g.rows[r].len(),
                    |c: int|
                        if s.occupied(r - row, c - col, rot) && flat_index(
                            r - row,
                            c - col,
                            s.width as int,
                        ) < n {
                            s.cell_at(r - row, c - col, rot)
                        } else {
                            g.cell(r, c)
                        },
                ),
        ),
    }
}

/// Whether the cell of the piece with row-major index `j` is filled and
/// lands where it may not: anywhere blocked if `solid`, else off the grid.
spec fn hit_at(g: Grid, s: Geometry, row: int, col: int, rot: int, j: int, solid: bool) -> bool {
    let sr = j / (s.width as int);
    let sc = j % (s.width as int);
    s.occupied(sr, sc, rot) && if solid {
        g.blocked(row + sr, col + sc)
    } else {
        !g.inside(row + sr, col + sc)
    }
}

proof fn lemma_no_hit(g: Grid, s: Geometry, row: int, col: int, rot: int, solid: bool)
    requires
        forall|j: int| 0 <= j < s.cells.len() ==> !hit_at(g, s, row, col, rot, j, solid),
    ensures
        solid ==> !g.collides(s, row, col, rot),
        !solid ==> !g.overhangs(s, row, col, rot),
{
    assert forall|sr: int, sc: int| #[trigger] s.occupied(sr, sc, rot) implies if solid {
        !g.blocked(row + sr, col + sc)
    } else {
        g.inside(row + sr, col + sc)
    } by {
        lemma_index_of_cell(s, sr, sc);
        let j = sr * s.width + sc;
        assert(!hit_at(g, s, row, col, rot, j, solid));
    }
}

/// Writing the cell with index `i` takes the grid stamped up to `i` to the
/// grid stamped up to `i + 1`.
proof fn lemma_stamp_step(g: Grid, s: Geometry, row: int, col: int, rot: int, i: int)
    requires
        g.wf(),
        s.width > 0,
        0 <= i < s.cells.len(),
        !g.overhangs(s, row, col, rot),
    ensures
        ({
            let sr = i / (s.width as int);
            let sc = i % (s.width as int);
            let now = stamped(g, s, row, col, rot, i);
            let next = stamped(g, s, row, col, rot, i + 1);
            &&& now.wf()
            &&& now.n_rows() == g.n_rows()
            &&& now.n_cols() == g.n_cols()
            &&& if s.occupied(sr, sc, rot) {
                g.inside(row + sr, col + sc) && now.put(row + sr, col + sc, s.cell_at(sr, sc, rot))
                    == next
            } else {
                now == next
            }
        }),
{
    let w = s.width as int;
    let sr = i / w;
    let sc = i % w;
    let now = stamped(g, s, row, col, rot, i);
    let next = stamped(g, s, row, col, rot, i + 1);
    lemma_cell_of_index(s, i);
    let target = if s.occupied(sr, sc, rot) {
        now.put(row + sr, col + sc, s.cell_at(sr, sc, rot))
    } else {
        now
    };
    assert forall|r: int, c: int| next.inside(r, c) implies #[trigger] target.cell(r, c)
        == next.cell(r, c) by {
        if s.has_cell(r - row, c - col) {
            lemma_index_of_cell(s, r - row, c - col);
        }
    }
    lemma_same_cells(target, next);
}

proof fn lemma_stamp_ends(g: Grid, s: Geometry, row: int, col: int, rot: int)
    requires
        g.wf(),
    ensures
        stamped(g, s, row, col, rot, 0) == g,
        stamped(g, s, row, col, rot, s.cells.len() as int) == g.with_piece(s, row, col, rot),
{
    let none = stamped(g, s, row, col, rot, 0);
    assert forall|r: int, c: int| none.inside(r, c) implies #[trigger] none.cell(r, c) == g.cell(
        r,
        c,
    ) by {
        if s.has_cell(r - row, c - col) {
            lemma_index_of_cell(s, r - row, c - col);
        }
    }
    lemma_same_cells(none, g);
    let all = stamped(g, s, row, col, rot, s.cells.len() as int);
    let whole = g.with_piece(s, row, col, rot);
    assert forall|r: int, c: int| all.inside(r, c) implies #[trigger] all.cell(r, c) == whole.cell(
        r,
        c,
    ) by {
        if s.has_cell(r - row, c - col) {
            lemma_index_of_cell(s, r - row, c - col);
        }
    }
    lemma_same_cells(all, whole);
}

/// The playing grid.
pub struct Playfield {
    cells: Vec<usize>,
    rows: usize,
    cols: usize,
}

impl View for Playfield {
    type V = Grid;

    closed spec fn view(&self) -> Grid {
        Grid {
            rows: Seq::new(
                self.rows as nat,
                |r: int|
                    Seq::new(
                        self.cols as nat,
                        |c: int| self.cells@[flat_index(r, c, self.cols as int)],
                    ),
            ),
        }
    }
}

impl Playfield {
    #[verifier::type_invariant]
    spec fn rectangular(self) -> bool {
        &&& self.rows >= 1
        &&& self.cols >= 2
        &&& self.cells@.len() == self.rows * self.cols
    }

    /// An empty grid of the given size, before its border is drawn.
    fn blank(rows: usize, cols: usize) -> (pf: Self)
        requires
            rows >= 1,
            cols >= 2,
            rows * cols <= usize::MAX,
        ensures
            pf@.wf(),
            pf@.n_rows() == rows,
            pf@.n_cols() == cols,
            forall|r: int, c: int| pf@.inside(r, c) ==> #[trigger] pf@.cell(r, c) == 0,
    {
        let n: usize = rows * cols;
        let mut cells: Vec<usize> = Vec::new();
        let mut i: usize = 0;
        while i < n
            invariant
                i <= n,
                cells@.len() == i,
                forall|k: int| 0 <= k < i ==> cells@[k] == 0,
            decreases n - i,
        {
            cells.push(0);
            i += 1;
        }
        let pf = Playfield { cells, rows, cols };
        proof {
            assert forall|r: int, c: int| pf@.inside(r, c) implies #[trigger] pf@.cell(r, c)
                == 0 by {
                lemma_flat_index(r, c, rows as int, cols as int);
            }
        }
        pf
    }

    /// A fresh grid of the given size.
    fn walled(rows: usize, cols: usize) -> (pf: Self)
        requires
            rows >= 1,
            cols >= 2,
            rows * cols <= usize::MAX,
        ensures
            pf@ == Grid::walled(rows as int, cols as int),
    {
        let mut pf = Self::blank(rows, cols);
        let mut row: usize = 0;
        while row < rows
            invariant
                row <= rows,
                cols >= 2,
                pf@.wf(),
                pf@.n_rows() == rows,
                pf@.n_cols() == cols,
                forall|r: int, c: int|
                    pf@.inside(r, c) ==> #[trigger] pf@.cell(r, c) == if r < row && (c == 0 || c
                        == cols - 1) {
                        WALL
                    } else {
                        0usize
                    },
            decreases rows - row,
        {
            pf.set_cell(row, 0, WALL);
            pf.set_cell(row, cols - 1, WALL);
            row += 1;
        }
        let mut col: usize = 0;
        while col < cols
            invariant
                col <= cols,
                rows >= 1,
                pf@.wf(),
                pf@.n_rows() == rows,
                pf@.n_cols() == cols,
                forall|r: int, c: int|
                    pf@.inside(r, c) ==> #[trigger] pf@.cell(r, c) == if c == 0 || c == cols - 1 || (r
                        == rows - 1 && c < col) {
                        WALL
                    } else {
                        0usize
                    },
            decreases cols - col,
        {
            pf.set_cell(rows - 1, col, WALL);
            col += 1;
        }
        proof {
            let fresh = Grid::walled(rows as int, cols as int);
            assert forall|r: int| 0 <= r < rows implies #[trigger] pf@.rows[r] =~= fresh.rows[r] by {
                assert forall|c: int| 0 <= c < cols implies pf@.rows[r][c] == fresh.rows[r][c] by {
                    assert(pf@.cell(r, c) == pf@.rows[r][c]);
                }
            }
        }
        pf
    }

    /// The standard grid: `ROWS` rows of `COLS` columns, with its walls and
    /// its floor, and every other cell empty.
    pub fn new() -> (pf: Self)
        ensures
            pf@ == Grid::walled(ROWS as int, COLS as int),
    {
        Self::walled(ROWS, COLS)
    }

    /// A fresh grid of another size, where that size leaves room for the
    /// border and can be held in memory.
    pub fn with_size(rows: usize, cols: usize) -> (made: Option<Self>)
        ensures
            made is Some <==> rows >= 1 && cols >= 2 && rows * cols <= usize::MAX,
            made matches Some(pf) ==> pf@ == Grid::walled(rows as int, cols as int),
    {
        if rows < 1 || cols < 2 {
            return None;
        }
        match rows.checked_mul(cols) {
            Some(_) => Some(Self::walled(rows, cols)),
            None => None,
        }
    }

    pub fn n_rows(&self) -> (n: usize)
        ensures
            n == self@.n_rows(),
            self@.wf(),
    {
        proof {
            use_type_invariant(self);
        }
        self.rows
    }

    pub fn n_cols(&self) -> (n: usize)
        ensures
            n == self@.n_cols(),
            self@.wf(),
    {
        proof {
            use_type_invariant(self);
        }
        self.cols
    }

    pub fn get_cell(&self, row: usize, col: usize) -> (v: usize)
        requires
            self@.inside(row as int, col as int),
        ensures
            self@.wf(),
            v == self@.cell(row as int, col as int),
    {
        proof {
            use_type_invariant(self);
        }
        let idx = self.cell_idx(row, col);
        self.cells[idx]
    }

    fn set_cell(&mut self, row: usize, col: usize, v: usize)
        requires
            old(self)@.inside(row as int, col as int),
        ensures
            final(self)@ == old(self)@.put(row as int, col as int, v),
            final(self)@.wf(),
            final(self)@.n_rows() == old(self)@.n_rows(),
            final(self)@.n_cols() == old(self)@.n_cols(),
            forall|r: int, c: int|
                old(self)@.inside(r, c) ==> #[trigger] final(self)@.cell(r, c) == if r == row && c
                    == col {
                    v
                } else {
                    old(self)@.cell(r, c)
                },
    {
        proof {
            use_type_invariant(&*self);
            lemma_flat_index(row as int, col as int, self.rows as int, self.cols as int);
        }
        let idx = self.cell_idx(row, col);
        self.cells[idx] = v;
        proof {
            let after = self@;
            let target = old(self)@.put(row as int, col as int, v);
            let cols = self.cols as int;
            assert forall|r: int| 0 <= r < self.rows implies #[trigger] after.rows[r]
                =~= target.rows[r] by {
                assert forall|c: int| 0 <= c < cols implies after.rows[r][c]
                    == target.rows[r][c] by {
                    lemma_flat_index(r, c, self.rows as int, cols);
                }
            }
        }
    }

    fn cell_idx(&self, row: usize, col: usize) -> (idx: usize)
        requires
            self@.inside(row as int, col as int),
        ensures
            idx == flat_index(row as int, col as int, self.cols as int),
            idx < self.cells@.len(),
    {
        proof {
            use_type_invariant(self);
            lemma_flat_index(row as int, col as int, self.rows as int, self.cols as int);
            assert(0 <= row * self.cols) by (nonlinear_arith)
                requires
                    0 <= row,
                    0 <= self.cols,
            ;
            assert(self.cells@.len() == self.cells.len());
        }
        (row * self.cols) + col
    }

    /// Whether piece `shape`, rotated by `r` quarter turns and with the top
    /// left corner of its box at `(row, col)`, would sit on a filled cell or
    /// reach off the grid. Cells that the piece shows empty are never looked
    /// at: they may lie anywhere.
    pub fn collides(&self, shape: &Shape, row: usize, col: isize, r: isize) -> (res: Result<
        bool,
        EngineError,
    >)
        requires
            valid_rotation(r as int) ==> shape@.placeable(r as int),
        ensures
            self@.wf(),
            match res {
                Ok(hit) => valid_rotation(r as int) && hit == self@.collides(
                    shape@,
                    row as int,
                    col as int,
                    r as int,
                ),
                Err(e) => !valid_rotation(r as int) && e == EngineError::InvalidRotation,
            },
    {
        proof {
            use_type_invariant(self);
        }
        self.scan(shape, row, col, r, true)
    }

    /// Walks the cells of the piece and says whether a filled one lands
    /// where it may not: on anything blocked if `solid`, else off the grid.
    fn scan(&self, shape: &Shape, row: usize, col: isize, r: isize, solid: bool) -> (res: Result<
        bool,
        EngineError,
    >)
        requires
            valid_rotation(r as int) ==> shape@.placeable(r as int),
        ensures
            match res {
                Ok(hit) => valid_rotation(r as int) && hit == if solid {
                    self@.collides(shape@, row as int, col as int, r as int)
                } else {
                    self@.overhangs(shape@, row as int, col as int, r as int)
                },
                Err(e) => !valid_rotation(r as int) && e == EngineError::InvalidRotation,
            },
    {
        if r < 0 || r > 3 {
            return Err(EngineError::InvalidRotation);
        }
        let n = shape.len();
        let n_rows = self.n_rows();
        let n_cols = self.n_cols();
        let mut i: usize = 0;
        while i < n
            invariant
                i <= n,
                n == shape@.cells.len(),
                valid_rotation(r as int),
                shape@.placeable(r as int),
                self@.wf(),
                n_rows == self@.n_rows(),
                n_cols == self@.n_cols(),
                forall|j: int|
                    0 <= j < i ==> !hit_at(self@, shape@, row as int, col as int, r as int, j, solid),
            decreases n - i,
        {
            proof {
                lemma_cell_of_index(shape@, i as int);
            }
            let shape_row = shape.row(i);
            let shape_col = shape.col(i);
            let v = match shape.rotate(shape_row, shape_col, r) {
                Ok(v) => v,
                Err(e) => {
                    return Err(e);
                },
            };
            if v != 0 {
                let off_rows = row >= n_rows || shape_row >= n_rows - row;
                let pf_col: i128 = col as i128 + shape_col as i128;
                if off_rows || pf_col < 0 || pf_col >= n_cols as i128 {
                    assert(shape@.occupied(shape_row as int, shape_col as int, r as int));
                    return Ok(true);
                }
                if solid && self.get_cell(row + shape_row, pf_col as usize) != 0 {
                    assert(shape@.occupied(shape_row as int, shape_col as int, r as int));
                    return Ok(true);
                }
            }
            i += 1;
        }
        proof {
            lemma_no_hit(self@, shape@, row as int, col as int, r as int, solid);
        }
        Ok(false)
    }

    /// Writes the filled cells of the piece into the grid, whatever is
    /// there, and says which rows were written to, in ascending order and
    /// each once. Whether the piece collides is not asked: that is for the
    /// caller to ask first. Only a piece with a filled cell off the grid is
    /// refused, and then nothing is written.
    pub fn add(&mut self, shape: &Shape, row: usize, col: isize, r: isize) -> (res: Result<
        Vec<usize>,
        EngineError,
    >)
        requires
            valid_rotation(r as int) ==> shape@.placeable(r as int),
        ensures
            old(self)@.wf(),
            final(self)@.wf(),
            match res {
                Ok(touched) => {
                    &&& valid_rotation(r as int)
                    &&& !old(self)@.overhangs(shape@, row as int, col as int, r as int)
                    &&& final(self)@ == old(self)@.with_piece(
                        shape@,
                        row as int,
                        col as int,
                        r as int,
                    )
                    &&& is_touched_rows(touched@, shape@, row as int, r as int)
                },
                Err(e) => {
                    &&& final(self)@ == old(self)@
                    &&& if valid_rotation(r as int) {
                        e == EngineError::PlacementViolatesInvariant && old(self)@.overhangs(
                            shape@,
                            row as int,
                            col as int,
                            r as int,
                        )
                    } else {
                        e == EngineError::InvalidRotation
                    }
                },
            },
    {
        proof {
            use_type_invariant(&*self);
        }
        match self.scan(shape, row, col, r, false) {
            Err(e) => {
                return Err(e);
            },
            Ok(true) => {
                return Err(EngineError::PlacementViolatesInvariant);
            },
            Ok(false) => {},
        }
        let ghost before = self@;
        let ghost s = shape@;
        let ghost w = shape@.width as int;
        let mut rows: Vec<usize> = Vec::new();
        let n = shape.len();
        let mut i: usize = 0;
        proof {
            lemma_stamp_ends(before, s, row as int, col as int, r as int);
        }
        while i < n
            invariant
                i <= n,
                n == s.cells.len(),
                s == shape@,
                w == s.width,
                valid_rotation(r as int),
                s.placeable(r as int),
                before.wf(),
                !before.overhangs(s, row as int, col as int, r as int),
                self@ == stamped(before, s, row as int, col as int, r as int, i as int),
                forall|a: int, b: int| 0 <= a < b < rows@.len() ==> rows@[a] < rows@[b],
                forall|k: int|
                    0 <= k < rows@.len() ==> touches_row(s, r as int, (#[trigger] rows@[k]) - row),
                i < n ==> forall|k: int| 0 <= k < rows@.len() ==> (#[trigger] rows@[k]) - row <= (i as int) / w,
                forall|j: int|
                    0 <= j < i && #[trigger] s.occupied_at(j, r as int) ==> rows@.contains(
                        (row + j / w) as usize,
                    ),
            decreases n - i,
        {
            proof {
                lemma_cell_of_index(s, i as int);
                lemma_stamp_step(before, s, row as int, col as int, r as int, i as int);
            }
            let shape_row = shape.row(i);
            let shape_col = shape.col(i);
            let v = match shape.rotate(shape_row, shape_col, r) {
                Ok(v) => v,
                Err(e) => {
                    return Err(e);
                },
            };
            let ghost earlier = rows@;
            if v > 0 {
                let pf_row: usize = row + shape_row;
                let pf_col: usize = (col as i128 + shape_col as i128) as usize;
                self.set_cell(pf_row, pf_col, v);
                if rows.len() == 0 || rows[rows.len() - 1] != pf_row {
                    rows.push(pf_row);
                }
            }
            proof {
                assert forall|j: int|
                    0 <= j < i + 1 && #[trigger] s.occupied_at(j, r as int) implies rows@.contains(
                    (row + j / w) as usize,
                ) by {
                    if j < i {
                        let x = (row + j / w) as usize;
                        let k = choose|k: int| 0 <= k < earlier.len() && earlier[k] == x;
                        assert(rows@[k] == x);
                    } else {
                        assert(rows@[rows@.len() - 1] == (row + j / w) as usize);
                    }
                }
                if i + 1 < n {
                    lemma_div_is_ordered(i as int, i + 1, w);
                }
            }
            i += 1;
        }
        proof {
            lemma_stamp_ends(before, s, row as int, col as int, r as int);
            assert forall|sr: int| #[trigger] touches_row(s, r as int, sr) implies row + sr >= 0
                && rows@.contains((row + sr) as usize) by {
                let sc = choose|sc: int| s.occupied(sr, sc, r as int);
                lemma_index_of_cell(s, sr, sc);
                assert(s.occupied_at(sr * w + sc, r as int));
            }
        }
        Ok(rows)
    }

    /// Which of the given rows are full, in the order given. A row is full
    /// when every cell between its walls is filled; the walls themselves are
    /// not looked at.
    pub fn check_rows(&self, rows: &Vec<usize>) -> (full: Vec<usize>)
        requires
            forall|i: int| 0 <= i < rows@.len() ==> rows@[i] < self@.n_rows(),
        ensures
            self@.wf(),
            full@ == rows@.filter(is_full_row(self@)),
    {
        proof {
            use_type_invariant(self);
        }
        let mut cleared_rows: Vec<usize> = Vec::new();
        let mut i: usize = 0;
        proof {
            reveal(Seq::filter);
        }
        while i < rows.len()
            invariant
                i <= rows@.len(),
                forall|k: int| 0 <= k < rows@.len() ==> rows@[k] < self@.n_rows(),
                cleared_rows@ == rows@.take(i as int).filter(is_full_row(self@)),
            decreases rows@.len() - i,
        {
            let row = rows[i];
            let full_row = self.is_full(row);
            proof {
                reveal(Seq::filter);
                let upto = rows@.take(i + 1);
                assert(upto.drop_last() =~= rows@.take(i as int));
            }
            if full_row {
                cleared_rows.push(row);
            }
            i += 1;
        }
        proof {
            assert(rows@.take(rows@.len() as int) =~= rows@);
        }
        cleared_rows
    }

    /// Whether every cell between the walls of `row` is filled.
    fn is_full(&self, row: usize) -> (b: bool)
        requires
            row < self@.n_rows(),
        ensures
            b == self@.row_full(row as int),
    {
        let n_cols = self.n_cols();
        let mut col: usize = 1;
        while col < n_cols - 1
            invariant
                1 <= col,
                n_cols == self@.n_cols(),
                n_cols >= 2,
                row < self@.n_rows(),
                forall|c: int| 1 <= c < col && c < n_cols - 1 ==> #[trigger] self@.cell(row as int, c) != 0,
            decreases n_cols - col,
        {
            if self.get_cell(row, col) == 0 {
                return false;
            }
            col += 1;
        }
        true
    }

    /// Whether no cell between the walls of `row` is filled.
    pub fn is_empty(&self, row: usize) -> (b: bool)
        requires
            row < self@.n_rows(),
        ensures
            self@.wf(),
            b == self@.row_empty(row as int),
    {
        let n_cols = self.n_cols();
        let mut col: usize = 1;
        while col < n_cols - 1
            invariant
                1 <= col,
                n_cols == self@.n_cols(),
                n_cols >= 2,
                row < self@.n_rows(),
                forall|c: int| 1 <= c < col && c < n_cols - 1 ==> #[trigger] self@.cell(row as int, c) == 0,
            decreases n_cols - col,
        {
            if self.get_cell(row, col) > 0 {
                return false;
            }
            col += 1;
        }
        true
    }

    /// Clears the given rows, one after the other in the order given, which
    /// is meant to be ascending. Clearing a row moves the rows above it one
    /// row down, from the row just above up to the nearest empty row, whose
    /// emptiness comes down with them. Where no row above is empty, every
    /// row from the top one on moves, and the top row is left empty. The
    /// walls are not moved.
    pub fn clear_rows(&mut self, rows: &Vec<usize>)
        requires
            forall|i: int| 0 <= i < rows@.len() ==> rows@[i] < old(self)@.n_rows(),
        ensures
            old(self)@.wf(),
            final(self)@.wf(),
            final(self)@ == old(self)@.clear_all(rows@),
    {
        let ghost before = self@;
        let n_rows = self.n_rows();
        let mut k: usize = 0;
        while k < rows.len()
            invariant
                k <= rows@.len(),
                self@.wf(),
                n_rows == self@.n_rows(),
                forall|i: int| 0 <= i < rows@.len() ==> rows@[i] < n_rows,
                self@ == before.clear_all(rows@.take(k as int)),
            decreases rows@.len() - k,
        {
            let cleared_row = rows[k];
            let ghost start = self@;
            let ghost anchor = start.anchor(cleared_row as int);
            let mut r: usize = cleared_row;
            let mut met_empty_row = false;
            proof {
                lemma_shift_nothing(start, cleared_row as int);
            }
            while r > 0
                invariant_except_break
                    !met_empty_row,
                    self@ == start.shifted(r as int, cleared_row as int),
                    anchor == start.anchor(r as int),
                invariant
                    r <= cleared_row,
                    cleared_row < n_rows,
                    start.wf(),
                    n_rows == start.n_rows(),
                    anchor == start.anchor(cleared_row as int),
                ensures
                    met_empty_row ==> start.row_empty(anchor) && self@ == start.shifted(
                        anchor,
                        cleared_row as int,
                    ),
                    !met_empty_row ==> anchor == 0 && self@ == start.shifted(0, cleared_row as int),
                decreases r,
            {
                r -= 1;
                proof {
                    lemma_shift_grows(start, r as int, cleared_row as int);
                    lemma_shift_keeps_row(start, r as int, cleared_row as int);
                }
                self.lower_row(r);
                if self.is_empty(r) {
                    met_empty_row = true;
                    break ;
                }
            }
            if !met_empty_row {
                proof {
                    lemma_shift_keeps_row(start, 0, cleared_row as int);
                    lemma_emptied_keeps_empty_row(start.shifted(0, cleared_row as int), 0);
                }
                self.empty_row(0);
            }
            proof {
                let upto = rows@.take(k + 1);
                assert(upto.drop_last() =~= rows@.take(k as int));
            }
            k += 1;
        }
        proof {
            assert(rows@.take(rows@.len() as int) =~= rows@);
        }
    }

    /// Writes 0 into every cell between the walls of `row`.
    fn empty_row(&mut self, row: usize)
        requires
            row < old(self)@.n_rows(),
        ensures
            final(self)@ == old(self)@.emptied(row as int),
    {
        let ghost before = self@;
        let n_cols = self.n_cols();
        let n_rows = self.n_rows();
        let mut col: usize = 1;
        while col < n_cols - 1
            invariant
                1 <= col,
                n_cols >= 2,
                before.wf(),
                self@.wf(),
                n_cols == before.n_cols(),
                n_rows == before.n_rows(),
                self@.n_rows() == n_rows,
                self@.n_cols() == n_cols,
                row < n_rows,
                forall|r: int, c: int|
                    before.inside(r, c) ==> #[trigger] self@.cell(r, c) == if r == row && 1 <= c < col
                        && c < n_cols - 1 {
                        0usize
                    } else {
                        before.cell(r, c)
                    },
            decreases n_cols - col,
        {
            self.set_cell(row, col, 0);
            col += 1;
        }
        proof {
            lemma_emptied_shape(before, row as int);
            lemma_same_cells(self@, before.emptied(row as int));
        }
    }

    /// Copies what lies between the walls of `row` into the row below it.
    fn lower_row(&mut self, row: usize)
        requires
            row + 1 < old(self)@.n_rows(),
        ensures
            final(self)@ == old(self)@.shifted(row as int, row + 1),
    {
        let ghost before = self@;
        let n_cols = self.n_cols();
        let n_rows = self.n_rows();
        let mut col: usize = 1;
        while col < n_cols - 1
            invariant
                1 <= col,
                n_cols >= 2,
                before.wf(),
                self@.wf(),
                n_cols == before.n_cols(),
                n_rows == before.n_rows(),
                self@.n_rows() == n_rows,
                self@.n_cols() == n_cols,
                row + 1 < n_rows,
                forall|r: int, c: int|
                    before.inside(r, c) ==> #[trigger] self@.cell(r, c) == if r == row + 1 && 1 <= c
                        < col && c < n_cols - 1 {
                        before.cell(row as int, c)
                    } else {
                        before.cell(r, c)
                    },
            decreases n_cols - col,
        {
            let v = self.get_cell(row, col);
            self.set_cell(row + 1, col, v);
            col += 1;
        }
        proof {
            lemma_shift_shape(before, row as int, row + 1);
            lemma_same_cells(self@, before.shifted(row as int, row + 1));
        }
    }
}

/// Emptying a row that is empty leaves the grid as it is.
proof fn lemma_emptied_keeps_empty_row(g: Grid, row: int)
    requires
        g.wf(),
        0 <= row < g.n_rows(),
    ensures
        g.row_empty(row) ==> g.emptied(row) == g,
{
    if g.row_empty(row) {
        lemma_emptied_shape(g, row);
        assert forall|r: int, c: int| g.inside(r, c) implies #[trigger] g.emptied(row).cell(r, c)
            == g.cell(r, c) by {
            if r == row && g.interior(c) {
                assert(g.cell(row, c) == 0);
            }
        }
        lemma_same_cells(g.emptied(row), g);
    }
}

/// Moving no row leaves the grid as it is.
proof fn lemma_shift_nothing(g: Grid, row: int)
    requires
        g.wf(),
    ensures
        g.shifted(row, row) == g,
{
    lemma_shift_shape(g, row, row);
    lemma_same_cells(g.shifted(row, row), g);
}

/// Moving one more row, the one above those that already moved, is a shift
/// that begins one row higher.
proof fn lemma_shift_grows(g: Grid, from: int, to: int)
    requires
        g.wf(),
        0 <= from < to < g.n_rows(),
    ensures
        g.shifted(from + 1, to).shifted(from, from + 1) == g.shifted(from, to),
{
    let partly = g.shifted(from + 1, to);
    lemma_shift_shape(g, from + 1, to);
    lemma_shift_shape(g, from, to);
    lemma_shift_shape(partly, from, from + 1);
    lemma_same_cells(partly.shifted(from, from + 1), g.shifted(from, to));
}

/// A shift leaves the row it begins above as it was.
proof fn lemma_shift_keeps_row(g: Grid, from: int, to: int)
    requires
        g.wf(),
        0 <= from < g.n_rows(),
    ensures
        g.shifted(from, to).row_empty(from) == g.row_empty(from),
{
    lemma_shift_shape(g, from, to);
    let moved = g.shifted(from, to);
    if g.row_empty(from) {
        assert forall|c: int| moved.interior(c) implies #[trigger] moved.cell(from, c) == 0 by {}
    }
    if moved.row_empty(from) {
        assert forall|c: int| g.interior(c) implies #[trigger] g.cell(from, c) == 0 by {
            assert(moved.cell(from, c) == 0);
        }
    }
}

} // verus!
