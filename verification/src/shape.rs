//! Piece geometry: the cell matrix of a piece and what it shows under each
//! rotation.
//!
//! A piece is stored once, unrotated, as a row-major matrix inside a bounding
//! box `width` cells wide. Rotation is computed: asking for the cell shown at
//! `(row, col)` under rotation `rot` looks up the stored cell that the
//! rotation brings there.

use vstd::prelude::*;
use vstd::arithmetic::div_mod::{
    lemma_fundamental_div_mod,
    lemma_fundamental_div_mod_converse_div,
    lemma_fundamental_div_mod_converse_mod,
    lemma_mod_bound,
};
use macroquad::color::Color;
use crate::error::EngineError;
use crate::palette::{blue, green, orange, pink, purple, red, yellow};
use crate::rsg::{RSG, TSR};

verus! {

/// How a piece answers to a rotation index.
#[derive(Debug, Clone, Copy, PartialEq, Eq, Structural)]
pub enum RotationType {
    /// Four distinct states, each a true quarter turn of the one before.
    SRS,
    /// Two distinct states: indices 0 and 2 show the stored matrix, indices
    /// 1 and 3 both show it turned three quarter turns.
    NES,
    /// One state: the stored matrix, whatever the index.
    STILL,
}

/// The rotation indices the engine accepts.
pub open spec fn valid_rotation(rot: int) -> bool {
    0 <= rot < 4
}

/// A rule that says where, in the stored matrix, the cell shown at a queried
/// position comes from.
pub trait Rotation {
    /// The stored position whose value is shown at `(row, col)` under `rot`,
    /// in a bounding box `width` wide.
    spec fn source_cell(&self, row: int, col: int, rot: int, width: int) -> (int, int);

    /// The queries that `rotate_cell` answers for a valid `rot`.
    spec fn turn_defined(&self, row: int, col: int, rot: int, width: int) -> bool;

    fn rotate_cell(&self, row: usize, col: usize, rot: isize, width: usize) -> (r: Result<
        (usize, usize),
        EngineError,
    >)
        requires
            valid_rotation(rot as int) ==> self.turn_defined(
                row as int,
                col as int,
                rot as int,
                width as int,
            ),
        ensures
            match r {
                Ok(p) => valid_rotation(rot as int) && (p.0 as int, p.1 as int)
                    == self.source_cell(row as int, col as int, rot as int, width as int),
                Err(e) => !valid_rotation(rot as int) && e == EngineError::InvalidRotation,
            },
    ;
}

impl RotationType {
    /// Whether rotation `rot` shows every cell where it is stored.
    pub open spec fn keeps_layout(self, rot: int) -> bool {
        match self {
            RotationType::SRS => rot == 0,
            RotationType::NES => rot == 0 || rot == 2,
            RotationType::STILL => true,
        }
    }
}

impl Rotation for RotationType {
    open spec fn source_cell(&self, row: int, col: int, rot: int, width: int) -> (int, int) {
        match *self {
            RotationType::SRS => {
                if rot == 1 {
                    (width - 1 - col, row)
                } else if rot == 2 {
                    (width - 1 - row, width - 1 - col)
                } else if rot == 3 {
                    (col, width - 1 - row)
                } else {
                    (row, col)
                }
            },
            RotationType::NES => {
                if rot == 1 || rot == 3 {
                    (col, width - 1 - row)
                } else {
                    (row, col)
                }
            },
            RotationType::STILL => (row, col),
        }
    }

    open spec fn turn_defined(&self, row: int, col: int, rot: int, width: int) -> bool {
        self.keeps_layout(rot) || (0 <= row < width && 0 <= col < width)
    }

    fn rotate_cell(&self, row: usize, col: usize, rot: isize, width: usize) -> (r: Result<
        (usize, usize),
        EngineError,
    >) {
        if rot < 0 || rot > 3 {
            return Err(EngineError::InvalidRotation);
        }
        match self {
            RotationType::SRS => {
                if rot == 0 {
                    Ok((row, col))
                } else if rot == 1 {
                    Ok(((width - 1) - col, row))
                } else if rot == 2 {
                    Ok(((width - 1) - row, (width - 1) - col))
                } else {
                    Ok((col, (width - 1) - row))
                }
            },
            RotationType::NES => {
                if rot == 0 || rot == 2 {
                    Ok((row, col))
                } else {
                    Ok((col, (width - 1) - row))
                }
            },
            RotationType::STILL => Ok((row, col)),
        }
    }
}

/// The mathematical content of a piece: what the rules read.
pub struct Geometry {
    /// The stored matrix, row-major.
    pub cells: Seq<usize>,
    /// The side length of the bounding box.
    pub width: usize,
    /// How the piece answers to a rotation index.
    pub rot_type: RotationType,
    /// How many rows below row 0 the piece spawns.
    pub row_offset: usize,
}

impl Geometry {
    /// Whether the matrix fills a `width * width` box exactly.
    pub open spec fn is_square(self) -> bool {
        self.cells.len() == self.width * self.width
    }

    /// Whether `(row, col)` names a stored cell.
    pub open spec fn has_cell(self, row: int, col: int) -> bool {
        &&& 0 <= row
        &&& 0 <= col < self.width
        &&& row * self.width + col < self.cells.len()
    }

    /// Whether the piece can be shown under rotation `rot`: either its box is
    /// square, or the rotation leaves every cell in place.
    pub open spec fn placeable(self, rot: int) -> bool {
        self.is_square() || (self.width > 0 && self.rot_type.keeps_layout(rot))
    }

    /// The value shown at `(row, col)` under rotation `rot`.
    pub open spec fn cell_at(self, row: int, col: int, rot: int) -> usize {
        let src = self.rot_type.source_cell(row, col, rot, self.width as int);
        self.cells[src.0 * self.width + src.1]
    }

    /// Whether a filled cell is shown at `(row, col)` under rotation `rot`.
    pub open spec fn occupied(self, row: int, col: int, rot: int) -> bool {
        self.has_cell(row, col) && self.cell_at(row, col, rot) != 0
    }

    /// Whether the cell with row-major index `i` is shown filled under `rot`.
    pub open spec fn occupied_at(self, i: int, rot: int) -> bool {
        self.occupied(i / (self.width as int), i % (self.width as int), rot)
    }
}

/// In a square box, a cell inside the box has its row inside the box too.
pub proof fn lemma_square_row_bound(g: Geometry, row: int, col: int)
    requires
        g.is_square(),
        g.has_cell(row, col),
    ensures
        row < g.width,
{
    let w = g.width as int;
    assert(row < w) by (nonlinear_arith)
        requires
            0 <= row,
            0 <= col < w,
            row * w + col < w * w,
    ;
}

/// A position inside a `w * w` box has its row-major index inside the matrix.
pub proof fn lemma_box_index_bound(row: int, col: int, w: int)
    requires
        0 <= row < w,
        0 <= col < w,
    ensures
        0 <= row * w + col < w * w,
{
    assert(0 <= row * w + col < w * w) by (nonlinear_arith)
        requires
            0 <= row < w,
            0 <= col < w,
    ;
}

/// Wherever a piece can be shown, every cell it has is read from a cell it
/// stores.
pub proof fn lemma_source_in_matrix(g: Geometry, row: int, col: int, rot: int)
    requires
        valid_rotation(rot),
        g.placeable(rot),
        g.has_cell(row, col),
    ensures
        ({
            let src = g.rot_type.source_cell(row, col, rot, g.width as int);
            &&& 0 <= src.0
            &&& 0 <= src.1 < g.width
            &&& 0 <= src.0 * g.width + src.1 < g.cells.len()
            &&& g.rot_type.turn_defined(row, col, rot, g.width as int)
        }),
{
    let w = g.width as int;
    let src = g.rot_type.source_cell(row, col, rot, w);
    if g.rot_type.keeps_layout(rot) {
        assert(0 <= row * w) by (nonlinear_arith)
            requires
                0 <= row,
                0 <= w,
        ;
    } else {
        lemma_square_row_bound(g, row, col);
        lemma_box_index_bound(src.0, src.1, w);
    }
}

/// The cell with row-major index `i` lies at row `i / width`, column
/// `i % width`.
pub proof fn lemma_cell_of_index(g: Geometry, i: int)
    requires
        0 <= i < g.cells.len(),
        g.width > 0,
    ensures
        g.has_cell(i / (g.width as int), i % (g.width as int)),
        (i / (g.width as int)) * g.width + i % (g.width as int) == i,
{
    let w = g.width as int;
    lemma_fundamental_div_mod(i, w);
    lemma_mod_bound(i, w);
    assert(0 <= i / w) by (nonlinear_arith)
        requires
            0 <= i,
            0 < w,
            i == w * (i / w) + i % w,
            0 <= i % w < w,
    ;
}

/// The cell at `(row, col)` has row-major index `row * width + col`.
pub proof fn lemma_index_of_cell(g: Geometry, row: int, col: int)
    requires
        g.has_cell(row, col),
    ensures
        ({
            let i = row * g.width + col;
            &&& 0 <= i < g.cells.len()
            &&& i / (g.width as int) == row
            &&& i % (g.width as int) == col
        }),
{
    let w = g.width as int;
    let i = row * w + col;
    assert(0 <= row * w) by (nonlinear_arith)
        requires
            0 <= row,
            0 <= w,
    ;
    lemma_fundamental_div_mod_converse_div(i, w, row, col);
    lemma_fundamental_div_mod_converse_mod(i, w, row, col);
}

/// One piece: its stored matrix, the width of its bounding box, its display
/// colour, how it rotates and where it spawns.
pub struct Shape {
    m: Vec<usize>,
    width: usize,
    color: Color,
    rot_type: RotationType,
    row_offset: usize,
}

impl View for Shape {
    type V = Geometry;

    closed spec fn view(&self) -> Geometry {
        Geometry {
            cells: self.m@,
            width: self.width,
            rot_type: self.rot_type,
            row_offset: self.row_offset,
        }
    }
}

impl Clone for Shape {
    /// An owned copy: same geometry, same colour.
    fn clone(&self) -> (copy: Self)
        ensures
            copy@ == self@,
            copy.color_tag() == self.color_tag(),
    {
        Shape {
            m: self.m.clone(),
            width: self.width,
            color: self.color,
            rot_type: self.rot_type,
            row_offset: self.row_offset,
        }
    }
}

impl Shape {
    /// The display colour the piece was made with.
    pub closed spec fn color_tag(&self) -> Color {
        self.color
    }

    /// A piece with the given matrix, spawning at row 0. Any matrix is taken:
    /// a box that is not square can only be shown under rotations that leave
    /// its cells in place.
    pub fn new(m: Vec<usize>, width: usize, color: Color, shape_type: RotationType) -> (s: Self)
        ensures
            s@ == (Geometry { cells: m@, width: width, rot_type: shape_type, row_offset: 0 }),
            s.color_tag() == color,
    {
        Self { m, width, color, rot_type: shape_type, row_offset: 0 }
    }

    pub fn color(&self) -> (c: Color)
        ensures
            c == self.color_tag(),
    {
        self.color
    }

    pub fn width(&self) -> (w: usize)
        ensures
            w == self@.width,
    {
        self.width
    }

    /// The number of stored cells.
    pub fn len(&self) -> (n: usize)
        ensures
            n == self@.cells.len(),
    {
        self.m.len()
    }

    pub fn rot_type(&self) -> (t: &RotationType)
        ensures
            *t == self@.rot_type,
    {
        &self.rot_type
    }

    /// The row of the cell with row-major index `idx`.
    pub fn row(&self, idx: usize) -> (r: usize)
        requires
            self@.width > 0,
        ensures
            r == idx as int / self@.width as int,
    {
        idx / self.width()
    }

    /// The column of the cell with row-major index `idx`.
    pub fn col(&self, idx: usize) -> (c: usize)
        requires
            self@.width > 0,
        ensures
            c == idx as int % self@.width as int,
    {
        idx % self.width()
    }

    pub fn row_offset(&self) -> (off: usize)
        ensures
            off == self@.row_offset,
    {
        self.row_offset
    }

    /// The same piece, spawning `row_offset` rows below row 0.
    pub fn set_row_offset(self, row_offset: usize) -> (s: Self)
        ensures
            s@ == (Geometry { row_offset: row_offset, ..self@ }),
            s.color_tag() == self.color_tag(),
    {
        let mut s = self;
        s.row_offset = row_offset;
        s
    }

    /// Whether the matrix fills its `width * width` box exactly.
    pub fn is_square(&self) -> (b: bool)
        ensures
            b == self@.is_square(),
    {
        let w = self.width;
        let n = self.m.len();
        if w == 0 {
            n == 0
        } else if n % w != 0 {
            proof {
                if self@.is_square() {
                    vstd::arithmetic::div_mod::lemma_mod_multiples_basic(w as int, w as int);
                }
            }
            false
        } else {
            proof {
                lemma_fundamental_div_mod(n as int, w as int);
                if n / w == w {
                    assert(n == w * w) by (nonlinear_arith)
                        requires
                            n == w * (n / w) + n % w,
                            n % w == 0,
                            n / w == w,
                    ;
                }
                if self@.is_square() {
                    vstd::arithmetic::div_mod::lemma_div_multiples_vanish(w as int, w as int);
                }
            }
            n / w == w
        }
    }

    /// The value shown at `(row, col)` when the piece is rotated by `rot`
    /// quarter turns. The stored matrix is left as it is.
    pub fn rotate(&self, row: usize, col: usize, rot: isize) -> (r: Result<usize, EngineError>)
        requires
            valid_rotation(rot as int) ==> self@.placeable(rot as int) && self@.has_cell(
                row as int,
                col as int,
            ),
        ensures
            match r {
                Ok(v) => valid_rotation(rot as int) && v == self@.cell_at(
                    row as int,
                    col as int,
                    rot as int,
                ),
                Err(e) => !valid_rotation(rot as int) && e == EngineError::InvalidRotation,
            },
    {
        proof {
            if valid_rotation(rot as int) {
                lemma_source_in_matrix(self@, row as int, col as int, rot as int);
            }
        }
        match self.rot_type.rotate_cell(row, col, rot, self.width) {
            Ok((row_r, col_r)) => {
                proof {
                    let w = self.width as int;
                    assert(0 <= row_r * w) by (nonlinear_arith)
                        requires
                            0 <= row_r,
                            0 <= w,
                    ;
                    assert(self.m@.len() == self.m.len());
                }
                Ok(self.m[row_r * self.width + col_r])
            },
            Err(e) => Err(e),
        }
    }
}

/// The rulesets the engine knows.
#[derive(Debug, Clone, Copy, PartialEq, Eq, Structural)]
pub enum RotationSystem {
    /// The modern ruleset: six freely rotating pieces and a square.
    SRS,
    /// The classic ruleset: S, Z and I have two states, and most pieces
    /// spawn one row down.
    NES,
}

/// Something that can build the ordered catalog of pieces of a ruleset. The
/// position of a piece in the catalog is its identity.
pub trait ShapeBuilder {
    /// The geometry of each piece of the catalog, in order.
    spec fn catalog(&self) -> Seq<Geometry>;

    fn build_shapes(&self) -> (shapes: Vec<Shape>)
        ensures
            shapes@.len() == self.catalog().len(),
            forall|i: int| 0 <= i < shapes@.len() ==> (#[trigger] shapes@[i])@ == self.catalog()[i],
    ;
}

/// The unrotated matrices of the modern ruleset: J, L, S, Z, I, T, O.
pub open spec fn srs_catalog() -> Seq<Geometry> {
    seq![
        Geometry {
            cells: seq![1, 0, 0, 1, 1, 1, 0, 0, 0],
            width: 3,
            rot_type: RotationType::SRS,
            row_offset: 0,
        },
        Geometry {
            cells: seq![0, 0, 1, 1, 1, 1, 0, 0, 0],
            width: 3,
            rot_type: RotationType::SRS,
            row_offset: 0,
        },
        Geometry {
            cells: seq![0, 1, 1, 1, 1, 0, 0, 0, 0],
            width: 3,
            rot_type: RotationType::SRS,
            row_offset: 0,
        },
        Geometry {
            cells: seq![1, 1, 0, 0, 1, 1, 0, 0, 0],
            width: 3,
            rot_type: RotationType::SRS,
            row_offset: 0,
        },
        Geometry {
            cells: seq![0, 0, 0, 0, 1, 1, 1, 1, 0, 0, 0, 0, 0, 0, 0, 0],
            width: 4,
            rot_type: RotationType::SRS,
            row_offset: 0,
        },
        Geometry {
            cells: seq![0, 1, 0, 1, 1, 1, 0, 0, 0],
            width: 3,
            rot_type: RotationType::SRS,
            row_offset: 0,
        },
        Geometry {
            cells: seq![0, 1, 1, 0, 0, 1, 1, 0, 0, 0, 0, 0, 0, 0, 0, 0],
            width: 4,
            rot_type: RotationType::STILL,
            row_offset: 0,
        },
    ]
}

/// The unrotated matrices of the classic ruleset: J, L, S, Z, I, T, O. Every
/// box but that of I starts with a blank row, and every piece but I spawns
/// one row down.
pub open spec fn nes_catalog() -> Seq<Geometry> {
    seq![
        Geometry {
            cells: seq![0, 0, 0, 1, 1, 1, 0, 0, 1],
            width: 3,
            rot_type: RotationType::SRS,
            row_offset: 1,
        },
        Geometry {
            cells: seq![0, 0, 0, 1, 1, 1, 1, 0, 0],
            width: 3,
            rot_type: RotationType::SRS,
            row_offset: 1,
        },
        Geometry {
            cells: seq![0, 0, 0, 0, 1, 1, 1, 1, 0],
            width: 3,
            rot_type: RotationType::NES,
            row_offset: 1,
        },
        Geometry {
            cells: seq![0, 0, 0, 1, 1, 0, 0, 1, 1],
            width: 3,
            rot_type: RotationType::NES,
            row_offset: 1,
        },
        Geometry {
            cells: seq![0, 0, 0, 0, 0, 0, 0, 0, 1, 1, 1, 1, 0, 0, 0, 0],
            width: 4,
            rot_type: RotationType::NES,
            row_offset: 0,
        },
        Geometry {
            cells: seq![0, 0, 0, 1, 1, 1, 0, 1, 0],
            width: 3,
            rot_type: RotationType::SRS,
            row_offset: 1,
        },
        Geometry {
            cells: seq![0, 0, 0, 0, 0, 1, 1, 0, 0, 1, 1, 0, 0, 0, 0, 0],
            width: 4,
            rot_type: RotationType::STILL,
            row_offset: 1,
        },
    ]
}

/// Every piece of the two built-in catalogs fills its box.
pub proof fn lemma_catalogs_are_square(system: RotationSystem, i: int)
    requires
        0 <= i < system.catalog().len(),
    ensures
        system.catalog().len() == 7,
        system.catalog()[i].is_square(),
        system.catalog()[i].width == 3 || system.catalog()[i].width == 4,
{
    let c = system.catalog();
    assert(c[0].cells.len() == 9 && c[0].width == 3 && c[0].is_square());
    assert(c[1].cells.len() == 9 && c[1].width == 3 && c[1].is_square());
    assert(c[2].cells.len() == 9 && c[2].width == 3 && c[2].is_square());
    assert(c[3].cells.len() == 9 && c[3].width == 3 && c[3].is_square());
    assert(c[4].cells.len() == 16 && c[4].width == 4 && c[4].is_square());
    assert(c[5].cells.len() == 9 && c[5].width == 3 && c[5].is_square());
    assert(c[6].cells.len() == 16 && c[6].width == 4 && c[6].is_square());
}

impl RotationSystem {
    fn srs_shapes() -> (shapes: Vec<Shape>)
        ensures
            shapes@.len() == srs_catalog().len(),
            forall|i: int| 0 <= i < shapes@.len() ==> (#[trigger] shapes@[i])@ == srs_catalog()[i],
    {
        let j: Vec<usize> = vec![1, 0, 0, 1, 1, 1, 0, 0, 0];
        let l: Vec<usize> = vec![0, 0, 1, 1, 1, 1, 0, 0, 0];
        let s: Vec<usize> = vec![0, 1, 1, 1, 1, 0, 0, 0, 0];
        let z: Vec<usize> = vec![1, 1, 0, 0, 1, 1, 0, 0, 0];
        let i: Vec<usize> = vec![0, 0, 0, 0, 1, 1, 1, 1, 0, 0, 0, 0, 0, 0, 0, 0];
        let t: Vec<usize> = vec![0, 1, 0, 1, 1, 1, 0, 0, 0];
        let o: Vec<usize> = vec![0, 1, 1, 0, 0, 1, 1, 0, 0, 0, 0, 0, 0, 0, 0, 0];
        let mut shapes: Vec<Shape> = Vec::new();
        shapes.push(Shape::new(j, 3, pink(), RotationType::SRS));
        shapes.push(Shape::new(l, 3, blue(), RotationType::SRS));
        shapes.push(Shape::new(s, 3, green(), RotationType::SRS));
        shapes.push(Shape::new(z, 3, orange(), RotationType::SRS));
        shapes.push(Shape::new(i, 4, red(), RotationType::SRS));
        shapes.push(Shape::new(t, 3, purple(), RotationType::SRS));
        shapes.push(Shape::new(o, 4, yellow(), RotationType::STILL));
        shapes
    }

    fn nes_shapes() -> (shapes: Vec<Shape>)
        ensures
            shapes@.len() == nes_catalog().len(),
            forall|i: int| 0 <= i < shapes@.len() ==> (#[trigger] shapes@[i])@ == nes_catalog()[i],
    {
        let j_nes: Vec<usize> = vec![0, 0, 0, 1, 1, 1, 0, 0, 1];
        let l_nes: Vec<usize> = vec![0, 0, 0, 1, 1, 1, 1, 0, 0];
        let s_nes: Vec<usize> = vec![0, 0, 0, 0, 1, 1, 1, 1, 0];
        let z_nes: Vec<usize> = vec![0, 0, 0, 1, 1, 0, 0, 1, 1];
        let i_nes: Vec<usize> = vec![0, 0, 0, 0, 0, 0, 0, 0, 1, 1, 1, 1, 0, 0, 0, 0];
        let t_nes: Vec<usize> = vec![0, 0, 0, 1, 1, 1, 0, 1, 0];
        let o_nes: Vec<usize> = vec![0, 0, 0, 0, 0, 1, 1, 0, 0, 1, 1, 0, 0, 0, 0, 0];
        let mut shapes: Vec<Shape> = Vec::new();
        shapes.push(Shape::new(j_nes, 3, pink(), RotationType::SRS).set_row_offset(1));
        shapes.push(Shape::new(l_nes, 3, blue(), RotationType::SRS).set_row_offset(1));
        shapes.push(Shape::new(s_nes, 3, green(), RotationType::NES).set_row_offset(1));
        shapes.push(Shape::new(z_nes, 3, orange(), RotationType::NES).set_row_offset(1));
        shapes.push(Shape::new(i_nes, 4, red(), RotationType::NES));
        shapes.push(Shape::new(t_nes, 3, purple(), RotationType::SRS).set_row_offset(1));
        shapes.push(Shape::new(o_nes, 4, yellow(), RotationType::STILL).set_row_offset(1));
        shapes
    }
}

impl ShapeBuilder for RotationSystem {
    open spec fn catalog(&self) -> Seq<Geometry> {
        match *self {
            RotationSystem::SRS => srs_catalog(),
            RotationSystem::NES => nes_catalog(),
        }
    }

    fn build_shapes(&self) -> (shapes: Vec<Shape>) {
        match self {
            RotationSystem::SRS => Self::srs_shapes(),
            RotationSystem::NES => Self::nes_shapes(),
        }
    }
}

/// Whether every piece of a catalog fills its `width * width` box.
pub open spec fn all_square(shapes: Seq<Shape>) -> bool {
    forall|i: int| 0 <= i < shapes.len() ==> (#[trigger] shapes[i])@.is_square()
}

/// Checks a catalog before it is put to use: a piece whose matrix does not
/// fill its box is refused here, so that no rotation ever meets one.
pub fn check_catalog(shapes: &Vec<Shape>) -> (r: Result<(), EngineError>)
    ensures
        match r {
            Ok(_) => all_square(shapes@),
            Err(e) => !all_square(shapes@) && e == EngineError::MalformedGeometry,
        },
{
    let mut i: usize = 0;
    while i < shapes.len()
        invariant
            i <= shapes@.len(),
            forall|k: int| 0 <= k < i ==> (#[trigger] shapes@[k])@.is_square(),
        decreases shapes@.len() - i,
    {
        if !shapes[i].is_square() {
            return Err(EngineError::MalformedGeometry);
        }
        i += 1;
    }
    Ok(())
}

/// Hands out pieces: one catalog and one random generator, always of the
/// same ruleset.
pub struct ShapeFactory {
    shapes: Vec<Shape>,
    rotation_system: RotationSystem,
    random_shape_generator: TSR,
}

impl ShapeFactory {
    #[verifier::type_invariant]
    spec fn matched(self) -> bool {
        &&& self.shapes@.len() == self.rotation_system.catalog().len()
        &&& forall|i: int|
            0 <= i < self.shapes@.len() ==> (#[trigger] self.shapes@[i])@
                == self.rotation_system.catalog()[i]
        &&& self.random_shape_generator.piece_count() == self.shapes@.len()
        &&& self.random_shape_generator.upcoming() < self.shapes@.len()
    }

    /// The ruleset in use.
    pub closed spec fn system(&self) -> RotationSystem {
        self.rotation_system
    }

    /// The catalog in use, in order.
    pub closed spec fn pieces(&self) -> Seq<Shape> {
        self.shapes@
    }

    /// The catalog index of the piece that the next draw hands out.
    pub closed spec fn upcoming(&self) -> usize {
        self.random_shape_generator.upcoming()
    }

    /// Whether the stored catalog is that of the ruleset in use, and the
    /// upcoming index names one of its pieces. Every factory is.
    pub open spec fn consistent(&self) -> bool {
        &&& self.pieces().len() == self.system().catalog().len()
        &&& forall|i: int|
            0 <= i < self.pieces().len() ==> (#[trigger] self.pieces()[i])@
                == self.system().catalog()[i]
        &&& self.upcoming() < self.pieces().len()
    }

    /// A factory for `rotation_system`, after seeding the random source with
    /// `seed`.
    pub fn new(rotation_system: RotationSystem, seed: u64) -> (f: Self)
        ensures
            f.system() == rotation_system,
            f.consistent(),
    {
        let shapes = rotation_system.build_shapes();
        let n_shapes = shapes.len();
        Self { shapes, rotation_system, random_shape_generator: TSR::new(n_shapes, seed) }
    }

    pub fn current_rotation_system(&self) -> (system: &RotationSystem)
        ensures
            *system == self.system(),
            self.consistent(),
    {
        proof {
            use_type_invariant(self);
        }
        &self.rotation_system
    }

    /// Replaces catalog and generator together by those of `rotation_system`.
    /// The random source is not seeded anew.
    pub fn update_rotation_system(&mut self, rotation_system: RotationSystem)
        ensures
            final(self).system() == rotation_system,
            final(self).consistent(),
    {
        let shapes = rotation_system.build_shapes();
        let n_shapes = shapes.len();
        *self = Self {
            shapes,
            rotation_system,
            random_shape_generator: TSR::resume(n_shapes),
        };
    }

    /// Draws: an owned copy of the piece that was upcoming. Another piece
    /// becomes the upcoming one.
    pub fn current_shape(&mut self) -> (shape: Shape)
        ensures
            old(self).consistent(),
            shape@ == old(self).pieces()[old(self).upcoming() as int]@,
            shape.color_tag() == old(self).pieces()[old(self).upcoming() as int].color_tag(),
            final(self).system() == old(self).system(),
            final(self).pieces() == old(self).pieces(),
            final(self).consistent(),
    {
        proof {
            use_type_invariant(&*self);
        }
        let mut generator = self.random_shape_generator;
        let shape_number = generator.get();
        self.random_shape_generator = generator;
        self.shapes[shape_number].clone()
    }

    /// Peeks: an owned copy of the upcoming piece. Nothing is consumed.
    pub fn next_shape(&self) -> (shape: Shape)
        ensures
            self.consistent(),
            shape@ == self.pieces()[self.upcoming() as int]@,
            shape.color_tag() == self.pieces()[self.upcoming() as int].color_tag(),
    {
        proof {
            use_type_invariant(self);
        }
        let shape_number = self.random_shape_generator.next();
        self.shapes[shape_number].clone()
    }

    /// The catalog in use, in order.
    pub fn shapes(&self) -> (shapes: &Vec<Shape>)
        ensures
            shapes@ == self.pieces(),
            self.consistent(),
    {
        proof {
            use_type_invariant(self);
        }
        &self.shapes
    }
}

} // verus!
