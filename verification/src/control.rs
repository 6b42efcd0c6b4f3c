//! What a front end may do with the falling piece. The engine keeps no
//! record of where the piece is: each question names the piece, the grid
//! row and column of the top left corner of its box, and its rotation, and
//! the answer is where the piece is after the move, if it can be made.

use vstd::prelude::*;
use crate::error::EngineError;
use crate::grid::{is_full_row, is_touched_rows};
use crate::playfield::Playfield;
use crate::shape::{valid_rotation, Shape};

verus! {

/// The rotation index one quarter turn clockwise from `rot`.
pub open spec fn turned_clockwise(rot: int) -> int {
    (rot + 1) % 4
}

/// The rotation index one quarter turn counter-clockwise from `rot`.
pub open spec fn turned_counter_cw(rot: int) -> int {
    if rot == 0 {
        3
    } else {
        rot - 1
    }
}

/// Turns the piece a quarter turn clockwise if it does not collide there,
/// and leaves it as it is if it does.
pub fn rotate_clockwise(
    pf: &Playfield,
    shape: &Shape,
    cs_row: usize,
    cs_col: isize,
    rot: isize,
) -> (res: Result<isize, EngineError>)
    requires
        valid_rotation(rot as int) ==> shape@.placeable(turned_clockwise(rot as int)),
    ensures
        match res {
            Ok(new_rot) => valid_rotation(rot as int) && new_rot == if pf@.collides(
                shape@,
                cs_row as int,
                cs_col as int,
                turned_clockwise(rot as int),
            ) {
                rot as int
            } else {
                turned_clockwise(rot as int)
            },
            Err(e) => !valid_rotation(rot as int) && e == EngineError::InvalidRotation,
        },
{
    if rot < 0 || rot > 3 {
        return Err(EngineError::InvalidRotation);
    }
    let new_rot: isize = (rot + 1) % 4;
    match pf.collides(shape, cs_row, cs_col, new_rot) {
        Ok(true) => Ok(rot),
        Ok(false) => Ok(new_rot),
        Err(e) => Err(e),
    }
}

/// Turns the piece a quarter turn counter-clockwise if it does not collide
/// there, and leaves it as it is if it does.
pub fn rotate_counter_cw(
    pf: &Playfield,
    shape: &Shape,
    cs_row: usize,
    cs_col: isize,
    rot: isize,
) -> (res: Result<isize, EngineError>)
    requires
        valid_rotation(rot as int) ==> shape@.placeable(turned_counter_cw(rot as int)),
    ensures
        match res {
            Ok(new_rot) => valid_rotation(rot as int) && new_rot == if pf@.collides(
                shape@,
                cs_row as int,
                cs_col as int,
                turned_counter_cw(rot as int),
            ) {
                rot as int
            } else {
                turned_counter_cw(rot as int)
            },
            Err(e) => !valid_rotation(rot as int) && e == EngineError::InvalidRotation,
        },
{
    if rot < 0 || rot > 3 {
        return Err(EngineError::InvalidRotation);
    }
    let new_rot: isize = if rot == 0 {
        3
    } else {
        rot - 1
    };
    match pf.collides(shape, cs_row, cs_col, new_rot) {
        Ok(true) => Ok(rot),
        Ok(false) => Ok(new_rot),
        Err(e) => Err(e),
    }
}

/// Where a piece spawns: at its row offset, with its box centred on the
/// grid, not yet turned.
pub fn spawn_position(pf: &Playfield, shape: &Shape) -> (at: (usize, isize))
    ensures
        at.0 == shape@.row_offset,
        at.1 == pf@.n_cols() / 2 - (shape@.width as int) / 2,
{
    let half_cols: isize = (pf.n_cols() / 2) as isize;
    let half_width: isize = (shape.width() / 2) as isize;
    (shape.row_offset(), half_cols - half_width)
}

/// The column of the piece after a step to the left: one less if the piece
/// does not collide there, the same if it does.
pub fn shift_left(
    pf: &Playfield,
    shape: &Shape,
    cs_row: usize,
    cs_col: isize,
    rot: isize,
) -> (res: Result<isize, EngineError>)
    requires
        valid_rotation(rot as int) ==> shape@.placeable(rot as int),
    ensures
        match res {
            Ok(new_col) => valid_rotation(rot as int) && new_col == if cs_col > isize::MIN
                && !pf@.collides(shape@, cs_row as int, cs_col - 1, rot as int) {
                cs_col - 1
            } else {
                cs_col as int
            },
            Err(e) => !valid_rotation(rot as int) && e == EngineError::InvalidRotation,
        },
{
    if rot < 0 || rot > 3 {
        return Err(EngineError::InvalidRotation);
    }
    if cs_col == isize::MIN {
        return Ok(cs_col);
    }
    match pf.collides(shape, cs_row, cs_col - 1, rot) {
        Ok(true) => Ok(cs_col),
        Ok(false) => Ok(cs_col - 1),
        Err(e) => Err(e),
    }
}

/// The column of the piece after a step to the right: one more if the
/// piece does not collide there, the same if it does.
pub fn shift_right(
    pf: &Playfield,
    shape: &Shape,
    cs_row: usize,
    cs_col: isize,
    rot: isize,
) -> (res: Result<isize, EngineError>)
    requires
        valid_rotation(rot as int) ==> shape@.placeable(rot as int),
    ensures
        match res {
            Ok(new_col) => valid_rotation(rot as int) && new_col == if cs_col < isize::MAX
                && !pf@.collides(shape@, cs_row as int, cs_col + 1, rot as int) {
                cs_col + 1
            } else {
                cs_col as int
            },
            Err(e) => !valid_rotation(rot as int) && e == EngineError::InvalidRotation,
        },
{
    if rot < 0 || rot > 3 {
        return Err(EngineError::InvalidRotation);
    }
    if cs_col == isize::MAX {
        return Ok(cs_col);
    }
    match pf.collides(shape, cs_row, cs_col + 1, rot) {
        Ok(true) => Ok(cs_col),
        Ok(false) => Ok(cs_col + 1),
        Err(e) => Err(e),
    }
}

/// The row of the piece after a step down, if it can make one: `None` says
/// that the piece has landed and is to be locked where it is.
pub fn descend(
    pf: &Playfield,
    shape: &Shape,
    cs_row: usize,
    cs_col: isize,
    rot: isize,
) -> (res: Result<Option<usize>, EngineError>)
    requires
        valid_rotation(rot as int) ==> shape@.placeable(rot as int),
    ensures
        match res {
            Ok(new_row) => valid_rotation(rot as int) && new_row == if cs_row < usize::MAX
                && !pf@.collides(shape@, cs_row + 1, cs_col as int, rot as int) {
                Some((cs_row + 1) as usize)
            } else {
                None::<usize>
            },
            Err(e) => !valid_rotation(rot as int) && e == EngineError::InvalidRotation,
        },
{
    if rot < 0 || rot > 3 {
        return Err(EngineError::InvalidRotation);
    }
    if cs_row == usize::MAX {
        return Ok(None);
    }
    match pf.collides(shape, cs_row + 1, cs_col, rot) {
        Ok(true) => Ok(None),
        Ok(false) => Ok(Some(cs_row + 1)),
        Err(e) => Err(e),
    }
}

/// Locks the piece where it is: writes it into the grid, then clears the
/// rows that this has filled, and says which rows those were. A piece that
/// collides where it is cannot be locked, and the grid is left as it is.
pub fn lock(
    pf: &mut Playfield,
    shape: &Shape,
    cs_row: usize,
    cs_col: isize,
    rot: isize,
) -> (res: Result<Vec<usize>, EngineError>)
    requires
        valid_rotation(rot as int) ==> shape@.placeable(rot as int),
    ensures
        match res {
            Ok(cleared) => {
                let placed = old(pf)@.with_piece(shape@, cs_row as int, cs_col as int, rot as int);
                &&& valid_rotation(rot as int)
                &&& !old(pf)@.collides(shape@, cs_row as int, cs_col as int, rot as int)
                &&& exists|touched: Seq<usize>| #[trigger]
                    is_touched_rows(touched, shape@, cs_row as int, rot as int) && cleared@
                        == touched.filter(is_full_row(placed))
                &&& final(pf)@ == placed.clear_all(cleared@)
                &&& old(pf)@.has_borders() ==> final(pf)@.has_borders()
            },
            Err(e) => {
                &&& final(pf)@ == old(pf)@
                &&& if valid_rotation(rot as int) {
                    e == EngineError::PlacementViolatesInvariant && old(pf)@.collides(
                        shape@,
                        cs_row as int,
                        cs_col as int,
                        rot as int,
                    )
                } else {
                    e == EngineError::InvalidRotation
                }
            },
        },
{
    match pf.collides(shape, cs_row, cs_col, rot) {
        Err(e) => {
            return Err(e);
        },
        Ok(true) => {
            return Err(EngineError::PlacementViolatesInvariant);
        },
        Ok(false) => {},
    }
    let mod_rows = match pf.add(shape, cs_row, cs_col, rot) {
        Ok(rows) => rows,
        Err(e) => {
            proof {
                crate::laws::placement::lemma_place_where_free(
                    old(pf)@,
                    shape@,
                    cs_row as int,
                    cs_col as int,
                    rot as int,
                );
            }
            return Err(e);
        },
    };
    proof {
        crate::laws::placement::lemma_place_where_free(
            old(pf)@,
            shape@,
            cs_row as int,
            cs_col as int,
            rot as int,
        );
        assert forall|i: int| 0 <= i < mod_rows@.len() implies mod_rows@[i] < pf@.n_rows() by {
            let sr = mod_rows@[i] - cs_row;
            let sc = choose|sc: int| shape@.occupied(sr, sc, rot as int);
            assert(shape@.occupied(sr, sc, rot as int));
        }
    }
    let cleared_lines = pf.check_rows(&mod_rows);
    proof {
        assert forall|i: int| 0 <= i < cleared_lines@.len() implies cleared_lines@[i]
            < pf@.n_rows() by {
            mod_rows@.lemma_filter_contains_rev(is_full_row(pf@), cleared_lines@[i]);
            let k = choose|k: int| 0 <= k < mod_rows@.len() && mod_rows@[k] == cleared_lines@[i];
        }
    }
    proof {
        if old(pf)@.has_borders() {
            assert forall|i: int| 0 <= i < cleared_lines@.len() implies cleared_lines@[i]
                < pf@.n_rows() - 1 by {
                let row = cleared_lines@[i];
                mod_rows@.lemma_filter_contains_rev(is_full_row(pf@), row);
                let k = choose|k: int| 0 <= k < mod_rows@.len() && mod_rows@[k] == row;
                let sr = mod_rows@[k] - cs_row;
                let sc = choose|sc: int| shape@.occupied(sr, sc, rot as int);
                assert(!old(pf)@.blocked(cs_row + sr, cs_col + sc));
            }
            crate::laws::compaction::lemma_clear_rows_keeps_border(pf@, cleared_lines@);
        }
    }
    pf.clear_rows(&cleared_lines);
    Ok(cleared_lines)
}

} // verus!
