use macroquad::color::{BLACK, RED};
use rusty_blocks::error::EngineError;
use rusty_blocks::shape::{
    check_catalog, Rotation, RotationSystem, RotationType, Shape, ShapeBuilder, ShapeFactory,
};

#[test]
fn test_rotate_shape() {
    // 3x3 shape
    let s = Shape::new(
        Vec::from([
            0, 1, 2,
            3, 4, 5,
            6, 7, 8,
        ]),
        3,
        BLACK,
        RotationType::SRS,
    );

    // FIRST ROW ----------------------
    // 0 degrees
    assert_eq!(0, s.rotate(0, 0, 0).unwrap());
    assert_eq!(1, s.rotate(0, 1, 0).unwrap());
    assert_eq!(2, s.rotate(0, 2, 0).unwrap());
    // 90 degrees
    assert_eq!(6, s.rotate(0, 0, 1).unwrap());
    assert_eq!(3, s.rotate(0, 1, 1).unwrap());
    assert_eq!(0, s.rotate(0, 2, 1).unwrap());
    // 180 degrees
    assert_eq!(8, s.rotate(0, 0, 2).unwrap());
    assert_eq!(7, s.rotate(0, 1, 2).unwrap());
    assert_eq!(6, s.rotate(0, 2, 2).unwrap());
    // 270 degrees
    assert_eq!(2, s.rotate(0, 0, 3).unwrap());
    assert_eq!(5, s.rotate(0, 1, 3).unwrap());
    assert_eq!(8, s.rotate(0, 2, 3).unwrap());
    // SECOND ROW ----------------------
    // 0 degrees
    assert_eq!(3, s.rotate(1, 0, 0).unwrap());
    assert_eq!(4, s.rotate(1, 1, 0).unwrap());
    assert_eq!(5, s.rotate(1, 2, 0).unwrap());
    // 90 degrees
    assert_eq!(7, s.rotate(1, 0, 1).unwrap());
    assert_eq!(4, s.rotate(1, 1, 1).unwrap());
    assert_eq!(1, s.rotate(1, 2, 1).unwrap());
    // 180 degrees
    assert_eq!(5, s.rotate(1, 0, 2).unwrap());
    assert_eq!(4, s.rotate(1, 1, 2).unwrap());
    assert_eq!(3, s.rotate(1, 2, 2).unwrap());
    // 270 degrees
    assert_eq!(1, s.rotate(1, 0, 3).unwrap());
    assert_eq!(4, s.rotate(1, 1, 3).unwrap());
    assert_eq!(7, s.rotate(1, 2, 3).unwrap());
    // THIRD ROW ----------------------
    // 0 degrees
    assert_eq!(6, s.rotate(2, 0, 0).unwrap());
    assert_eq!(7, s.rotate(2, 1, 0).unwrap());
    assert_eq!(8, s.rotate(2, 2, 0).unwrap());
    // 90 degrees
    assert_eq!(8, s.rotate(2, 0, 1).unwrap());
    assert_eq!(5, s.rotate(2, 1, 1).unwrap());
    assert_eq!(2, s.rotate(2, 2, 1).unwrap());
    // 180 degrees
    assert_eq!(2, s.rotate(2, 0, 2).unwrap());
    assert_eq!(1, s.rotate(2, 1, 2).unwrap());
    assert_eq!(0, s.rotate(2, 2, 2).unwrap());
    // 270 degrees
    assert_eq!(0, s.rotate(2, 0, 3).unwrap());
    assert_eq!(3, s.rotate(2, 1, 3).unwrap());
    assert_eq!(6, s.rotate(2, 2, 3).unwrap());

    // 4x4 shape
    let s = Shape::new(
        Vec::from([
            0,   1,  2,  3,
            4,   5,  6,  7,
            8,   9, 10, 11,
            12, 13, 14, 15,
        ]),
        4,
        BLACK,
        RotationType::SRS,
    );

    // FIRST ROW ----------------------
    // 0 degrees
    assert_eq!(0, s.rotate(0, 0, 0).unwrap());
    assert_eq!(1, s.rotate(0, 1, 0).unwrap());
    assert_eq!(2, s.rotate(0, 2, 0).unwrap());
    assert_eq!(3, s.rotate(0, 3, 0).unwrap());
    // 90 degrees
    assert_eq!(12, s.rotate(0, 0, 1).unwrap());
    assert_eq!(8, s.rotate(0, 1, 1).unwrap());
    assert_eq!(4, s.rotate(0, 2, 1).unwrap());
    assert_eq!(0, s.rotate(0, 3, 1).unwrap());
    // 180 degrees
    assert_eq!(15, s.rotate(0, 0, 2).unwrap());
    assert_eq!(14, s.rotate(0, 1, 2).unwrap());
    assert_eq!(13, s.rotate(0, 2, 2).unwrap());
    assert_eq!(12, s.rotate(0, 3, 2).unwrap());
    // 270 degrees
    assert_eq!(3, s.rotate(0, 0, 3).unwrap());
    assert_eq!(7, s.rotate(0, 1, 3).unwrap());
    assert_eq!(11, s.rotate(0, 2, 3).unwrap());
    assert_eq!(15, s.rotate(0, 3, 3).unwrap());
    // SECOND ROW ----------------------
    // 0 degrees
    assert_eq!(4, s.rotate(1, 0, 0).unwrap());
    assert_eq!(5, s.rotate(1, 1, 0).unwrap());
    assert_eq!(6, s.rotate(1, 2, 0).unwrap());
    assert_eq!(7, s.rotate(1, 3, 0).unwrap());
    // 90 degrees
    assert_eq!(13, s.rotate(1, 0, 1).unwrap());
    assert_eq!(9, s.rotate(1, 1, 1).unwrap());
    assert_eq!(5, s.rotate(1, 2, 1).unwrap());
    assert_eq!(1, s.rotate(1, 3, 1).unwrap());
    // 180 degrees
    assert_eq!(11, s.rotate(1, 0, 2).unwrap());
    assert_eq!(10, s.rotate(1, 1, 2).unwrap());
    assert_eq!(9, s.rotate(1, 2, 2).unwrap());
    assert_eq!(8, s.rotate(1, 3, 2).unwrap());
    // 270 degrees
    assert_eq!(2, s.rotate(1, 0, 3).unwrap());
    assert_eq!(6, s.rotate(1, 1, 3).unwrap());
    assert_eq!(10, s.rotate(1, 2, 3).unwrap());
    assert_eq!(14, s.rotate(1, 3, 3).unwrap());
    // THIRD ROW ----------------------
    // 0 degrees
    assert_eq!(8, s.rotate(2, 0, 0).unwrap());
    assert_eq!(9, s.rotate(2, 1, 0).unwrap());
    assert_eq!(10, s.rotate(2, 2, 0).unwrap());
    assert_eq!(11, s.rotate(2, 3, 0).unwrap());
    // 90 degrees
    assert_eq!(14, s.rotate(2, 0, 1).unwrap());
    assert_eq!(10, s.rotate(2, 1, 1).unwrap());
    assert_eq!(6, s.rotate(2, 2, 1).unwrap());
    assert_eq!(2, s.rotate(2, 3, 1).unwrap());
    // 180 degrees
    assert_eq!(7, s.rotate(2, 0, 2).unwrap());
    assert_eq!(6, s.rotate(2, 1, 2).unwrap());
    assert_eq!(5, s.rotate(2, 2, 2).unwrap());
    assert_eq!(4, s.rotate(2, 3, 2).unwrap());
    // 270 degrees
    assert_eq!(1, s.rotate(2, 0, 3).unwrap());
    assert_eq!(5, s.rotate(2, 1, 3).unwrap());
    assert_eq!(9, s.rotate(2, 2, 3).unwrap());
    assert_eq!(13, s.rotate(2, 3, 3).unwrap());
    // FOURTH ROW ----------------------
    // 0 degrees
    assert_eq!(12, s.rotate(3, 0, 0).unwrap());
    assert_eq!(13, s.rotate(3, 1, 0).unwrap());
    assert_eq!(14, s.rotate(3, 2, 0).unwrap());
    assert_eq!(15, s.rotate(3, 3, 0).unwrap());
    // 90 degrees
    assert_eq!(15, s.rotate(3, 0, 1).unwrap());
    assert_eq!(11, s.rotate(3, 1, 1).unwrap());
    assert_eq!(7, s.rotate(3, 2, 1).unwrap());
    assert_eq!(3, s.rotate(3, 3, 1).unwrap());
    // 180 degrees
    assert_eq!(3, s.rotate(3, 0, 2).unwrap());
    assert_eq!(2, s.rotate(3, 1, 2).unwrap());
    assert_eq!(1, s.rotate(3, 2, 2).unwrap());
    assert_eq!(0, s.rotate(3, 3, 2).unwrap());
    // 270 degrees
    assert_eq!(0, s.rotate(3, 0, 3).unwrap());
    assert_eq!(4, s.rotate(3, 1, 3).unwrap());
    assert_eq!(8, s.rotate(3, 2, 3).unwrap());
    assert_eq!(12, s.rotate(3, 3, 3).unwrap());
}

#[test]
fn test_rotate_still_shape() {
    // 3x3 shape
    let s = Shape::new(
        Vec::from([
            0, 1, 2,
            3, 4, 5,
            6, 7, 8,
        ]),
        3,
        BLACK,
        RotationType::STILL,
    );

    // FIRST ROW ----------------------
    for i in 0..4 {
        assert_eq!(0, s.rotate(0, 0, i).unwrap());
        assert_eq!(1, s.rotate(0, 1, i).unwrap());
        assert_eq!(2, s.rotate(0, 2, i).unwrap());
    }
    // SECOND ROW ----------------------
    for i in 0..4 {
        assert_eq!(3, s.rotate(1, 0, i).unwrap());
        assert_eq!(4, s.rotate(1, 1, i).unwrap());
        assert_eq!(5, s.rotate(1, 2, i).unwrap());
    }
    // THIRD ROW ----------------------
    for i in 0..4 {
        assert_eq!(6, s.rotate(2, 0, i).unwrap());
        assert_eq!(7, s.rotate(2, 1, i).unwrap());
        assert_eq!(8, s.rotate(2, 2, i).unwrap());
    }

    // 3x4 shape
    let s = Shape::new(
        Vec::from([
            0,  1,  2,  3,
            4,  5,  6,  7,
            8,  9, 10, 11,
        ]),
        4,
        BLACK,
        RotationType::STILL,
    );

    // FIRST ROW ----------------------
    for i in 0..4 {
        assert_eq!(0, s.rotate(0, 0, i).unwrap());
        assert_eq!(1, s.rotate(0, 1, i).unwrap());
        assert_eq!(2, s.rotate(0, 2, i).unwrap());
        assert_eq!(3, s.rotate(0, 3, i).unwrap());
    }
    // SECOND ROW ----------------------
    for i in 0..4 {
        assert_eq!(4, s.rotate(1, 0, i).unwrap());
        assert_eq!(5, s.rotate(1, 1, i).unwrap());
        assert_eq!(6, s.rotate(1, 2, i).unwrap());
        assert_eq!(7, s.rotate(1, 3, i).unwrap());
    }
    // THIRD ROW ----------------------
    for i in 0..4 {
        assert_eq!(8, s.rotate(2, 0, i).unwrap());
        assert_eq!(9, s.rotate(2, 1, i).unwrap());
        assert_eq!(10, s.rotate(2, 2, i).unwrap());
        assert_eq!(11, s.rotate(2, 3, i).unwrap());
    }
}

#[test]
fn test_rotate_nes_shape() {
    // 3x3 shape
    let s = Shape::new(
        Vec::from([
            0, 1, 2,
            3, 4, 5,
            6, 7, 8,
        ]),
        3,
        BLACK,
        RotationType::NES,
    );

    // FIRST ROW ----------------------
    for i in 0..4 {
        if i % 2 == 0 {
            assert_eq!(0, s.rotate(0, 0, i).unwrap());
            assert_eq!(1, s.rotate(0, 1, i).unwrap());
            assert_eq!(2, s.rotate(0, 2, i).unwrap());
        } else {
            assert_eq!(2, s.rotate(0, 0, i).unwrap());
            assert_eq!(5, s.rotate(0, 1, i).unwrap());
            assert_eq!(8, s.rotate(0, 2, i).unwrap());
        }
    }
    // SECOND ROW ----------------------
    for i in 0..4 {
        if i % 2 == 0 {
            assert_eq!(3, s.rotate(1, 0, i).unwrap());
            assert_eq!(4, s.rotate(1, 1, i).unwrap());
            assert_eq!(5, s.rotate(1, 2, i).unwrap());
        } else {
            assert_eq!(1, s.rotate(1, 0, i).unwrap());
            assert_eq!(4, s.rotate(1, 1, i).unwrap());
            assert_eq!(7, s.rotate(1, 2, i).unwrap());
        }
    }
    // THIRD ROW ----------------------
    for i in 0..4 {
        if i % 2 == 0 {
            assert_eq!(6, s.rotate(2, 0, i).unwrap());
            assert_eq!(7, s.rotate(2, 1, i).unwrap());
            assert_eq!(8, s.rotate(2, 2, i).unwrap());
        } else {
            assert_eq!(0, s.rotate(2, 0, i).unwrap());
            assert_eq!(3, s.rotate(2, 1, i).unwrap());
            assert_eq!(6, s.rotate(2, 2, i).unwrap());
        }
    }

    // 4x4 shape
    let s = Shape::new(
        Vec::from([
            0,  1,  2,  3,
            4,  5,  6,  7,
            8,  9, 10, 11,
           12, 13, 14, 15,
        ]),
        4,
        BLACK,
        RotationType::NES,
    );

    // FIRST ROW ----------------------
    for i in 0..4 {
        if i % 2 == 0 {
            assert_eq!(0, s.rotate(0, 0, i).unwrap());
            assert_eq!(1, s.rotate(0, 1, i).unwrap());
            assert_eq!(2, s.rotate(0, 2, i).unwrap());
            assert_eq!(3, s.rotate(0, 3, i).unwrap());
        } else {
            assert_eq!(3, s.rotate(0, 0, i).unwrap());
            assert_eq!(7, s.rotate(0, 1, i).unwrap());
            assert_eq!(11, s.rotate(0, 2, i).unwrap());
            assert_eq!(15, s.rotate(0, 3, i).unwrap());
        }
    }
    // SECOND ROW ----------------------
    for i in 0..4 {
        if i % 2 == 0 {
            assert_eq!(4, s.rotate(1, 0, i).unwrap());
            assert_eq!(5, s.rotate(1, 1, i).unwrap());
            assert_eq!(6, s.rotate(1, 2, i).unwrap());
            assert_eq!(7, s.rotate(1, 3, i).unwrap());
        } else {
            assert_eq!(2, s.rotate(1, 0, i).unwrap());
            assert_eq!(6, s.rotate(1, 1, i).unwrap());
            assert_eq!(10, s.rotate(1, 2, i).unwrap());
            assert_eq!(14, s.rotate(1, 3, i).unwrap());
        }
    }
    // THIRD ROW ----------------------
    for i in 0..4 {
        if i % 2 == 0 {
            assert_eq!(8, s.rotate(2, 0, i).unwrap());
            assert_eq!(9, s.rotate(2, 1, i).unwrap());
            assert_eq!(10, s.rotate(2, 2, i).unwrap());
            assert_eq!(11, s.rotate(2, 3, i).unwrap());
        } else {
            assert_eq!(1, s.rotate(2, 0, i).unwrap());
            assert_eq!(5, s.rotate(2, 1, i).unwrap());
            assert_eq!(9, s.rotate(2, 2, i).unwrap());
            assert_eq!(13, s.rotate(2, 3, i).unwrap());
        }
    }
    // FOURTH ROW ----------------------
    for i in 0..4 {
        if i % 2 == 0 {
            assert_eq!(12, s.rotate(3, 0, i).unwrap());
            assert_eq!(13, s.rotate(3, 1, i).unwrap());
            assert_eq!(14, s.rotate(3, 2, i).unwrap());
            assert_eq!(15, s.rotate(3, 3, i).unwrap());
        } else {
            assert_eq!(0, s.rotate(3, 0, i).unwrap());
            assert_eq!(4, s.rotate(3, 1, i).unwrap());
            assert_eq!(8, s.rotate(3, 2, i).unwrap());
            assert_eq!(12, s.rotate(3, 3, i).unwrap());
        }
    }
}

fn numbered(width: usize, rot_type: RotationType) -> Shape {
    let cells: Vec<usize> = (0..width * width).collect();
    Shape::new(cells, width, BLACK, rot_type)
}

fn shown(shape: &Shape, rot: isize) -> Vec<usize> {
    let mut cells = Vec::new();
    for i in 0..shape.len() {
        cells.push(shape.rotate(shape.row(i), shape.col(i), rot).unwrap());
    }
    cells
}

#[test]
fn rotate_cell_follows_the_quarter_turn_formulas() {
    let free = RotationType::SRS;
    assert_eq!(Ok((1, 2)), free.rotate_cell(1, 2, 0, 4));
    assert_eq!(Ok((1, 1)), free.rotate_cell(1, 2, 1, 4));
    assert_eq!(Ok((2, 1)), free.rotate_cell(1, 2, 2, 4));
    assert_eq!(Ok((2, 2)), free.rotate_cell(1, 2, 3, 4));
    assert_eq!(Ok((3, 0)), free.rotate_cell(0, 0, 1, 4));
    assert_eq!(Ok((3, 3)), free.rotate_cell(0, 0, 2, 4));
    assert_eq!(Ok((0, 3)), free.rotate_cell(0, 0, 3, 4));

    let two_state = RotationType::NES;
    assert_eq!(Ok((1, 2)), two_state.rotate_cell(1, 2, 0, 4));
    assert_eq!(Ok((2, 2)), two_state.rotate_cell(1, 2, 1, 4));
    assert_eq!(Ok((1, 2)), two_state.rotate_cell(1, 2, 2, 4));
    assert_eq!(Ok((2, 2)), two_state.rotate_cell(1, 2, 3, 4));

    let fixed = RotationType::STILL;
    for rot in 0..4 {
        assert_eq!(Ok((1, 2)), fixed.rotate_cell(1, 2, rot, 4));
    }
}

#[test]
fn rotation_outside_zero_to_three_is_refused() {
    for rot_type in [RotationType::SRS, RotationType::NES, RotationType::STILL] {
        let s = numbered(3, rot_type);
        for rot in [-1, 4, 5, 100, isize::MIN, isize::MAX] {
            assert_eq!(Err(EngineError::InvalidRotation), s.rotate(1, 1, rot));
            assert_eq!(Err(EngineError::InvalidRotation), rot_type.rotate_cell(1, 1, rot, 3));
        }
        for rot in 0..4 {
            assert!(s.rotate(1, 1, rot).is_ok());
        }
    }
}

#[test]
fn rotation_only_relocates_cells() {
    for rot_type in [RotationType::SRS, RotationType::NES, RotationType::STILL] {
        for width in 1..6 {
            let s = numbered(width, rot_type);
            for rot in 0..4 {
                let mut cells = shown(&s, rot);
                cells.sort();
                let stored: Vec<usize> = (0..width * width).collect();
                assert_eq!(stored, cells);
            }
        }
    }
}

#[test]
fn four_quarter_turns_are_four_different_views() {
    let s = numbered(3, RotationType::SRS);
    assert_eq!(vec![0, 1, 2, 3, 4, 5, 6, 7, 8], shown(&s, 0));
    assert_eq!(vec![6, 3, 0, 7, 4, 1, 8, 5, 2], shown(&s, 1));
    assert_eq!(vec![8, 7, 6, 5, 4, 3, 2, 1, 0], shown(&s, 2));
    assert_eq!(vec![2, 5, 8, 1, 4, 7, 0, 3, 6], shown(&s, 3));
}

#[test]
fn two_state_pieces_show_two_views() {
    let s = numbered(3, RotationType::NES);
    let free = numbered(3, RotationType::SRS);
    assert_eq!(shown(&s, 0), shown(&s, 2));
    assert_eq!(shown(&s, 1), shown(&s, 3));
    assert_eq!(shown(&free, 0), shown(&s, 0));
    assert_eq!(shown(&free, 3), shown(&s, 1));
    assert_ne!(shown(&s, 0), shown(&s, 1));
}

#[test]
fn shape_accessors_hand_back_what_was_stored() {
    let s = Shape::new(vec![0, 1, 1, 0, 0, 1, 1, 0], 4, RED, RotationType::STILL);
    assert_eq!(4, s.width());
    assert_eq!(8, s.len());
    assert_eq!(RED, s.color());
    assert_eq!(&RotationType::STILL, s.rot_type());
    assert_eq!(0, s.row_offset());
    assert_eq!(0, s.row(3));
    assert_eq!(1, s.row(4));
    assert_eq!(1, s.row(7));
    assert_eq!(3, s.col(3));
    assert_eq!(0, s.col(4));
    assert_eq!(3, s.col(7));
    assert!(!s.is_square());

    let moved = s.set_row_offset(2);
    assert_eq!(2, moved.row_offset());
    assert_eq!(4, moved.width());
    assert_eq!(8, moved.len());
    assert_eq!(RED, moved.color());

    let copy = moved.clone();
    assert_eq!(2, copy.row_offset());
    assert_eq!(4, copy.width());
    assert_eq!(RED, copy.color());
    assert_eq!(&RotationType::STILL, copy.rot_type());
    assert_eq!(shown(&moved, 0), shown(&copy, 0));
}

#[test]
fn is_square_compares_length_with_width_squared() {
    assert!(Shape::new(vec![], 0, BLACK, RotationType::SRS).is_square());
    assert!(Shape::new(vec![7], 1, BLACK, RotationType::SRS).is_square());
    assert!(Shape::new(vec![0; 9], 3, BLACK, RotationType::SRS).is_square());
    assert!(Shape::new(vec![0; 16], 4, BLACK, RotationType::SRS).is_square());
    assert!(!Shape::new(vec![0; 12], 4, BLACK, RotationType::SRS).is_square());
    assert!(!Shape::new(vec![0; 12], 3, BLACK, RotationType::SRS).is_square());
    assert!(!Shape::new(vec![0; 10], 3, BLACK, RotationType::SRS).is_square());
    assert!(!Shape::new(vec![0; 3], 0, BLACK, RotationType::SRS).is_square());
    assert!(!Shape::new(vec![], 2, BLACK, RotationType::SRS).is_square());
}

#[test]
fn modern_catalog_holds_the_seven_pieces() {
    let shapes = RotationSystem::SRS.build_shapes();
    let cells: Vec<Vec<usize>> = vec![
        vec![1, 0, 0, 1, 1, 1, 0, 0, 0],
        vec![0, 0, 1, 1, 1, 1, 0, 0, 0],
        vec![0, 1, 1, 1, 1, 0, 0, 0, 0],
        vec![1, 1, 0, 0, 1, 1, 0, 0, 0],
        vec![0, 0, 0, 0, 1, 1, 1, 1, 0, 0, 0, 0, 0, 0, 0, 0],
        vec![0, 1, 0, 1, 1, 1, 0, 0, 0],
        vec![0, 1, 1, 0, 0, 1, 1, 0, 0, 0, 0, 0, 0, 0, 0, 0],
    ];
    let widths = [3, 3, 3, 3, 4, 3, 4];
    let kinds = [
        RotationType::SRS,
        RotationType::SRS,
        RotationType::SRS,
        RotationType::SRS,
        RotationType::SRS,
        RotationType::SRS,
        RotationType::STILL,
    ];
    let colors = [
        macroquad::color::PINK,
        macroquad::color::BLUE,
        macroquad::color::GREEN,
        macroquad::color::ORANGE,
        macroquad::color::RED,
        macroquad::color::PURPLE,
        macroquad::color::YELLOW,
    ];
    assert_eq!(7, shapes.len());
    for i in 0..7 {
        assert_eq!(widths[i], shapes[i].width());
        assert_eq!(cells[i], shown(&shapes[i], 0));
        assert_eq!(&kinds[i], shapes[i].rot_type());
        assert_eq!(0, shapes[i].row_offset());
        assert_eq!(colors[i], shapes[i].color());
        assert!(shapes[i].is_square());
    }
}

#[test]
fn classic_catalog_holds_the_seven_pieces() {
    let shapes = RotationSystem::NES.build_shapes();
    let cells: Vec<Vec<usize>> = vec![
        vec![0, 0, 0, 1, 1, 1, 0, 0, 1],
        vec![0, 0, 0, 1, 1, 1, 1, 0, 0],
        vec![0, 0, 0, 0, 1, 1, 1, 1, 0],
        vec![0, 0, 0, 1, 1, 0, 0, 1, 1],
        vec![0, 0, 0, 0, 0, 0, 0, 0, 1, 1, 1, 1, 0, 0, 0, 0],
        vec![0, 0, 0, 1, 1, 1, 0, 1, 0],
        vec![0, 0, 0, 0, 0, 1, 1, 0, 0, 1, 1, 0, 0, 0, 0, 0],
    ];
    let widths = [3, 3, 3, 3, 4, 3, 4];
    let kinds = [
        RotationType::SRS,
        RotationType::SRS,
        RotationType::NES,
        RotationType::NES,
        RotationType::NES,
        RotationType::SRS,
        RotationType::STILL,
    ];
    let offsets = [1, 1, 1, 1, 0, 1, 1];
    let colors = [
        macroquad::color::PINK,
        macroquad::color::BLUE,
        macroquad::color::GREEN,
        macroquad::color::ORANGE,
        macroquad::color::RED,
        macroquad::color::PURPLE,
        macroquad::color::YELLOW,
    ];
    assert_eq!(7, shapes.len());
    for i in 0..7 {
        assert_eq!(widths[i], shapes[i].width());
        assert_eq!(cells[i], shown(&shapes[i], 0));
        assert_eq!(&kinds[i], shapes[i].rot_type());
        assert_eq!(offsets[i], shapes[i].row_offset());
        assert_eq!(colors[i], shapes[i].color());
        assert!(shapes[i].is_square());
    }
}

#[test]
fn every_catalog_piece_keeps_its_four_cells_under_rotation() {
    for system in [RotationSystem::SRS, RotationSystem::NES] {
        for shape in system.build_shapes() {
            for rot in 0..4 {
                let filled = shown(&shape, rot).iter().filter(|v| **v != 0).count();
                assert_eq!(4, filled);
            }
        }
    }
}

#[test]
fn check_catalog_accepts_the_built_in_catalogs() {
    assert_eq!(Ok(()), check_catalog(&RotationSystem::SRS.build_shapes()));
    assert_eq!(Ok(()), check_catalog(&RotationSystem::NES.build_shapes()));
    assert_eq!(Ok(()), check_catalog(&Vec::new()));
}

#[test]
fn check_catalog_refuses_a_matrix_that_does_not_fill_its_box() {
    let mut shapes = RotationSystem::SRS.build_shapes();
    shapes.push(Shape::new(vec![0, 1, 1, 0, 0, 1, 1, 0], 4, BLACK, RotationType::STILL));
    assert_eq!(Err(EngineError::MalformedGeometry), check_catalog(&shapes));

    let short = vec![Shape::new(vec![1, 1, 1], 2, BLACK, RotationType::SRS)];
    assert_eq!(Err(EngineError::MalformedGeometry), check_catalog(&short));
    let long = vec![Shape::new(vec![1, 1, 1, 1, 1], 2, BLACK, RotationType::SRS)];
    assert_eq!(Err(EngineError::MalformedGeometry), check_catalog(&long));
}

#[test]
fn factory_shows_the_piece_it_hands_out_next() {
    let mut factory = ShapeFactory::new(RotationSystem::SRS, 7);
    assert_eq!(&RotationSystem::SRS, factory.current_rotation_system());
    assert_eq!(7, factory.shapes().len());
    for _ in 0..200 {
        let upcoming = factory.next_shape();
        let again = factory.next_shape();
        let drawn = factory.current_shape();
        assert_eq!(shown(&upcoming, 0), shown(&again, 0));
        assert_eq!(shown(&upcoming, 0), shown(&drawn, 0));
        assert_eq!(upcoming.width(), drawn.width());
        assert_eq!(upcoming.color(), drawn.color());
        assert_eq!(upcoming.rot_type(), drawn.rot_type());
        assert_eq!(upcoming.row_offset(), drawn.row_offset());
        let known = factory
            .shapes()
            .iter()
            .any(|s| shown(s, 0) == shown(&drawn, 0) && s.color() == drawn.color());
        assert!(known);
    }
}

#[test]
fn factory_hands_out_copies() {
    let mut factory = ShapeFactory::new(RotationSystem::SRS, 11);
    let drawn = factory.current_shape().set_row_offset(9);
    assert_eq!(9, drawn.row_offset());
    for shape in factory.shapes() {
        assert_eq!(0, shape.row_offset());
    }
}

#[test]
fn factory_switches_catalog_and_generator_together() {
    let mut factory = ShapeFactory::new(RotationSystem::SRS, 3);
    factory.update_rotation_system(RotationSystem::NES);
    assert_eq!(&RotationSystem::NES, factory.current_rotation_system());
    let expected = RotationSystem::NES.build_shapes();
    assert_eq!(expected.len(), factory.shapes().len());
    for i in 0..expected.len() {
        assert_eq!(shown(&expected[i], 0), shown(&factory.shapes()[i], 0));
        assert_eq!(expected[i].row_offset(), factory.shapes()[i].row_offset());
        assert_eq!(expected[i].rot_type(), factory.shapes()[i].rot_type());
    }
    for _ in 0..100 {
        let upcoming = factory.next_shape();
        let drawn = factory.current_shape();
        assert_eq!(shown(&upcoming, 0), shown(&drawn, 0));
        assert_eq!(upcoming.row_offset(), drawn.row_offset());
    }
    factory.update_rotation_system(RotationSystem::SRS);
    assert_eq!(&RotationSystem::SRS, factory.current_rotation_system());
    assert_eq!(0, factory.current_shape().row_offset());
}
