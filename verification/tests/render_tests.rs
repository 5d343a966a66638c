//! Cubie geometry used by the renderer.

use cube_core::render::{cell_layer, mask_for_move, sticker_table};
use cube_core::ui::{turn_arrows, ArrowDir};
use cube_core::{Alg, Face, Turns};

#[test]
fn masks_select_expected_cubie_counts() {
    let count = |s: &str| mask_for_move(Alg::parse(s).unwrap().0[0]).count_ones();
    assert_eq!(count("R"), 9);
    assert_eq!(count("Rw"), 18);
    assert_eq!(count("M"), 9);
    assert_eq!(count("x"), 27);
    assert_eq!(count("U'"), 9);
    assert_eq!(count("E2"), 9);
}

#[test]
fn every_surface_cubie_has_expected_sticker_count() {
    let table = sticker_table();
    let mut corner = 0;
    let mut edge = 0;
    let mut center = 0;
    let mut core_ = 0;
    for row in table.iter() {
        match row.iter().flatten().count() {
            3 => corner += 1,
            2 => edge += 1,
            1 => center += 1,
            0 => core_ += 1,
            n => panic!("cubie with {n} stickers"),
        }
    }
    assert_eq!((corner, edge, center, core_), (8, 12, 6, 1));
}

#[test]
fn r_mask_is_the_right_layer() {
    // Grid index (qx+1)*9 + (qy+1)*3 + (qz+1): the R layer is qx = 1,
    // indices 18..27.
    assert_eq!(mask_for_move(Alg::parse("R").unwrap().0[0]), 0x7FC0000);
    assert_eq!(mask_for_move(Alg::parse("L").unwrap().0[0]), 0x1FF);
}

#[test]
fn cell_select_picks_face_or_touching_side() {
    // Center cell of F: F itself.
    assert_eq!(cell_layer(Face::F, [0, 0, 1]), Face::F);
    // Edge cells of F select the side they touch.
    assert_eq!(cell_layer(Face::F, [-1, 0, 1]), Face::L);
    assert_eq!(cell_layer(Face::F, [1, 0, 1]), Face::R);
    assert_eq!(cell_layer(Face::F, [0, 1, 1]), Face::U);
    assert_eq!(cell_layer(Face::F, [0, -1, 1]), Face::D);
    // Corner cells are ambiguous: the tapped face.
    assert_eq!(cell_layer(Face::F, [1, 1, 1]), Face::F);
    // On U, the coordinate along U's own axis does not count.
    assert_eq!(cell_layer(Face::U, [0, 1, -1]), Face::B);
    assert_eq!(cell_layer(Face::U, [0, 1, 0]), Face::U);
}

#[test]
fn turn_arrows_follow_the_screen_motion() {
    assert_eq!(
        turn_arrows(true, true),
        [(ArrowDir::Left, Turns::Ccw), (ArrowDir::Right, Turns::Cw)]
    );
    assert_eq!(
        turn_arrows(true, false),
        [(ArrowDir::Left, Turns::Cw), (ArrowDir::Right, Turns::Ccw)]
    );
    assert_eq!(
        turn_arrows(false, true),
        [(ArrowDir::Up, Turns::Cw), (ArrowDir::Down, Turns::Ccw)]
    );
    assert_eq!(
        turn_arrows(false, false),
        [(ArrowDir::Up, Turns::Ccw), (ArrowDir::Down, Turns::Cw)]
    );
}
