//! Scan capture rules: the auto-snap decision and assembling the six
//! captured sides into a cube.

use cube_core::capture::{assemble_scan, detected_cells, differing_cells, same_side, snap_step, SNAP_TICKS};
use cube_core::{Face, FaceletCube};

fn side(class: u8) -> [Option<u8>; 9] {
    [Some(class); 9]
}

#[test]
fn counting_cells() {
    let mut a = side(2);
    assert_eq!(detected_cells(&a), 9);
    assert_eq!(differing_cells(&a, &side(2)), 0);
    a[0] = None;
    a[8] = Some(4);
    assert_eq!(detected_cells(&a), 8);
    assert_eq!(differing_cells(&a, &side(2)), 2);
    assert_eq!(differing_cells(&side(1), &side(2)), 9);
}

#[test]
fn steady_looks_count_up_to_a_snap() {
    let live = side(3);
    let mut ticks = 0u8;
    for n in 1..=SNAP_TICKS {
        let (t, steady, snap) = snap_step(ticks, &live, &live, &None, true);
        assert!(steady);
        assert_eq!(t, n);
        assert_eq!(snap, n >= SNAP_TICKS);
        ticks = t;
    }
    assert_eq!(snap_step(u8::MAX, &live, &live, &None, true).0, u8::MAX);
}

#[test]
fn unsteady_looks_reset_the_count() {
    let live = side(3);
    // Not aligned.
    assert_eq!(snap_step(9, &live, &live, &None, false), (0, false, false));
    // Three cells flickered since the previous look.
    let mut prev = live;
    prev[0] = Some(1);
    prev[1] = Some(1);
    prev[2] = Some(1);
    assert_eq!(snap_step(9, &prev, &live, &None, true), (0, false, false));
    // Two flickering cells are tolerated.
    prev[2] = Some(3);
    assert_eq!(snap_step(9, &prev, &live, &None, true), (10, true, false));
    // Only six cells have a color.
    let mut dark = live;
    dark[0] = None;
    dark[1] = None;
    dark[2] = None;
    assert_eq!(snap_step(9, &dark, &dark, &None, true), (0, false, false));
    // Still the side captured last.
    assert_eq!(snap_step(9, &live, &live, &Some(live), true), (0, false, false));
    assert!(same_side(2, &Some(live), &live));
    assert!(!same_side(6, &Some(live), &live));
    assert!(!same_side(2, &None, &live));
    assert!(!same_side(2, &Some(side(1)), &live));
}

#[test]
fn captures_assemble_into_the_cube() {
    // Capture k (F R B D L U) shows class k everywhere: the solved cube.
    let order = [Face::F, Face::R, Face::B, Face::D, Face::L, Face::U];
    let mut caps = [[None; 9]; 6];
    for k in 0..6 {
        caps[k] = side(k as u8);
    }
    assert_eq!(assemble_scan(&caps), FaceletCube::solved());
    // A cell of F's capture with R's class shows R, on F's first facelet.
    caps[0][0] = Some(1);
    let c = assemble_scan(&caps);
    assert_eq!(c.0[Face::F.index() * 9], Face::R);
    // L's capture is seen a quarter turned: its first camera cell lands on
    // facelet offset 6.
    caps[4][0] = Some(5);
    let c = assemble_scan(&caps);
    assert_eq!(c.0[Face::L.index() * 9 + 6], Face::U);
    // D's capture is seen turned half way.
    caps[3][0] = Some(2);
    let c = assemble_scan(&caps);
    assert_eq!(c.0[Face::D.index() * 9 + 8], Face::B);
    // A class no center voted falls back to the captured face; centers
    // always show their own capture's face.
    caps[5][4] = None;
    caps[2][1] = Some(5);
    let c = assemble_scan(&caps);
    assert_eq!(c.0[Face::B.index() * 9 + 1], Face::B);
    assert_eq!(c.0[Face::U.index() * 9 + 4], Face::U);
    for (k, f) in order.iter().enumerate() {
        assert_eq!(c.0[f.index() * 9 + 4], *f, "center of capture {k}");
    }
}
