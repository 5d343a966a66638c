//! Scan capture rules: when the camera has held one side steady long
//! enough to snap it, and how the six captured sides assemble into a cube.
//!
//! Sides are captured in the order F R B D L U (the user turns the cube
//! between captures); a capture is nine voted palette classes in camera
//! grid order, `None` where no color won the vote.

use vstd::prelude::*;
use crate::facelet::{Face, FaceletCube};

verus! {

/// Consecutive steady ticks before a side is snapped.
pub const SNAP_TICKS: u8 = 15;

/// Number of cells whose votes differ between two looks at a side.
pub open spec fn differing_spec(a: [Option<u8>; 9], b: [Option<u8>; 9], n: int) -> int
    decreases n,
{
    if n <= 0 {
        0
    } else {
        differing_spec(a, b, n - 1) + if a[n - 1] != b[n - 1] { 1int } else { 0 }
    }
}

/// Number of cells with a voted color.
pub open spec fn detected_spec(a: [Option<u8>; 9], n: int) -> int
    decreases n,
{
    if n <= 0 {
        0
    } else {
        detected_spec(a, n - 1) + if a[n - 1] is Some { 1int } else { 0 }
    }
}

/// How many of the nine cells differ between two looks at a side.
pub fn differing_cells(a: &[Option<u8>; 9], b: &[Option<u8>; 9]) -> (r: usize)
    ensures
        r as int == differing_spec(*a, *b, 9),
{
    let mut n: usize = 0;
    let mut i: usize = 0;
    while i < 9
        invariant
            0 <= i <= 9,
            n as int == differing_spec(*a, *b, i as int),
            n <= i,
        decreases 9 - i,
    {
        if a[i] != b[i] {
            n += 1;
        }
        i += 1;
    }
    n
}

/// How many of the nine cells have a voted color.
pub fn detected_cells(a: &[Option<u8>; 9]) -> (r: usize)
    ensures
        r as int == detected_spec(*a, 9),
{
    let mut n: usize = 0;
    let mut i: usize = 0;
    while i < 9
        invariant
            0 <= i <= 9,
            n as int == detected_spec(*a, i as int),
            n <= i,
        decreases 9 - i,
    {
        if a[i].is_some() {
            n += 1;
        }
        i += 1;
    }
    n
}

/// A look at a side counts as steady when at least seven cells have a
/// color, at most two changed since the previous look, the camera has
/// turned away from the side captured last (at least three cells differ
/// from it), and the grid is aligned.
pub open spec fn steady_spec(
    prev_live: [Option<u8>; 9],
    live: [Option<u8>; 9],
    last_captured: Option<[Option<u8>; 9]>,
    aligned: bool,
) -> bool {
    &&& detected_spec(live, 9) >= 7
    &&& differing_spec(prev_live, live, 9) <= 2
    &&& match last_captured {
        Some(prev) => differing_spec(prev, live, 9) >= 3,
        None => true,
    }
    &&& aligned
}

/// One classification tick of the auto-snap: the new count of steady
/// ticks (one more, saturating, on a steady look; zero otherwise), whether
/// the look was steady (its evidence is then kept), and whether to snap
/// the side now.
pub fn snap_step(
    ticks: u8,
    prev_live: &[Option<u8>; 9],
    live: &[Option<u8>; 9],
    last_captured: &Option<[Option<u8>; 9]>,
    aligned: bool,
) -> (r: (u8, bool, bool))
    ensures
        r.1 == steady_spec(*prev_live, *live, *last_captured, aligned),
        r.0 == (if r.1 {
            if ticks == u8::MAX {
                u8::MAX
            } else {
                (ticks + 1) as u8
            }
        } else {
            0u8
        }),
        r.2 == (r.0 >= SNAP_TICKS),
{
    let all_detected = detected_cells(live) >= 7;
    let same = differing_cells(prev_live, live) <= 2;
    let rotated_away = match last_captured {
        Some(prev) => differing_cells(prev, live) >= 3,
        None => true,
    };
    let steady = all_detected && same && rotated_away && aligned;
    let next = if steady {
        ticks.saturating_add(1)
    } else {
        0
    };
    (next, steady, next >= SNAP_TICKS)
}

/// The camera still shows the side captured last (fewer than three cells
/// differ from it) while sides remain to capture.
pub fn same_side(face_idx: usize, last_captured: &Option<[Option<u8>; 9]>, live: &[Option<u8>; 9]) -> (r:
    bool)
    ensures
        r == (face_idx < 6 && match *last_captured {
            Some(prev) => differing_spec(prev, *live, 9) < 3,
            None => false,
        }),
{
    if face_idx >= 6 {
        return false;
    }
    match last_captured {
        Some(prev) => differing_cells(prev, live) < 3,
        None => false,
    }
}

/// The face captured `k`-th: F R B D L U.
pub open spec fn capture_face_spec(k: int) -> Face {
    if k == 0 {
        Face::F
    } else if k == 1 {
        Face::R
    } else if k == 2 {
        Face::B
    } else if k == 3 {
        Face::D
    } else if k == 4 {
        Face::L
    } else {
        Face::U
    }
}

/// Which capture shows face `f`.
pub open spec fn capture_of(f: Face) -> int {
    match f {
        Face::F => 0,
        Face::R => 1,
        Face::B => 2,
        Face::D => 3,
        Face::L => 4,
        Face::U => 5,
    }
}

/// Where camera-grid cell `p` of capture `k` lands on its face: D is seen
/// turned half way, L a quarter; the others as they are.
pub open spec fn grid_facelet(k: int, p: int) -> int {
    if k == 3 {
        8 - p
    } else if k == 4 {
        if p == 0 {
            6
        } else if p == 1 {
            3
        } else if p == 2 {
            0
        } else if p == 3 {
            7
        } else if p == 4 {
            4
        } else if p == 5 {
            1
        } else if p == 6 {
            8
        } else if p == 7 {
            5
        } else {
            2
        }
    } else {
        p
    }
}

/// The camera-grid cell of capture `k` that lands on facelet offset `o`.
pub open spec fn grid_cell(k: int, o: int) -> int {
    if k == 3 {
        8 - o
    } else if k == 4 {
        if o == 0 {
            2
        } else if o == 1 {
            5
        } else if o == 2 {
            8
        } else if o == 3 {
            1
        } else if o == 4 {
            4
        } else if o == 5 {
            7
        } else if o == 6 {
            0
        } else if o == 7 {
            3
        } else {
            6
        }
    } else {
        o
    }
}

/// The face of the first capture (from `k` on) whose center voted class
/// `c`.
pub open spec fn center_face_from(captured: [[Option<u8>; 9]; 6], c: int, k: int) -> Option<Face>
    decreases 6 - k,
{
    if k >= 6 || k < 0 {
        None
    } else if captured[k][4] == Some(c as u8) {
        Some(capture_face_spec(k))
    } else {
        center_face_from(captured, c, k + 1)
    }
}

/// The face a captured cell shows: the face whose capture's center voted
/// the cell's class (the first such capture), else the captured face
/// itself; a center always shows its own capture's face.
pub open spec fn cell_face(captured: [[Option<u8>; 9]; 6], k: int, p: int) -> Face {
    if p == 4 {
        capture_face_spec(k)
    } else {
        match captured[k][p] {
            Some(c) => match center_face_from(captured, c as int, 0) {
                Some(f) => f,
                None => capture_face_spec(k),
            },
            None => capture_face_spec(k),
        }
    }
}

/// The cube the six captures show.
pub open spec fn assembled_spec(captured: [[Option<u8>; 9]; 6]) -> Seq<Face> {
    Seq::new(
        54,
        |i: int|
            {
                let k = capture_of(Face::from_ord(i / 9));
                cell_face(captured, k, grid_cell(k, i % 9))
            },
    )
}

fn capture_face(k: usize) -> (f: Face)
    requires
        k < 6,
    ensures
        f == capture_face_spec(k as int),
{
    if k == 0 {
        Face::F
    } else if k == 1 {
        Face::R
    } else if k == 2 {
        Face::B
    } else if k == 3 {
        Face::D
    } else if k == 4 {
        Face::L
    } else {
        Face::U
    }
}

fn capture_index(f: Face) -> (k: usize)
    ensures
        k as int == capture_of(f),
        k < 6,
{
    match f {
        Face::F => 0,
        Face::R => 1,
        Face::B => 2,
        Face::D => 3,
        Face::L => 4,
        Face::U => 5,
    }
}

fn cell_of(k: usize, o: usize) -> (p: usize)
    requires
        k < 6,
        o < 9,
    ensures
        p as int == grid_cell(k as int, o as int),
        p < 9,
{
    if k == 3 {
        8 - o
    } else if k == 4 {
        if o == 0 {
            2
        } else if o == 1 {
            5
        } else if o == 2 {
            8
        } else if o == 3 {
            1
        } else if o == 4 {
            4
        } else if o == 5 {
            7
        } else if o == 6 {
            0
        } else if o == 7 {
            3
        } else {
            6
        }
    } else {
        o
    }
}

/// Law: every camera cell lands on exactly one facelet: cell `p` of
/// capture `k` is at offset `grid_facelet(k, p)` of face
/// `capture_face_spec(k)`, and reading that facelet back gives the cell.
pub proof fn lemma_capture_layout(k: int, p: int)
    requires
        0 <= k < 6,
        0 <= p < 9,
    ensures
        0 <= grid_facelet(k, p) < 9,
        capture_of(capture_face_spec(k)) == k,
        grid_cell(k, grid_facelet(k, p)) == p,
{
}

/// Builds the cube from the six captures (see `assembled_spec`).
pub fn assemble_scan(captured: &[[Option<u8>; 9]; 6]) -> (r: FaceletCube)
    requires
        forall|k: int, p: int| 0 <= k < 6 && 0 <= p < 9 ==> (#[trigger] captured[k][p] matches Some(c) ==> c < 6),
    ensures
        r@ == assembled_spec(*captured),
{
    let mut class_face: [Option<Face>; 6] = [None; 6];
    let mut k: usize = 6;
    while k > 0
        invariant
            0 <= k <= 6,
            forall|c: int| 0 <= c < 6 ==> #[trigger] class_face[c] == center_face_from(*captured, c, k as int),
            forall|k: int, p: int| 0 <= k < 6 && 0 <= p < 9 ==> (#[trigger] captured[k][p] matches Some(c) ==> c < 6),
        decreases k,
    {
        k -= 1;
        if let Some(c) = captured[k][4] {
            let ghost before = class_face;
            class_face[c as usize] = Some(capture_face(k));
            proof {
                assert forall|d: int| 0 <= d < 6 implies #[trigger] class_face[d] == center_face_from(
                    *captured,
                    d,
                    k as int,
                ) by {
                    if d != c {
                        assert(class_face[d] == before[d]);
                    }
                }
            }
        }
    }
    let mut cube = FaceletCube::solved();
    let mut i: usize = 0;
    while i < 54
        invariant
            0 <= i <= 54,
            cube.0@.len() == 54,
            forall|c: int| 0 <= c < 6 ==> #[trigger] class_face[c] == center_face_from(*captured, c, 0),
            forall|k: int, p: int| 0 <= k < 6 && 0 <= p < 9 ==> (#[trigger] captured[k][p] matches Some(c) ==> c < 6),
            forall|j: int| 0 <= j < i ==> #[trigger] cube.0@[j] == assembled_spec(*captured)[j],
        decreases 54 - i,
    {
        let face = Face::from_index(i / 9);
        let k = capture_index(face);
        let p = cell_of(k, i % 9);
        let shown = if p == 4 {
            capture_face(k)
        } else {
            match captured[k][p] {
                Some(c) => match class_face[c as usize] {
                    Some(f) => f,
                    None => capture_face(k),
                },
                None => capture_face(k),
            }
        };
        cube.0[i] = shown;
        i += 1;
    }
    assert(cube@ =~= assembled_spec(*captured));
    cube
}

} // verus!
