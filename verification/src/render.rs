//! Cubie-level geometry for rendering: which cubies a move turns, and
//! which facelet each cubie face shows.

use vstd::prelude::*;
use crate::cases::p2;
use crate::facelet::{cubie_grid_spec, face_of_spec, grid_of, sticker_index, Face};
use crate::moves::{face_axis, Dir, Move, RotAxis, SliceKind, Turns};

verus! {

/// Which layers of an axis a move turns.
#[derive(Clone, Copy, PartialEq, Eq, Structural, Debug)]
pub enum LayerSel {
    Face,
    Wide,
    Mid,
    All,
}

/// Direction of a face as an integer vector.
pub open spec fn face_vec(f: Face) -> (int, int, int) {
    match f {
        Face::U => (0, 1, 0),
        Face::R => (1, 0, 0),
        Face::F => (0, 0, 1),
        Face::D => (0, -1, 0),
        Face::L => (-1, 0, 0),
        Face::B => (0, 0, -1),
    }
}

/// Signed quarter turns: clockwise 1, half 2, counter-clockwise -1.
pub open spec fn signed_turns(t: Turns) -> int {
    match t {
        Turns::Cw => 1,
        Turns::Half => 2,
        Turns::Ccw => -1,
    }
}

/// A move's oriented axis, signed quarter turns and layer selector.
pub open spec fn move_dir_spec(mv: Move) -> ((int, int, int), int, LayerSel) {
    match mv {
        Move::Face(f, t) => (face_vec(f), signed_turns(t), LayerSel::Face),
        Move::Wide(f, t) => (face_vec(f), signed_turns(t), LayerSel::Wide),
        Move::Slice(SliceKind::M, t) => ((-1, 0, 0), signed_turns(t), LayerSel::Mid),
        Move::Slice(SliceKind::E, t) => ((0, -1, 0), signed_turns(t), LayerSel::Mid),
        Move::Slice(SliceKind::S, t) => ((0, 0, 1), signed_turns(t), LayerSel::Mid),
        Move::Rot(RotAxis::X, t) => ((1, 0, 0), signed_turns(t), LayerSel::All),
        Move::Rot(RotAxis::Y, t) => ((0, 1, 0), signed_turns(t), LayerSel::All),
        Move::Rot(RotAxis::Z, t) => ((0, 0, 1), signed_turns(t), LayerSel::All),
    }
}

fn face_dir(f: Face) -> (d: [i8; 3])
    ensures
        (d[0] as int, d[1] as int, d[2] as int) == face_vec(f),
{
    match f {
        Face::U => [0, 1, 0],
        Face::R => [1, 0, 0],
        Face::F => [0, 0, 1],
        Face::D => [0, -1, 0],
        Face::L => [-1, 0, 0],
        Face::B => [0, 0, -1],
    }
}

fn signed(t: Turns) -> (s: i8)
    ensures
        s as int == signed_turns(t),
{
    match t {
        Turns::Cw => 1,
        Turns::Half => 2,
        Turns::Ccw => -1,
    }
}

/// The turn amount of a move.
pub fn turns_of(mv: Move) -> (t: Turns)
    ensures
        t == mv.turns_spec(),
{
    match mv {
        Move::Face(_, t) | Move::Wide(_, t) | Move::Slice(_, t) | Move::Rot(_, t) => t,
    }
}

/// (oriented axis as an integer vector, signed quarter turns, layer
/// selector).
pub fn move_dir(mv: Move) -> (r: ([i8; 3], i8, LayerSel))
    ensures
        ((r.0[0] as int, r.0[1] as int, r.0[2] as int), r.1 as int, r.2) == move_dir_spec(mv),
{
    match mv {
        Move::Face(f, t) => (face_dir(f), signed(t), LayerSel::Face),
        Move::Wide(f, t) => (face_dir(f), signed(t), LayerSel::Wide),
        Move::Slice(SliceKind::M, t) => ([-1, 0, 0], signed(t), LayerSel::Mid),
        Move::Slice(SliceKind::E, t) => ([0, -1, 0], signed(t), LayerSel::Mid),
        Move::Slice(SliceKind::S, t) => ([0, 0, 1], signed(t), LayerSel::Mid),
        Move::Rot(RotAxis::X, t) => ([1, 0, 0], signed(t), LayerSel::All),
        Move::Rot(RotAxis::Y, t) => ([0, 1, 0], signed(t), LayerSel::All),
        Move::Rot(RotAxis::Z, t) => ([0, 0, 1], signed(t), LayerSel::All),
    }
}

/// Grid coordinate (each component -1, 0 or 1) of cubie grid index `i`.
pub open spec fn grid_coord_spec(i: int) -> (int, int, int) {
    (i / 9 - 1, (i / 3) % 3 - 1, i % 3 - 1)
}

pub fn grid_coord(i: usize) -> (q: [i8; 3])
    requires
        i < 27,
    ensures
        (q[0] as int, q[1] as int, q[2] as int) == grid_coord_spec(i as int),
        forall|k: int| 0 <= k < 3 ==> -1 <= #[trigger] q[k] <= 1,
{
    [(i / 9) as i8 - 1, ((i / 3) % 3) as i8 - 1, (i % 3) as i8 - 1]
}

/// A coordinate along a move's axis (times the axis sign) is in the
/// move's layers.
pub open spec fn in_sel(layer: LayerSel, c: int) -> bool {
    match layer {
        LayerSel::Face => c == 1,
        LayerSel::Wide => c >= 0,
        LayerSel::Mid => c == 0,
        LayerSel::All => true,
    }
}

/// The component of `v` along axis `a`.
pub open spec fn comp(v: (int, int, int), a: int) -> int {
    if a == 0 {
        v.0
    } else if a == 1 {
        v.1
    } else {
        v.2
    }
}

/// The axis a unit direction vector points along.
pub open spec fn dir_axis(d: (int, int, int)) -> int {
    if d.0 != 0 {
        0
    } else if d.1 != 0 {
        1
    } else {
        2
    }
}

/// Cubie `i` turns with the move.
pub open spec fn moved_by(mv: Move, i: int) -> bool {
    let (d, _, layer) = move_dir_spec(mv);
    let a = dir_axis(d);
    in_sel(layer, comp(grid_coord_spec(i), a) * comp(d, a))
}

/// Bits `0..n` of the move's cubie mask.
pub open spec fn mask_upto(mv: Move, n: nat) -> nat
    decreases n,
{
    if n == 0 {
        0
    } else {
        mask_upto(mv, (n - 1) as nat) + if moved_by(mv, n - 1) {
            p2((n - 1) as nat)
        } else {
            0
        }
    }
}

proof fn lemma_mask_bound(mv: Move, n: nat)
    ensures
        mask_upto(mv, n) < p2(n),
    decreases n,
{
    if n > 0 {
        lemma_mask_bound(mv, (n - 1) as nat);
    }
}

proof fn lemma_p2_27()
    ensures
        p2(27) == 134217728,
{
    reveal_with_fuel(p2, 28);
}

/// Which cubies a move rotates, as a 27-bit mask over grid indices: bit
/// `i` is set when cubie `i` lies in the move's layers.
pub fn mask_for_move(mv: Move) -> (mask: u32)
    ensures
        mask as nat == mask_upto(mv, 27),
{
    let (dir, _, layer) = move_dir(mv);
    let axis: usize = if dir[0] != 0 {
        0
    } else if dir[1] != 0 {
        1
    } else {
        2
    };
    let sign = dir[axis];
    let mut mask: u32 = 0;
    let mut bit: u32 = 1;
    let mut i: usize = 0;
    proof {
        lemma_p2_27();
    }
    while i < 27
        invariant
            0 <= i <= 27,
            axis < 3,
            ((dir[0] as int, dir[1] as int, dir[2] as int), layer) == (move_dir_spec(mv).0, move_dir_spec(mv).2),
            axis as int == dir_axis(move_dir_spec(mv).0),
            sign == dir[axis as int],
            -1 <= sign <= 1,
            mask as nat == mask_upto(mv, i as nat),
            bit as nat == p2(i as nat),
            p2(27) == 134217728,
        decreases 27 - i,
    {
        proof {
            lemma_mask_bound(mv, i as nat);
            crate::cases::lemma_p2_mono(i as nat + 1, 27);
        }
        let q = grid_coord(i);
        let qa = q[axis];
        assert(-1 <= qa * sign <= 1) by (nonlinear_arith)
            requires
                -1 <= qa <= 1,
                -1 <= sign <= 1,
        ;
        let c = qa * sign;
        let in_layer = match layer {
            LayerSel::Face => c == 1,
            LayerSel::Wide => c >= 0,
            LayerSel::Mid => c == 0,
            LayerSel::All => true,
        };
        if in_layer {
            mask = mask + bit;
        }
        bit = bit * 2;
        i += 1;
    }
    mask
}

/// Facelet index per (cubie grid index, face): the sticker that cubie
/// shows on that face, if any.
pub fn sticker_table() -> (table: Vec<[Option<u8>; 6]>)
    ensures
        table@.len() == 27,
        forall|i: int, f: int|
            0 <= i < 27 && 0 <= f < 6 ==> match #[trigger] table@[i][f] {
                Some(x) => cubie_grid_spec(x as int) == i && face_of_spec(x as int) == Face::from_ord(f)
                    && x < 54,
                None => forall|j: int|
                    0 <= j < 54 ==> !(cubie_grid_spec(j) == i && face_of_spec(j) == Face::from_ord(f)),
            },
{
    let mut table: Vec<[Option<u8>; 6]> = Vec::new();
    let mut i: usize = 0;
    while i < 27
        invariant
            0 <= i <= 27,
            table@.len() == i,
            forall|i2: int, f: int|
                0 <= i2 < i && 0 <= f < 6 ==> match #[trigger] table@[i2][f] {
                    Some(x) => cubie_grid_spec(x as int) == i2 && face_of_spec(x as int) == Face::from_ord(f)
                        && x < 54,
                    None => forall|j: int|
                        0 <= j < 54 ==> !(cubie_grid_spec(j) == i2 && face_of_spec(j) == Face::from_ord(
                            f,
                        )),
                },
        decreases 27 - i,
    {
        let q = grid_coord(i);
        let mut row: [Option<u8>; 6] = [None; 6];
        let mut f: usize = 0;
        while f < 6
            invariant
                0 <= f <= 6,
                i < 27,
                (q[0] as int, q[1] as int, q[2] as int) == grid_coord_spec(i as int),
                forall|k: int| 0 <= k < 3 ==> -1 <= #[trigger] q[k] <= 1,
                forall|f2: int|
                    0 <= f2 < f ==> match #[trigger] row[f2] {
                        Some(x) => cubie_grid_spec(x as int) == i && face_of_spec(x as int) == Face::from_ord(
                            f2,
                        ) && x < 54,
                        None => forall|j: int|
                            0 <= j < 54 ==> !(cubie_grid_spec(j) == i && face_of_spec(j)
                                == Face::from_ord(f2)),
                    },
            decreases 6 - f,
        {
            assert(grid_of(q@) == i as int);
            row[f] = match sticker_index(q, Face::from_index(f)) {
                Some(x) => Some(x as u8),
                None => None,
            };
            f += 1;
        }
        table.push(row);
        i += 1;
    }
    table
}


/// The face on the side `v` points to along axis `a` (`v` nonzero).
pub open spec fn side_face(a: int, v: int) -> Face {
    Face::from_axis(a, if v > 0 { 1 } else { -1 })
}

/// Cell-select: the layer a tapped sticker selects. The sticker sits on
/// `face` in the cubie at grid coordinate `grid`; an edge sticker (one
/// nonzero coordinate off the face's axis) selects the neighboring side it
/// touches, a center or corner sticker the tapped face.
pub open spec fn cell_layer_spec(face: Face, grid: [i8; 3]) -> Face {
    let axis = face_axis(face).0;
    let off = |a: int| a != axis && grid[a] != 0;
    if off(0) && !off(1) && !off(2) {
        side_face(0, grid[0] as int)
    } else if !off(0) && off(1) && !off(2) {
        side_face(1, grid[1] as int)
    } else if !off(0) && !off(1) && off(2) {
        side_face(2, grid[2] as int)
    } else {
        face
    }
}

/// The layer a tapped sticker selects in cell-select mode (see
/// `cell_layer_spec`).
pub fn cell_layer(face: Face, grid: [i8; 3]) -> (r: Face)
    ensures
        r == cell_layer_spec(face, grid),
{
    let axis: usize = face.dir().axis;
    let mut neighbor = face;
    let mut nonzero: u8 = 0;
    let mut a: usize = 0;
    while a < 3
        invariant
            0 <= a <= 3,
            axis as int == face_axis(face).0,
            nonzero <= a,
            nonzero as int == (if a > 0 && 0 != axis && grid[0] != 0 { 1int } else { 0 }) + (if a > 1 && 1
                != axis && grid[1] != 0 { 1int } else { 0 }) + (if a > 2 && 2 != axis && grid[2] != 0 {
                1int
            } else {
                0
            }),
            nonzero == 1 ==> exists|b: int|
                0 <= b < a && b != axis && grid[b] != 0 && neighbor == side_face(b, grid[b] as int),
        decreases 3 - a,
    {
        if a != axis && grid[a] != 0 {
            nonzero += 1;
            let sign: i8 = if grid[a] > 0 {
                1
            } else {
                -1
            };
            neighbor = Face::from_dir(Dir { axis: a, sign });
        }
        a += 1;
    }
    if nonzero == 1 {
        neighbor
    } else {
        face
    }
}

} // verus!
