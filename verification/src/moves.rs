//! Move notation model: turn amounts, moves, oriented axes and the integer
//! rotation matrices behind whole-cube relabelling.
//!
//! Internally every move maps to a canonical `(Dir, LayerKind, Turns)`
//! triple, where `Dir` is an oriented axis. "Cw" always means clockwise as
//! seen from outside the cube looking along `-dir`, which for an oriented
//! axis `d` is a `-90°` right-hand rotation about `d`.

use vstd::prelude::*;
use crate::facelet::{
    apply_move, apply_moves, lemma_apply_moves_append, lemma_apply_moves_len, lemma_apply_moves_short, Face,
};
use crate::turning::{
    is_turn_matrix, lemma_compose, lemma_mat_mul, mat_mul, to_i8v, lemma_gen_roundtrip, lemma_inverse_apply, lemma_move_on_turned,
    lemma_rotation_move, lemma_slice_split, lemma_turn_matrix, lemma_turned_compose,
    lemma_turned_identity, lemma_wide_split, proper, tapply, turn_move, turned,
};
use crate::geometry::{
    scale, along, rot_cw, facelet_at, lemma_facelet_roundtrip, lemma_rot_pow_add, lemma_rot_pow_cancel,
    lemma_rot_pow_surface, lemma_surface_roundtrip, on_surface, rot_cw_pow, sticker_pos, V3,
};

verus! {

#[derive(Clone, Copy, PartialEq, Eq, Structural, Hash, Debug)]
pub enum Turns {
    Cw,
    Half,
    Ccw,
}

impl Turns {
    pub open spec fn q(self) -> int {
        match self {
            Turns::Cw => 1,
            Turns::Half => 2,
            Turns::Ccw => 3,
        }
    }

    pub open spec fn inverse_spec(self) -> Turns {
        match self {
            Turns::Cw => Turns::Ccw,
            Turns::Half => Turns::Half,
            Turns::Ccw => Turns::Cw,
        }
    }

    pub fn inverse(self) -> (t: Turns)
        ensures
            t == self.inverse_spec(),
            t.q() == 4 - self.q(),
    {
        match self {
            Turns::Cw => Turns::Ccw,
            Turns::Half => Turns::Half,
            Turns::Ccw => Turns::Cw,
        }
    }

    pub fn quarters(self) -> (n: u8)
        ensures
            n as int == self.q(),
            1 <= n <= 3,
    {
        match self {
            Turns::Cw => 1,
            Turns::Half => 2,
            Turns::Ccw => 3,
        }
    }
}

#[derive(Clone, Copy, PartialEq, Eq, Structural, Hash, Debug)]
pub enum SliceKind {
    M,
    E,
    S,
}

#[derive(Clone, Copy, PartialEq, Eq, Structural, Hash, Debug)]
pub enum RotAxis {
    X,
    Y,
    Z,
}

#[derive(Clone, Copy, PartialEq, Eq, Structural, Hash, Debug)]
pub enum Move {
    /// Outer face turn: U R F D L B.
    Face(Face, Turns),
    /// Wide (two-layer) turn: Uw/u, Rw/r, ...
    Wide(Face, Turns),
    /// Middle slice: M (follows L), E (follows D), S (follows F).
    Slice(SliceKind, Turns),
    /// Whole-cube rotation: x (like R), y (like U), z (like F).
    Rot(RotAxis, Turns),
}

/// Oriented axis: `sign * e_axis` with axis 0=X, 1=Y, 2=Z.
#[derive(Clone, Copy, PartialEq, Eq, Structural, Debug)]
pub struct Dir {
    pub axis: usize,
    pub sign: i8,
}

impl Dir {
    pub open spec fn wf(self) -> bool {
        self.axis < 3 && (self.sign == 1 || self.sign == -1)
    }
}

#[derive(Clone, Copy, PartialEq, Eq, Structural, Debug)]
pub enum LayerKind {
    Face,
    Wide,
    Mid,
    All,
}

/// Is position `p` in the layer(s) a move about `(axis, sign)` turns?
pub open spec fn in_layer_spec(axis: int, sign: int, layer: LayerKind, p: V3) -> bool {
    let c = along(axis, sign, p);
    match layer {
        LayerKind::Face => c >= 2,
        LayerKind::Wide => c >= 0,
        LayerKind::Mid => c == 0,
        LayerKind::All => true,
    }
}

/// Oriented axis of a face: its outward normal.
pub open spec fn face_axis(f: Face) -> (int, int) {
    match f {
        Face::U => (1, 1),
        Face::R => (0, 1),
        Face::F => (2, 1),
        Face::D => (1, -1),
        Face::L => (0, -1),
        Face::B => (2, -1),
    }
}

impl Move {
    /// Canonical generator `(axis, sign, layer, turns)` of a move.
    pub open spec fn gen_spec(self) -> (int, int, LayerKind, Turns) {
        match self {
            Move::Face(f, t) => (face_axis(f).0, face_axis(f).1, LayerKind::Face, t),
            Move::Wide(f, t) => (face_axis(f).0, face_axis(f).1, LayerKind::Wide, t),
            Move::Slice(SliceKind::M, t) => (0, -1, LayerKind::Mid, t),
            Move::Slice(SliceKind::E, t) => (1, -1, LayerKind::Mid, t),
            Move::Slice(SliceKind::S, t) => (2, 1, LayerKind::Mid, t),
            Move::Rot(RotAxis::X, t) => (0, 1, LayerKind::All, t),
            Move::Rot(RotAxis::Y, t) => (1, 1, LayerKind::All, t),
            Move::Rot(RotAxis::Z, t) => (2, 1, LayerKind::All, t),
        }
    }

    pub open spec fn turns_spec(self) -> Turns {
        match self {
            Move::Face(_, t) => t,
            Move::Wide(_, t) => t,
            Move::Slice(_, t) => t,
            Move::Rot(_, t) => t,
        }
    }

    pub open spec fn inverse_spec(self) -> Move {
        match self {
            Move::Face(f, t) => Move::Face(f, t.inverse_spec()),
            Move::Wide(f, t) => Move::Wide(f, t.inverse_spec()),
            Move::Slice(s, t) => Move::Slice(s, t.inverse_spec()),
            Move::Rot(a, t) => Move::Rot(a, t.inverse_spec()),
        }
    }

    /// The facelet whose sticker a move brings to facelet `j`: stickers in
    /// the turning layers come from the position one inverse rotation
    /// away, everything else stays.
    pub open spec fn source(self, j: int) -> int {
        let g = self.gen_spec();
        let p = sticker_pos(j);
        if in_layer_spec(g.0, g.1, g.2, p) {
            facelet_at(rot_cw_pow(g.0, -g.1, g.3.q(), p))
        } else {
            j
        }
    }
}

pub open spec fn gen_wf(g: (int, int, LayerKind, Turns)) -> bool {
    0 <= g.0 < 3 && (g.1 == 1 || g.1 == -1)
}

/// Move generators are well-formed oriented axes; inversion keeps the
/// generator and inverts the turn amount.
pub proof fn lemma_gen_wf(m: Move)
    ensures
        gen_wf(m.gen_spec()),
        m.inverse_spec().gen_spec().0 == m.gen_spec().0,
        m.inverse_spec().gen_spec().1 == m.gen_spec().1,
        m.inverse_spec().gen_spec().2 == m.gen_spec().2,
        m.inverse_spec().gen_spec().3.q() == 4 - m.gen_spec().3.q(),
        m.inverse_spec().inverse_spec() == m,
{
}

/// A move sends facelets to facelets, keeping stickers on the surface.
pub proof fn lemma_source_range(m: Move, j: int)
    requires
        0 <= j < 54,
    ensures
        0 <= m.source(j) < 54,
{
    lemma_gen_wf(m);
    let g = m.gen_spec();
    let p = sticker_pos(j);
    lemma_facelet_roundtrip(j);
    if in_layer_spec(g.0, g.1, g.2, p) {
        lemma_rot_pow_surface(g.0, -g.1, g.3.q(), p);
        lemma_surface_roundtrip(rot_cw_pow(g.0, -g.1, g.3.q(), p));
    }
}

/// The inverse move undoes the move, facelet by facelet.
pub proof fn lemma_source_inverse(m: Move, j: int)
    requires
        0 <= j < 54,
    ensures
        m.source(m.inverse_spec().source(j)) == j,
{
    lemma_gen_wf(m);
    let mi = m.inverse_spec();
    let g = m.gen_spec();
    let gi = mi.gen_spec();
    let p = sticker_pos(j);
    lemma_facelet_roundtrip(j);
    if in_layer_spec(g.0, g.1, g.2, p) {
        let p2 = rot_cw_pow(g.0, -g.1, gi.3.q(), p);
        lemma_rot_pow_surface(g.0, -g.1, gi.3.q(), p);
        lemma_surface_roundtrip(p2);
        let k = facelet_at(p2);
        assert(mi.source(j) == k);
        assert(sticker_pos(k) == p2);
        assert(in_layer_spec(g.0, g.1, g.2, p2));
        lemma_rot_pow_cancel(g.0, -g.1, g.3.q(), gi.3.q(), p);
    }
}

/// Applying a turn amount twice composes the sources (q1 + q2 <= 3).
pub proof fn lemma_source_compose(m1: Move, m2: Move, m3: Move, j: int)
    requires
        0 <= j < 54,
        m1.gen_spec().0 == m2.gen_spec().0 && m1.gen_spec().0 == m3.gen_spec().0,
        m1.gen_spec().1 == m2.gen_spec().1 && m1.gen_spec().1 == m3.gen_spec().1,
        m1.gen_spec().2 == m2.gen_spec().2 && m1.gen_spec().2 == m3.gen_spec().2,
        m1.gen_spec().3.q() + m2.gen_spec().3.q() == m3.gen_spec().3.q(),
    ensures
        m2.source(m1.source(j)) == m3.source(j),
{
    lemma_gen_wf(m1);
    let g = m1.gen_spec();
    let p = sticker_pos(j);
    lemma_facelet_roundtrip(j);
    if in_layer_spec(g.0, g.1, g.2, p) {
        let p1 = rot_cw_pow(g.0, -g.1, m1.gen_spec().3.q(), p);
        lemma_rot_pow_surface(g.0, -g.1, m1.gen_spec().3.q(), p);
        lemma_surface_roundtrip(p1);
        lemma_rot_pow_add(g.0, -g.1, m2.gen_spec().3.q(), m1.gen_spec().3.q(), p);
    }
}

/// Integer view of a small vector.
pub open spec fn v3(a: [i8; 3]) -> V3 {
    (a[0] as int, a[1] as int, a[2] as int)
}

/// A signed unit vector `±e_k`.
pub open spec fn is_unit(c: [i8; 3]) -> bool {
    ||| (c[0] == 1 || c[0] == -1) && c[1] == 0 && c[2] == 0
    ||| c[0] == 0 && (c[1] == 1 || c[1] == -1) && c[2] == 0
    ||| c[0] == 0 && c[1] == 0 && (c[2] == 1 || c[2] == -1)
}

pub open spec fn unit_axis(c: [i8; 3]) -> int {
    if c[0] != 0 {
        0
    } else if c[1] != 0 {
        1
    } else {
        2
    }
}

pub open spec fn unit_sign(c: [i8; 3]) -> int {
    if c[0] != 0 {
        c[0] as int
    } else if c[1] != 0 {
        c[1] as int
    } else {
        c[2] as int
    }
}

/// Orthonormal integer 3x3 matrix; `cols[a]` is the image of basis vector a.
#[derive(Clone, Copy, Debug)]
pub struct Rot3 {
    pub cols: [[i8; 3]; 3],
}

/// `m * v` for a matrix whose entries are in {-1, 0, 1}.
pub open spec fn mat_apply(m: [[i8; 3]; 3], v: V3) -> V3 {
    (
        scale(v.0, m[0][0] as int) + scale(v.1, m[1][0] as int) + scale(v.2, m[2][0] as int),
        scale(v.0, m[0][1] as int) + scale(v.1, m[1][1] as int) + scale(v.2, m[2][1] as int),
        scale(v.0, m[0][2] as int) + scale(v.1, m[1][2] as int) + scale(v.2, m[2][2] as int),
    )
}

/// Component `k` of a vector.
pub open spec fn vcomp(v: V3, k: int) -> int {
    if k == 0 {
        v.0
    } else if k == 1 {
        v.1
    } else {
        v.2
    }
}

proof fn lemma_scale_add(x: int, y: int, w: int)
    ensures
        scale(x + y, w) == scale(x, w) + scale(y, w),
{
}

proof fn lemma_scale_scale(v: int, b: int, a: int)
    requires
        -1 <= b <= 1,
        -1 <= a <= 1,
    ensures
        scale(scale(v, b), a) == scale(v, scale(b, a)),
        -1 <= scale(b, a) <= 1,
{
}

proof fn lemma_scale_one_nonzero(v: int, x: int, y: int, z: int)
    requires
        -1 <= x <= 1,
        -1 <= y <= 1,
        -1 <= z <= 1,
        (x == 0 && y == 0) || (x == 0 && z == 0) || (y == 0 && z == 0),
    ensures
        scale(v, x + y + z) == scale(v, x) + scale(v, y) + scale(v, z),
{
}

/// Entry `r` of column `k` of the product, scaled by `x`.
proof fn lemma_product_entry(a: Rot3, b: Rot3, c: Rot3, x: int, k: int, r: int)
    requires
        a.wf(),
        b.wf(),
        0 <= r < 3,
        0 <= k < 3,
        v3(c.cols[k]) == a.apply_spec(v3(b.cols[k])),
    ensures
        scale(x, c.cols[k][r] as int) == scale(x, scale(b.cols[k][0] as int, a.cols[0][r] as int))
            + scale(x, scale(b.cols[k][1] as int, a.cols[1][r] as int))
            + scale(x, scale(b.cols[k][2] as int, a.cols[2][r] as int)),
{
    let bk = b.cols[k];
    assert(is_unit(bk));
    let ar0 = a.cols[0][r] as int;
    let ar1 = a.cols[1][r] as int;
    let ar2 = a.cols[2][r] as int;
    assert(-1 <= ar0 <= 1 && -1 <= ar1 <= 1 && -1 <= ar2 <= 1);
    let ck = a.apply_spec(v3(bk));
    assert(c.cols[k][r] as int == vcomp(ck, r));
    assert(vcomp(ck, r) == scale(bk[0] as int, ar0) + scale(bk[1] as int, ar1) + scale(bk[2] as int, ar2));
    lemma_scale_scale(1, bk[0] as int, ar0);
    lemma_scale_scale(1, bk[1] as int, ar1);
    lemma_scale_scale(1, bk[2] as int, ar2);
    lemma_scale_one_nonzero(x, scale(bk[0] as int, ar0), scale(bk[1] as int, ar1), scale(bk[2] as int, ar2));
}

/// Component `j` of `b v`, scaled by `a`'s entry (j, r).
proof fn lemma_applied_entry(a: Rot3, b: Rot3, v: V3, j: int, r: int)
    requires
        a.wf(),
        b.wf(),
        0 <= r < 3,
        0 <= j < 3,
    ensures
        scale(vcomp(b.apply_spec(v), j), a.cols[j][r] as int) == scale(
            v.0,
            scale(b.cols[0][j] as int, a.cols[j][r] as int),
        ) + scale(v.1, scale(b.cols[1][j] as int, a.cols[j][r] as int)) + scale(
            v.2,
            scale(b.cols[2][j] as int, a.cols[j][r] as int),
        ),
{
    let ajr = a.cols[j][r] as int;
    assert(-1 <= ajr <= 1);
    let b0 = b.cols[0][j] as int;
    let b1 = b.cols[1][j] as int;
    let b2 = b.cols[2][j] as int;
    assert(-1 <= b0 <= 1 && -1 <= b1 <= 1 && -1 <= b2 <= 1);
    assert(vcomp(b.apply_spec(v), j) == scale(v.0, b0) + scale(v.1, b1) + scale(v.2, b2));
    lemma_scale_add(scale(v.0, b0) + scale(v.1, b1), scale(v.2, b2), ajr);
    lemma_scale_add(scale(v.0, b0), scale(v.1, b1), ajr);
    lemma_scale_scale(v.0, b0, ajr);
    lemma_scale_scale(v.1, b1, ajr);
    lemma_scale_scale(v.2, b2, ajr);
}

/// One component of the composition law below.
proof fn lemma_then_after_row(a: Rot3, b: Rot3, c: Rot3, v: V3, r: int)
    requires
        a.wf(),
        b.wf(),
        0 <= r < 3,
        v3(c.cols[0]) == a.apply_spec(v3(b.cols[0])),
        v3(c.cols[1]) == a.apply_spec(v3(b.cols[1])),
        v3(c.cols[2]) == a.apply_spec(v3(b.cols[2])),
    ensures
        scale(v.0, c.cols[0][r] as int) + scale(v.1, c.cols[1][r] as int) + scale(v.2, c.cols[2][r] as int)
            == scale(vcomp(b.apply_spec(v), 0), a.cols[0][r] as int) + scale(
            vcomp(b.apply_spec(v), 1),
            a.cols[1][r] as int,
        ) + scale(vcomp(b.apply_spec(v), 2), a.cols[2][r] as int),
{
    lemma_product_entry(a, b, c, v.0, 0, r);
    lemma_product_entry(a, b, c, v.1, 1, r);
    lemma_product_entry(a, b, c, v.2, 2, r);
    lemma_applied_entry(a, b, v, 0, r);
    lemma_applied_entry(a, b, v, 1, r);
    lemma_applied_entry(a, b, v, 2, r);
}

/// Law: the matrix that `then_after` builds acts as its two factors in
/// turn: the right-hand one first, then the left-hand one.
pub proof fn lemma_then_after_apply(a: Rot3, b: Rot3, c: Rot3, v: V3)
    requires
        a.wf(),
        b.wf(),
        v3(c.cols[0]) == a.apply_spec(v3(b.cols[0])),
        v3(c.cols[1]) == a.apply_spec(v3(b.cols[1])),
        v3(c.cols[2]) == a.apply_spec(v3(b.cols[2])),
    ensures
        c.apply_spec(v) == a.apply_spec(b.apply_spec(v)),
{
    lemma_then_after_row(a, b, c, v, 0);
    lemma_then_after_row(a, b, c, v, 1);
    lemma_then_after_row(a, b, c, v, 2);
    let w = b.apply_spec(v);
    assert(vcomp(w, 0) == w.0 && vcomp(w, 1) == w.1 && vcomp(w, 2) == w.2);
}

/// Law: the identity matrix is neutral for `then_after` on either side.
pub proof fn lemma_then_after_identity(a: Rot3, left: Rot3, right: Rot3)
    requires
        a.wf(),
        forall|k: int|
            0 <= k < 3 ==> v3(#[trigger] left.cols[k]) == mat_apply(
                [[1i8, 0, 0], [0i8, 1, 0], [0i8, 0, 1]],
                v3(a.cols[k]),
            ),
        forall|k: int|
            0 <= k < 3 ==> v3(#[trigger] right.cols[k]) == a.apply_spec(
                v3([[1i8, 0, 0], [0i8, 1, 0], [0i8, 0, 1]][k]),
            ),
    ensures
        left == a,
        right == a,
{
    assert forall|k: int| 0 <= k < 3 implies #[trigger] left.cols[k] == a.cols[k] by {
        assert(v3(left.cols[k]) == v3(a.cols[k]));
        assert(left.cols[k] =~= a.cols[k]);
    }
    assert(left.cols =~= a.cols);
    assert forall|k: int| 0 <= k < 3 implies #[trigger] right.cols[k] == a.cols[k] by {
        assert(v3(right.cols[k]) == v3(a.cols[k]));
        assert(right.cols[k] =~= a.cols[k]);
    }
    assert(right.cols =~= a.cols);
}

/// The +90° right-hand rotation matrices about +X, +Y, +Z.
pub open spec fn rot_p90_spec(axis: int) -> [[i8; 3]; 3] {
    if axis == 0 {
        [[1i8, 0i8, 0i8], [0i8, 0i8, 1i8], [0i8, -1i8, 0i8]]
    } else if axis == 1 {
        [[0i8, 0i8, -1i8], [0i8, 1i8, 0i8], [1i8, 0i8, 0i8]]
    } else {
        [[0i8, 1i8, 0i8], [-1i8, 0i8, 0i8], [0i8, 0i8, 1i8]]
    }
}

impl Rot3 {
    /// A signed permutation matrix: every column is a signed unit vector
    /// and the columns point along three different axes.
    pub open spec fn wf(self) -> bool {
        &&& is_unit(self.cols[0])
        &&& is_unit(self.cols[1])
        &&& is_unit(self.cols[2])
        &&& unit_axis(self.cols[0]) != unit_axis(self.cols[1])
        &&& unit_axis(self.cols[0]) != unit_axis(self.cols[2])
        &&& unit_axis(self.cols[1]) != unit_axis(self.cols[2])
    }

    pub open spec fn apply_spec(self, v: V3) -> V3 {
        mat_apply(self.cols, v)
    }

    pub fn identity() -> (r: Rot3)
        ensures
            r.wf(),
            r.cols == [[1i8, 0, 0], [0i8, 1, 0], [0i8, 0, 1]],
            forall|v: V3| #[trigger] r.apply_spec(v) == v,
    {
        Rot3 { cols: [[1, 0, 0], [0, 1, 0], [0, 0, 1]] }
    }

    pub fn apply(&self, v: [i8; 3]) -> (out: [i8; 3])
        requires
            self.wf(),
            v[0] > -128 && v[1] > -128 && v[2] > -128,
        ensures
            v3(out) == self.apply_spec(v3(v)),
            out[0] > -128 && out[1] > -128 && out[2] > -128,
    {
        let c = self.cols;
        let mut out = [0i8; 3];
        let mut r: usize = 0;
        while r < 3
            invariant
                0 <= r <= 3,
                c == self.cols,
                self.wf(),
                v[0] > -128 && v[1] > -128 && v[2] > -128,
                forall|k: int|
                    0 <= k < r ==> out[k] as int == scale(v[0] as int, c[0][k] as int) + scale(
                        v[1] as int,
                        c[1][k] as int,
                    ) + scale(v[2] as int, c[2][k] as int),
                forall|k: int| 0 <= k < r ==> out[k] > -128,
            decreases 3 - r,
        {
            let s: i16 = times_unit(c[0][r], v[0]) + times_unit(c[1][r], v[1]) + times_unit(
                c[2][r],
                v[2],
            );
            out[r] = s as i8;
            r += 1;
        }
        out
    }

    /// `self ∘ rhs` (apply `rhs` first, then `self`).
    pub fn then_after(&self, rhs: &Rot3) -> (r: Rot3)
        requires
            self.wf(),
            rhs.wf(),
        ensures
            r.wf(),
            v3(r.cols[0]) == self.apply_spec(v3(rhs.cols[0])),
            v3(r.cols[1]) == self.apply_spec(v3(rhs.cols[1])),
            v3(r.cols[2]) == self.apply_spec(v3(rhs.cols[2])),
    {
        let r = Rot3 {
            cols: [self.apply(rhs.cols[0]), self.apply(rhs.cols[1]), self.apply(rhs.cols[2])],
        };
        r
    }

    /// Inverse (= transpose, since orthonormal).
    pub fn inverse(&self) -> (r: Rot3)
        requires
            self.wf(),
        ensures
            r.wf(),
            forall|a: int, b: int| 0 <= a < 3 && 0 <= b < 3 ==> r.cols[a][b] == self.cols[b][a],
    {
        let mut cols = [[0i8; 3]; 3];
        let mut a: usize = 0;
        while a < 3
            invariant
                0 <= a <= 3,
                forall|x: int, y: int| 0 <= x < a && 0 <= y < 3 ==> cols[x][y] == self.cols[y][x],
            decreases 3 - a,
        {
            let col = [self.cols[0][a], self.cols[1][a], self.cols[2][a]];
            cols[a] = col;
            a += 1;
        }
        Rot3 { cols }
    }
}

/// `c * x` for a matrix entry `c` in {-1, 0, 1}.
pub fn times_unit(c: i8, x: i8) -> (r: i16)
    requires
        c == 1 || c == 0 || c == -1,
    ensures
        r as int == scale(x as int, c as int),
{
    if c == 1 {
        x as i16
    } else if c == -1 {
        -(x as i16)
    } else {
        0
    }
}

/// The +90° right-hand rotations about +X, +Y, +Z.
pub fn rot_p90(axis: usize) -> (r: Rot3)
    requires
        axis < 3,
    ensures
        r.wf(),
        r.cols == rot_p90_spec(axis as int),
{
    if axis == 0 {
        Rot3 { cols: [[1, 0, 0], [0, 0, 1], [0, -1, 0]] }
    } else if axis == 1 {
        Rot3 { cols: [[0, 0, -1], [0, 1, 0], [1, 0, 0]] }
    } else {
        Rot3 { cols: [[0, 1, 0], [-1, 0, 0], [0, 0, 1]] }
    }
}

/// Clockwise quarter turn matrix about `sign * e_axis`: the inverse of the
/// +90° rotation for a positive axis, the +90° rotation itself for a
/// negative one.
pub open spec fn cw_matrix(axis: int, sign: int) -> [[i8; 3]; 3] {
    let p = rot_p90_spec(axis);
    if sign > 0 {
        [[p[0][0], p[1][0], p[2][0]], [p[0][1], p[1][1], p[2][1]], [p[0][2], p[1][2], p[2][2]]]
    } else {
        p
    }
}

/// The matrix form of a clockwise quarter turn is the geometric rotation.
pub proof fn lemma_cw_matrix(axis: int, sign: int, v: V3)
    requires
        0 <= axis < 3,
        sign == 1 || sign == -1,
    ensures
        mat_apply(cw_matrix(axis, sign), v) == rot_cw(axis, sign, v),
{
}

pub open spec fn basis(a: int) -> V3 {
    if a == 0 {
        (1, 0, 0)
    } else if a == 1 {
        (0, 1, 0)
    } else {
        (0, 0, 1)
    }
}

pub open spec fn signed_basis(axis: int, sign: int) -> V3 {
    if axis == 0 {
        (sign, 0, 0)
    } else if axis == 1 {
        (0, sign, 0)
    } else {
        (0, 0, sign)
    }
}

pub open spec fn vec_axis(d: V3) -> int {
    if d.0 != 0 {
        0
    } else if d.1 != 0 {
        1
    } else {
        2
    }
}

pub open spec fn vec_sign(d: V3) -> int {
    if d.0 != 0 {
        d.0
    } else if d.1 != 0 {
        d.1
    } else {
        d.2
    }
}

impl Dir {
    pub fn vec(self) -> (v: [i8; 3])
        requires
            self.wf(),
        ensures
            is_unit(v),
            unit_axis(v) == self.axis,
            unit_sign(v) == self.sign,
    {
        let mut v = [0i8; 3];
        v[self.axis] = self.sign;
        v
    }

    pub fn from_vec(v: [i8; 3]) -> (d: Dir)
        requires
            is_unit(v),
        ensures
            d.wf(),
            d.axis == unit_axis(v),
            d.sign == unit_sign(v),
    {
        let mut axis: usize = 0;
        while axis < 3
            invariant
                0 <= axis <= 3,
                is_unit(v),
                forall|k: int| 0 <= k < axis ==> v[k] == 0,
            decreases 3 - axis,
        {
            if v[axis] != 0 {
                return Dir { axis, sign: v[axis] };
            }
            axis += 1;
        }
        Dir { axis: 0, sign: v[0] }
    }

    /// One clockwise quarter turn about this oriented axis (viewed from
    /// outside along `-self`): a -90° right-hand rotation about `self`.
    pub fn cw_quarter(self) -> (r: Rot3)
        requires
            self.wf(),
        ensures
            r.wf(),
            forall|a: int, b: int|
                0 <= a < 3 && 0 <= b < 3 ==> #[trigger] r.cols[a][b] == cw_matrix(
                    self.axis as int,
                    self.sign as int,
                )[a][b],
    {
        let p = rot_p90(self.axis);
        if self.sign > 0 {
            let r = p.inverse();
            r
        } else {
            p
        }
    }

    /// Rotation matrix of a whole-cube move about this axis with `turns`.
    pub fn rotation(self, turns: Turns) -> (m: Rot3)
        requires
            self.wf(),
        ensures
            m.wf(),
            forall|a: int|
                0 <= a < 3 ==> #[trigger] v3(m.cols[a]) == rot_cw_pow(
                    self.axis as int,
                    self.sign as int,
                    turns.q(),
                    basis(a),
                ),
    {
        let q = self.cw_quarter();
        let mut m = Rot3::identity();
        let n = turns.quarters();
        let mut k: u8 = 0;
        while k < n
            invariant
                0 <= k <= n,
                n as int == turns.q(),
                self.wf(),
                q.wf(),
                forall|a: int, b: int|
                    0 <= a < 3 && 0 <= b < 3 ==> #[trigger] q.cols[a][b] == cw_matrix(
                        self.axis as int,
                        self.sign as int,
                    )[a][b],
                m.wf(),
                forall|a: int|
                    0 <= a < 3 ==> #[trigger] v3(m.cols[a]) == rot_cw_pow(
                        self.axis as int,
                        self.sign as int,
                        k as int,
                        basis(a),
                    ),
            decreases n - k,
        {
            let ghost old_m = m;
            m = q.then_after(&m);
            proof {
                assert forall|a: int| 0 <= a < 3 implies #[trigger] v3(m.cols[a]) == rot_cw_pow(
                    self.axis as int,
                    self.sign as int,
                    k + 1,
                    basis(a),
                ) by {
                    lemma_cw_matrix(self.axis as int, self.sign as int, v3(old_m.cols[a]));
                    assert(q.apply_spec(v3(old_m.cols[a])) == mat_apply(
                        cw_matrix(self.axis as int, self.sign as int),
                        v3(old_m.cols[a]),
                    ));
                    if a == 0 {
                    } else if a == 1 {
                    } else {
                    }
                }
            }
            k += 1;
        }
        m
    }
}

impl Face {
    pub fn dir(self) -> (d: Dir)
        ensures
            d.wf(),
            (d.axis as int, d.sign as int) == face_axis(self),
    {
        match self {
            Face::U => Dir { axis: 1, sign: 1 },
            Face::R => Dir { axis: 0, sign: 1 },
            Face::F => Dir { axis: 2, sign: 1 },
            Face::D => Dir { axis: 1, sign: -1 },
            Face::L => Dir { axis: 0, sign: -1 },
            Face::B => Dir { axis: 2, sign: -1 },
        }
    }

    pub open spec fn from_axis(axis: int, sign: int) -> Face {
        if axis == 1 && sign == 1 {
            Face::U
        } else if axis == 0 && sign == 1 {
            Face::R
        } else if axis == 2 && sign == 1 {
            Face::F
        } else if axis == 1 {
            Face::D
        } else if axis == 0 {
            Face::L
        } else {
            Face::B
        }
    }

    pub fn from_dir(d: Dir) -> (f: Face)
        requires
            d.wf(),
        ensures
            f == Face::from_axis(d.axis as int, d.sign as int),
            face_axis(f) == (d.axis as int, d.sign as int),
    {
        if d.axis == 1 && d.sign == 1 {
            Face::U
        } else if d.axis == 0 && d.sign == 1 {
            Face::R
        } else if d.axis == 2 && d.sign == 1 {
            Face::F
        } else if d.axis == 1 {
            Face::D
        } else if d.axis == 0 {
            Face::L
        } else {
            Face::B
        }
    }
}

/// The move with a given canonical generator. Slices and rotations have
/// one canonical direction per axis (M = -X, E = -Y, S = +Z; x, y, z
/// positive); the opposite direction is the inverse turn.
pub open spec fn from_gen_spec(axis: int, sign: int, layer: LayerKind, t: Turns) -> Move {
    match layer {
        LayerKind::Face => Move::Face(Face::from_axis(axis, sign), t),
        LayerKind::Wide => Move::Wide(Face::from_axis(axis, sign), t),
        LayerKind::Mid => {
            let kind = if axis == 0 {
                SliceKind::M
            } else if axis == 1 {
                SliceKind::E
            } else {
                SliceKind::S
            };
            let canonical = if axis == 2 {
                1int
            } else {
                -1int
            };
            Move::Slice(
                kind,
                if sign == canonical {
                    t
                } else {
                    t.inverse_spec()
                },
            )
        },
        LayerKind::All => {
            let a = if axis == 0 {
                RotAxis::X
            } else if axis == 1 {
                RotAxis::Y
            } else {
                RotAxis::Z
            };
            Move::Rot(
                a,
                if sign > 0 {
                    t
                } else {
                    t.inverse_spec()
                },
            )
        },
    }
}

impl SliceKind {
    pub open spec fn ord(self) -> int {
        match self {
            SliceKind::M => 0,
            SliceKind::E => 1,
            SliceKind::S => 2,
        }
    }
}

impl RotAxis {
    pub open spec fn ord(self) -> int {
        match self {
            RotAxis::X => 0,
            RotAxis::Y => 1,
            RotAxis::Z => 2,
        }
    }
}

impl Move {
    /// Stable index over all move variants.
    pub open spec fn index_spec(self) -> int {
        match self {
            Move::Face(f, t) => 3 * f.ord() + t.q() - 1,
            Move::Wide(f, t) => 18 + 3 * f.ord() + t.q() - 1,
            Move::Slice(s, t) => 36 + 3 * s.ord() + t.q() - 1,
            Move::Rot(a, t) => 45 + 3 * a.ord() + t.q() - 1,
        }
    }

    pub open spec fn from_index_spec(i: int) -> Move {
        let t = if i % 3 == 0 {
            Turns::Cw
        } else if i % 3 == 1 {
            Turns::Half
        } else {
            Turns::Ccw
        };
        let k = i / 3;
        if k < 6 {
            Move::Face(Face::from_ord(k), t)
        } else if k < 12 {
            Move::Wide(Face::from_ord(k - 6), t)
        } else if k < 15 {
            Move::Slice(
                if k == 12 {
                    SliceKind::M
                } else if k == 13 {
                    SliceKind::E
                } else {
                    SliceKind::S
                },
                t,
            )
        } else {
            Move::Rot(
                if k == 15 {
                    RotAxis::X
                } else if k == 16 {
                    RotAxis::Y
                } else {
                    RotAxis::Z
                },
                t,
            )
        }
    }

    pub fn inverse(self) -> (r: Move)
        ensures
            r == self.inverse_spec(),
    {
        match self {
            Move::Face(f, t) => Move::Face(f, t.inverse()),
            Move::Wide(f, t) => Move::Wide(f, t.inverse()),
            Move::Slice(s, t) => Move::Slice(s, t.inverse()),
            Move::Rot(a, t) => Move::Rot(a, t.inverse()),
        }
    }

    pub fn gen(self) -> (g: (Dir, LayerKind, Turns))
        ensures
            g.0.wf(),
            (g.0.axis as int, g.0.sign as int, g.1, g.2) == self.gen_spec(),
    {
        match self {
            Move::Face(f, t) => (f.dir(), LayerKind::Face, t),
            Move::Wide(f, t) => (f.dir(), LayerKind::Wide, t),
            Move::Slice(SliceKind::M, t) => (Dir { axis: 0, sign: -1 }, LayerKind::Mid, t),
            Move::Slice(SliceKind::E, t) => (Dir { axis: 1, sign: -1 }, LayerKind::Mid, t),
            Move::Slice(SliceKind::S, t) => (Dir { axis: 2, sign: 1 }, LayerKind::Mid, t),
            Move::Rot(RotAxis::X, t) => (Dir { axis: 0, sign: 1 }, LayerKind::All, t),
            Move::Rot(RotAxis::Y, t) => (Dir { axis: 1, sign: 1 }, LayerKind::All, t),
            Move::Rot(RotAxis::Z, t) => (Dir { axis: 2, sign: 1 }, LayerKind::All, t),
        }
    }

    pub fn from_gen(dir: Dir, layer: LayerKind, turns: Turns) -> (m: Move)
        requires
            dir.wf(),
        ensures
            m == from_gen_spec(dir.axis as int, dir.sign as int, layer, turns),
    {
        match layer {
            LayerKind::Face => Move::Face(Face::from_dir(dir), turns),
            LayerKind::Wide => Move::Wide(Face::from_dir(dir), turns),
            LayerKind::Mid => {
                // Canonical slice directions: M = -X, E = -Y, S = +Z.
                let (kind, canonical_sign) = if dir.axis == 0 {
                    (SliceKind::M, -1i8)
                } else if dir.axis == 1 {
                    (SliceKind::E, -1i8)
                } else {
                    (SliceKind::S, 1i8)
                };
                let t = if dir.sign == canonical_sign {
                    turns
                } else {
                    turns.inverse()
                };
                Move::Slice(kind, t)
            },
            LayerKind::All => {
                let axis = if dir.axis == 0 {
                    RotAxis::X
                } else if dir.axis == 1 {
                    RotAxis::Y
                } else {
                    RotAxis::Z
                };
                let t = if dir.sign > 0 {
                    turns
                } else {
                    turns.inverse()
                };
                Move::Rot(axis, t)
            },
        }
    }

    /// The same physical move relabeled through a whole-cube rotation:
    /// conjugation `g⁻¹ ∘ m ∘ g`, where `g` has active matrix `g_active`.
    pub fn conjugated(self, g_active_inv: &Rot3) -> (r: Move)
        requires
            g_active_inv.wf(),
        ensures
            ({
                let g = self.gen_spec();
                let d = g_active_inv.apply_spec(signed_basis(g.0, g.1));
                r == from_gen_spec(vec_axis(d), vec_sign(d), g.2, g.3)
            }),
    {
        let (dir, layer, turns) = self.gen();
        let new_dir = Dir::from_vec(g_active_inv.apply(dir.vec()));
        Move::from_gen(new_dir, layer, turns)
    }

    /// Stable index 0..54 over all move variants (6 faces + 6 wide +
    /// 3 slices + 3 rotations, each × 3 turn amounts).
    pub fn index(self) -> (i: usize)
        ensures
            i as int == self.index_spec(),
            i < 54,
    {
        match self {
            Move::Face(f, tt) => f.index() * 3 + (tt.quarters() - 1) as usize,
            Move::Wide(f, tt) => 18 + f.index() * 3 + (tt.quarters() - 1) as usize,
            Move::Slice(s, tt) => {
                let k: usize = match s {
                    SliceKind::M => 0,
                    SliceKind::E => 1,
                    SliceKind::S => 2,
                };
                36 + k * 3 + (tt.quarters() - 1) as usize
            },
            Move::Rot(a, tt) => {
                let k: usize = match a {
                    RotAxis::X => 0,
                    RotAxis::Y => 1,
                    RotAxis::Z => 2,
                };
                45 + k * 3 + (tt.quarters() - 1) as usize
            },
        }
    }

    pub fn from_index(i: usize) -> (m: Move)
        requires
            i < 54,
        ensures
            m == Move::from_index_spec(i as int),
            m.index_spec() == i,
    {
        let turns = if i % 3 == 0 {
            Turns::Cw
        } else if i % 3 == 1 {
            Turns::Half
        } else {
            Turns::Ccw
        };
        let k = i / 3;
        if k < 6 {
            Move::Face(Face::from_index(k), turns)
        } else if k < 12 {
            Move::Wide(Face::from_index(k - 6), turns)
        } else if k < 15 {
            let s = if k == 12 {
                SliceKind::M
            } else if k == 13 {
                SliceKind::E
            } else {
                SliceKind::S
            };
            Move::Slice(s, turns)
        } else {
            let a = if k == 15 {
                RotAxis::X
            } else if k == 16 {
                RotAxis::Y
            } else {
                RotAxis::Z
            };
            Move::Rot(a, turns)
        }
    }
}

/// Move indices are a bijection between moves and 0..54.
pub proof fn lemma_index_roundtrip(m: Move)
    ensures
        0 <= m.index_spec() < 54,
        Move::from_index_spec(m.index_spec()) == m,
{
}

/// The transpose of a clockwise quarter turn is the clockwise quarter
/// turn about the opposite axis.
pub proof fn lemma_cw_matrix_transpose(axis: int, sign: int)
    requires
        0 <= axis < 3,
        sign == 1 || sign == -1,
    ensures
        forall|a: int, b: int|
            0 <= a < 3 && 0 <= b < 3 ==> #[trigger] cw_matrix(axis, sign)[b][a] == cw_matrix(
                axis,
                -sign,
            )[a][b],
{
}

/// A sequence of moves.
#[derive(Clone, PartialEq, Eq, Debug, Default)]
pub struct Alg(pub Vec<Move>);

/// The inverse sequence: reversed, each move inverted.
pub open spec fn inverse_moves(ms: Seq<Move>) -> Seq<Move> {
    Seq::new(ms.len(), |i: int| ms[ms.len() - 1 - i].inverse_spec())
}

/// Half-turn-metric weight of a move (wide = 1, slice = 2, rotation = 0).
pub open spec fn htm_weight(m: Move) -> nat {
    match m {
        Move::Face(..) => 1,
        Move::Wide(..) => 1,
        Move::Slice(..) => 2,
        Move::Rot(..) => 0,
    }
}

pub open spec fn htm_len(ms: Seq<Move>) -> nat
    decreases ms.len(),
{
    if ms.len() == 0 {
        0
    } else {
        htm_len(ms.drop_last()) + htm_weight(ms.last())
    }
}

/// Each move counts at most two in the half-turn metric.
pub proof fn lemma_htm_len_bound(ms: Seq<Move>)
    ensures
        htm_len(ms) <= 2 * ms.len(),
    decreases ms.len(),
{
    if ms.len() > 0 {
        lemma_htm_len_bound(ms.drop_last());
    }
}

impl View for Alg {
    type V = Seq<Move>;

    open spec fn view(&self) -> Seq<Move> {
        self.0@
    }
}

impl Alg {
    pub fn new(moves: Vec<Move>) -> (a: Alg)
        ensures
            a@ == moves@,
    {
        Alg(moves)
    }

    pub fn inverse(&self) -> (r: Alg)
        ensures
            r@ == inverse_moves(self@),
    {
        let n = self.0.len();
        let mut out: Vec<Move> = Vec::with_capacity(n);
        let mut k: usize = 0;
        while k < n
            invariant
                0 <= k <= n,
                n == self.0@.len(),
                out@.len() == k,
                forall|i: int| 0 <= i < k ==> #[trigger] out@[i] == self.0@[n - 1 - i].inverse_spec(),
            decreases n - k,
        {
            out.push(self.0[n - 1 - k].inverse());
            k += 1;
        }
        assert(out@ =~= inverse_moves(self@));
        Alg(out)
    }

    pub fn is_empty(&self) -> (b: bool)
        ensures
            b == (self@.len() == 0),
    {
        self.0.len() == 0
    }

    pub fn len(&self) -> (n: usize)
        ensures
            n == self@.len(),
    {
        self.0.len()
    }

    /// Half-turn-metric length (wide = 1, slice = 2, rotations = 0).
    pub fn len_htm(&self) -> (n: usize)
        requires
            self@.len() < usize::MAX / 2,
        ensures
            n == htm_len(self@),
    {
        let mut total: usize = 0;
        let mut k: usize = 0;
        while k < self.0.len()
            invariant
                0 <= k <= self.0@.len(),
                self.0@.len() < usize::MAX / 2,
                total == htm_len(self.0@.subrange(0, k as int)),
                total <= 2 * k,
            decreases self.0@.len() - k,
        {
            proof {
                assert(self.0@.subrange(0, k + 1).drop_last() =~= self.0@.subrange(0, k as int));
            }
            let w: usize = match self.0[k] {
                Move::Face(..) | Move::Wide(..) => 1,
                Move::Slice(..) => 2,
                Move::Rot(..) => 0,
            };
            total = total + w;
            k += 1;
        }
        assert(self.0@.subrange(0, self.0@.len() as int) =~= self.0@);
        total
    }
}

/// A move relabeled into a cube frame turned by `y^j`: its axis is carried
/// by the inverse rotation (`j` counter-clockwise quarters about +Y).
pub open spec fn relabel_y(m: Move, j: int) -> Move {
    let g = m.gen_spec();
    let d = rot_cw_pow(1, -1, j, signed_basis(g.0, g.1));
    from_gen_spec(vec_axis(d), vec_sign(d), g.2, g.3)
}

pub open spec fn relabel_y_moves(ms: Seq<Move>, j: int) -> Seq<Move> {
    Seq::new(ms.len(), |i: int| relabel_y(ms[i], j))
}

/// Law: relabeling into the frame turned zero times changes nothing, and
/// relabeling keeps the number of moves.
pub proof fn lemma_relabel_y_zero(ms: Seq<Move>, j: int)
    ensures
        relabel_y_moves(ms, 0) == ms,
        relabel_y_moves(ms, j).len() == ms.len(),
{
    assert forall|i: int| 0 <= i < ms.len() implies #[trigger] relabel_y_moves(ms, 0)[i] == ms[i] by {
        let m = ms[i];
        lemma_gen_wf(m);
        lemma_gen_roundtrip(m);
        let g = m.gen_spec();
        assert(rot_cw_pow(1, -1, 0, signed_basis(g.0, g.1)) == signed_basis(g.0, g.1));
    }
    assert(relabel_y_moves(ms, 0) =~= ms);
}

/// An outer face turn.
pub open spec fn is_face_move(m: Move) -> bool {
    m is Face
}

/// `f` is made of outer face moves and does what `a` does, up to a
/// whole-cube rotation: on every cube, `a` gives the state that `f` gives,
/// turned as a whole by one proper rotation.
#[verifier::opaque]
pub open spec fn face_form(f: Seq<Move>, a: Seq<Move>) -> bool {
    &&& forall|i: int| 0 <= i < f.len() ==> is_face_move(#[trigger] f[i])
    &&& exists|g: Rot3|
        #[trigger] proper(g) && forall|s: Seq<Face>|
            s.len() == 54 ==> #[trigger] apply_moves(s, a) == turned(apply_moves(s, f), g)
}

/// What `Alg::face_moves_only` promises makes its result a face-move form.
pub proof fn lemma_face_form_intro(f: Seq<Move>, a: Seq<Move>)
    requires
        forall|i: int| 0 <= i < f.len() ==> is_face_move(#[trigger] f[i]),
        exists|g: Rot3|
            #[trigger] proper(g) && forall|s: Seq<Face>|
                s.len() == 54 ==> #[trigger] apply_moves(s, a) == turned(apply_moves(s, f), g),
    ensures
        face_form(f, a),
{
    reveal(face_form);
}

impl Alg {
    /// The algorithm relabeled to execute in a cube frame rotated by `y^j`:
    /// applying the result to `s` equals `y⁻ʲ(alg(yʲ(s)))`.
    pub fn in_y_frame(&self, j: u8) -> (r: Alg)
        ensures
            r@ == relabel_y_moves(self@, (j % 4) as int),
    {
        let y = Move::Rot(RotAxis::Y, Turns::Cw).gen().0.rotation(Turns::Cw);
        let mut g = Rot3::identity();
        let n = j % 4;
        let mut k: u8 = 0;
        while k < n
            invariant
                0 <= k <= n < 4,
                y.wf(),
                forall|a: int| 0 <= a < 3 ==> #[trigger] v3(y.cols[a]) == rot_cw_pow(1, 1, 1, basis(a)),
                g.wf(),
                forall|a: int| 0 <= a < 3 ==> #[trigger] v3(g.cols[a]) == rot_cw_pow(1, 1, k as int, basis(a)),
            decreases n - k,
        {
            let ghost old_g = g;
            g = y.then_after(&g);
            proof {
                assert(v3(y.cols[0]) == rot_cw_pow(1, 1, 1, basis(0)));
                assert(v3(y.cols[1]) == rot_cw_pow(1, 1, 1, basis(1)));
                assert(v3(y.cols[2]) == rot_cw_pow(1, 1, 1, basis(2)));
                assert(v3(old_g.cols[0]) == rot_cw_pow(1, 1, k as int, basis(0)));
                assert(v3(old_g.cols[1]) == rot_cw_pow(1, 1, k as int, basis(1)));
                assert(v3(old_g.cols[2]) == rot_cw_pow(1, 1, k as int, basis(2)));
                assert forall|a: int| 0 <= a < 3 implies #[trigger] v3(g.cols[a]) == rot_cw_pow(1, 1, k + 1, basis(a)) by {
                    if a == 0 {} else if a == 1 {} else {}
                }
            }
            k += 1;
        }
        let g_inv = g.inverse();
        proof {
            assert(v3(g.cols[0]) == rot_cw_pow(1, 1, n as int, basis(0)));
            assert(v3(g.cols[1]) == rot_cw_pow(1, 1, n as int, basis(1)));
            assert(v3(g.cols[2]) == rot_cw_pow(1, 1, n as int, basis(2)));
            assert forall|v: V3| #[trigger] g_inv.apply_spec(v) == rot_cw_pow(1, -1, n as int, v) by {
                if n == 0 {} else if n == 1 {} else if n == 2 {} else {}
            }
        }
        let len = self.0.len();
        let mut out: Vec<Move> = Vec::with_capacity(len);
        let mut i: usize = 0;
        while i < len
            invariant
                0 <= i <= len,
                len == self.0@.len(),
                g_inv.wf(),
                n < 4,
                forall|v: V3| #[trigger] g_inv.apply_spec(v) == rot_cw_pow(1, -1, n as int, v),
                out@.len() == i,
                forall|x: int| 0 <= x < i ==> #[trigger] out@[x] == relabel_y(self.0@[x], n as int),
            decreases len - i,
        {
            out.push(self.0[i].conjugated(&g_inv));
            i += 1;
        }
        assert(out@ =~= relabel_y_moves(self@, (j % 4) as int));
        Alg(out)
    }

    /// Equivalent sequence of outer face moves only. The result reproduces
    /// the same state **up to a whole-cube rotation** (rotations are folded
    /// out; wide and slice moves are expanded).
    pub fn face_moves_only(&self) -> (r: Alg)
        ensures
            forall|i: int| 0 <= i < r@.len() ==> is_face_move(#[trigger] r@[i]),
            r@.len() <= 2 * self@.len(),
            exists|g: Rot3|
                #[trigger] proper(g) && forall|s: Seq<Face>|
                    s.len() == 54 ==> #[trigger] apply_moves(s, self@) == turned(apply_moves(s, r@), g),
            (forall|k: int| 0 <= k < self@.len() ==> #[trigger] self@[k] is Face) ==> r@ == self@,
    {
        let mut rho = Rot3::identity();  // accumulated whole-cube rotation
        let len = self.0.len();
        let mut out: Vec<Move> = Vec::new();
        let mut i: usize = 0;
        proof {
            lemma_fmo_start(self@, rho);
        }
        while i < len
            invariant
                0 <= i <= len,
                len == self.0@.len(),
                rho.wf(),
                proper(rho),
                out@.len() <= 2 * i,
                forall|x: int| 0 <= x < out@.len() ==> is_face_move(#[trigger] out@[x]),
                fmo_step(self@, i as int, out@, rho),
                (forall|k: int| 0 <= k < self@.len() ==> #[trigger] self@[k] is Face) ==> (rho.cols
                    == [[1i8, 0, 0], [0i8, 1, 0], [0i8, 0, 1]] && out@ == self@.take(i as int)),
            decreases len - i,
        {
            let inv = rho.inverse();
            proof {
                lemma_inverse_apply(rho, inv);
            }
            let m = self.0[i].conjugated(&inv);
            proof {
                if forall|k: int| 0 <= k < self@.len() ==> #[trigger] self@[k] is Face {
                    assert(inv.cols =~= [[1i8, 0, 0], [0i8, 1, 0], [0i8, 0, 1]]) by {
                        assert(inv.cols[0] =~= [1i8, 0, 0]);
                        assert(inv.cols[1] =~= [0i8, 1, 0]);
                        assert(inv.cols[2] =~= [0i8, 0, 1]);
                    }
                    let mv = self@[i as int];
                    assert(mv is Face);
                    lemma_gen_wf(mv);
                    let g = mv.gen_spec();
                    assert(inv.apply_spec(signed_basis(g.0, g.1)) == signed_basis(g.0, g.1));
                    lemma_gen_roundtrip(mv);
                    assert(m == mv);
                }
            }
            let ghost before = out@;
            let ghost rho0 = rho;
            proof {
                lemma_gen_roundtrip(m);
            }
            let (dir, layer, turns) = m.gen();
            match layer {
                LayerKind::Face => {
                    out.push(m);
                    proof {
                        lemma_fmo_face(self@, i as int, before, rho0, m);
                        assert(before.push(m) =~= out@);
                        if forall|k: int| 0 <= k < self@.len() ==> #[trigger] self@[k] is Face {
                            assert(self@.take(i + 1) =~= self@.take(i as int).push(self@[i as int]));
                        }
                    }
                },
                LayerKind::Wide => {
                    // Wide(d,t) = All(d,t) ∘ Face(-d,t)
                    let f = Move::from_gen(Dir { axis: dir.axis, sign: -dir.sign }, LayerKind::Face, turns);
                    out.push(f);
                    let rot = dir.rotation(turns);
                    rho = rho.then_after(&rot);
                    proof {
                        lemma_fmo_wide(self@, i as int, before, rho0, m, f, rot, rho);
                        assert(before.push(f) =~= out@);
                    }
                },
                LayerKind::Mid => {
                    // Mid(d,t) = All(d,t) ∘ Face(d,t⁻¹) ∘ Face(-d,t)
                    let f1 = Move::from_gen(dir, LayerKind::Face, turns.inverse());
                    out.push(f1);
                    let f2 = Move::from_gen(Dir { axis: dir.axis, sign: -dir.sign }, LayerKind::Face, turns);
                    out.push(f2);
                    let rot = dir.rotation(turns);
                    rho = rho.then_after(&rot);
                    proof {
                        lemma_fmo_mid(self@, i as int, before, rho0, m, f1, f2, rot, rho);
                        assert(before.push(f1).push(f2) =~= out@);
                    }
                },
                LayerKind::All => {
                    let rot = dir.rotation(turns);
                    rho = rho.then_after(&rot);
                    proof {
                        lemma_fmo_all(self@, i as int, before, rho0, m, rot, rho);
                    }
                },
            }
            i += 1;
        }
        proof {
            assert(self@.take(len as int) =~= self@);
        }
        let r = Alg(out);
        assert(proper(rho) && forall|s: Seq<Face>|
            s.len() == 54 ==> #[trigger] apply_moves(s, self@) == turned(apply_moves(s, r@), rho));
        proof {
            reveal(face_form);
        }
        r
    }
}

/// The first `i` moves equal the face moves `out` followed by turning the
/// whole cube by `rho`.
pub open spec fn fmo_step(ms: Seq<Move>, i: int, out: Seq<Move>, rho: Rot3) -> bool {
    forall|s: Seq<Face>|
        s.len() == 54 ==> #[trigger] apply_moves(s, ms.take(i)) == turned(apply_moves(s, out), rho)
}

/// Move `i` relabeled through `rho0` is the face move `m`.
proof fn lemma_fmo_face(ms: Seq<Move>, i: int, before: Seq<Move>, rho0: Rot3, m: Move)
    requires
        0 <= i < ms.len(),
        fmo_step(ms, i, before, rho0),
        proper(rho0),
        m == turn_move(ms[i], rho0),
    ensures
        fmo_step(ms, i + 1, before.push(m), rho0),
{
    let id = Rot3 { cols: [[1i8, 0, 0], [0i8, 1, 0], [0i8, 0, 1]] };
    lemma_turned_identity(seq![Face::U; 54], id);
    assert forall|v: V3| #[trigger] tapply(rho0, v) == tapply(id, tapply(rho0, v)) by {}
    assert forall|u: Seq<Face>| u.len() == 54 implies #[trigger] apply_move(u, turn_move(ms[i], rho0))
        == turned(apply_moves(u, seq![m]), id) by {
        assert(seq![m].drop_last() =~= Seq::<Move>::empty());
        assert(apply_moves(u, Seq::<Move>::empty()) == u);
        assert(apply_moves(u, seq![m]) == apply_move(u, m));
        lemma_turned_identity(apply_move(u, m), id);
    }
    lemma_fmo_then(ms, i, before, rho0, seq![m], rho0);
    assert(before + seq![m] =~= before.push(m));
}

/// The relabeled move `m` about `(a, sg)` with turn `turns`, and the
/// rotation after it.
pub open spec fn fmo_parts(m: Move, rot: Rot3, rho0: Rot3, rho: Rot3, layer: LayerKind) -> bool {
    let g = m.gen_spec();
    &&& g.2 == layer
    &&& 0 <= g.0 < 3
    &&& (g.1 == 1 || g.1 == -1)
    &&& is_turn_matrix(rot, g.0, g.1, g.3.q())
    &&& rho.wf()
    &&& v3(rho.cols[0]) == rho0.apply_spec(v3(rot.cols[0]))
    &&& v3(rho.cols[1]) == rho0.apply_spec(v3(rot.cols[1]))
    &&& v3(rho.cols[2]) == rho0.apply_spec(v3(rot.cols[2]))
}

proof fn lemma_fmo_wide(ms: Seq<Move>, i: int, before: Seq<Move>, rho0: Rot3, m: Move, f: Move, rot: Rot3, rho: Rot3)
    requires
        0 <= i < ms.len(),
        fmo_step(ms, i, before, rho0),
        proper(rho0),
        m == turn_move(ms[i], rho0),
        fmo_parts(m, rot, rho0, rho, LayerKind::Wide),
        f == from_gen_spec(m.gen_spec().0, -m.gen_spec().1, LayerKind::Face, m.gen_spec().3),
    ensures
        fmo_step(ms, i + 1, before.push(f), rho),
        proper(rho),
{
    let g = m.gen_spec();
    lemma_gen_roundtrip(m);
    lemma_turn_matrix(rot, g.0, g.1, g.3.q(), (0, 0, 0));
    lemma_compose(rho0, rot, rho);
    assert forall|u: Seq<Face>| u.len() == 54 implies #[trigger] apply_move(u, turn_move(ms[i], rho0))
        == turned(apply_moves(u, seq![f]), rot) by {
        lemma_wide_split(u, g.0, g.1, g.3, rot);
        assert(seq![f].drop_last() =~= Seq::<Move>::empty());
        assert(apply_moves(u, Seq::<Move>::empty()) == u);
        assert(apply_moves(u, seq![f]) == apply_move(u, f));
    }
    lemma_fmo_then(ms, i, before, rho0, seq![f], rho);
    assert(before + seq![f] =~= before.push(f));
}

proof fn lemma_fmo_mid(
    ms: Seq<Move>,
    i: int,
    before: Seq<Move>,
    rho0: Rot3,
    m: Move,
    f1: Move,
    f2: Move,
    rot: Rot3,
    rho: Rot3,
)
    requires
        0 <= i < ms.len(),
        fmo_step(ms, i, before, rho0),
        proper(rho0),
        m == turn_move(ms[i], rho0),
        fmo_parts(m, rot, rho0, rho, LayerKind::Mid),
        f1 == from_gen_spec(m.gen_spec().0, m.gen_spec().1, LayerKind::Face, m.gen_spec().3.inverse_spec()),
        f2 == from_gen_spec(m.gen_spec().0, -m.gen_spec().1, LayerKind::Face, m.gen_spec().3),
    ensures
        fmo_step(ms, i + 1, before.push(f1).push(f2), rho),
        proper(rho),
{
    let g = m.gen_spec();
    lemma_gen_roundtrip(m);
    lemma_turn_matrix(rot, g.0, g.1, g.3.q(), (0, 0, 0));
    lemma_compose(rho0, rot, rho);
    assert forall|u: Seq<Face>| u.len() == 54 implies #[trigger] apply_move(u, turn_move(ms[i], rho0))
        == turned(apply_moves(u, seq![f1, f2]), rot) by {
        lemma_slice_split(u, g.0, g.1, g.3, rot);
        assert(seq![f1, f2].drop_last() =~= seq![f1]);
        assert(seq![f1].drop_last() =~= Seq::<Move>::empty());
        assert(apply_moves(u, Seq::<Move>::empty()) == u);
        assert(apply_moves(u, seq![f1]) == apply_move(u, f1));
        assert(apply_moves(u, seq![f1, f2]) == apply_move(apply_move(u, f1), f2));
    }
    lemma_fmo_then(ms, i, before, rho0, seq![f1, f2], rho);
    assert(before + seq![f1, f2] =~= before.push(f1).push(f2));
}

proof fn lemma_fmo_all(ms: Seq<Move>, i: int, before: Seq<Move>, rho0: Rot3, m: Move, rot: Rot3, rho: Rot3)
    requires
        0 <= i < ms.len(),
        fmo_step(ms, i, before, rho0),
        proper(rho0),
        m == turn_move(ms[i], rho0),
        fmo_parts(m, rot, rho0, rho, LayerKind::All),
    ensures
        fmo_step(ms, i + 1, before, rho),
        proper(rho),
{
    let g = m.gen_spec();
    lemma_gen_roundtrip(m);
    lemma_turn_matrix(rot, g.0, g.1, g.3.q(), (0, 0, 0));
    lemma_compose(rho0, rot, rho);
    assert forall|u: Seq<Face>| u.len() == 54 implies #[trigger] apply_move(u, turn_move(ms[i], rho0))
        == turned(apply_moves(u, Seq::<Move>::empty()), rot) by {
        lemma_rotation_move(u, g.0, g.1, g.3, rot);
    }
    lemma_fmo_then(ms, i, before, rho0, Seq::<Move>::empty(), rho);
    assert(before + Seq::<Move>::empty() =~= before);
}

proof fn lemma_fmo_start(ms: Seq<Move>, id: Rot3)
    requires
        id.cols == [[1i8, 0, 0], [0i8, 1, 0], [0i8, 0, 1]],
    ensures
        fmo_step(ms, 0, seq![], id),
        proper(id),
{
    assert(ms.take(0) =~= Seq::<Move>::empty());
    assert forall|s: Seq<Face>| s.len() == 54 implies #[trigger] apply_moves(s, ms.take(0)) == turned(
        apply_moves(s, Seq::<Move>::empty()),
        id,
    ) by {
        lemma_turned_identity(s, id);
    }
    lemma_turned_identity(seq![Face::U; 54], id);
}

/// One more move: if move `i` relabeled through `rho0` is the face moves
/// `fs` followed by the turn `rot`, and `rho = rho0 · rot`, the invariant
/// moves on.
proof fn lemma_fmo_then(
    ms: Seq<Move>,
    i: int,
    before: Seq<Move>,
    rho0: Rot3,
    fs: Seq<Move>,
    rho: Rot3,
)
    requires
        0 <= i < ms.len(),
        fmo_step(ms, i, before, rho0),
        proper(rho0),
        proper(rho),
        exists|rot: Rot3|
            #[trigger] proper(rot) && (forall|v: V3| #[trigger] tapply(rho, v) == tapply(rot, tapply(rho0, v)))
                && forall|u: Seq<Face>| u.len() == 54 ==> #[trigger] apply_move(u, turn_move(ms[i], rho0))
                == turned(apply_moves(u, fs), rot),
    ensures
        fmo_step(ms, i + 1, before + fs, rho),
{
    let rot = choose|rot: Rot3|
        #[trigger] proper(rot) && (forall|v: V3| #[trigger] tapply(rho, v) == tapply(rot, tapply(rho0, v)))
            && forall|u: Seq<Face>| u.len() == 54 ==> #[trigger] apply_move(u, turn_move(ms[i], rho0))
            == turned(apply_moves(u, fs), rot);
    assert(ms.take(i + 1).drop_last() =~= ms.take(i));
    assert(ms.take(i + 1).last() == ms[i]);
    assert forall|s: Seq<Face>| s.len() == 54 implies #[trigger] apply_moves(s, ms.take(i + 1)) == turned(
        apply_moves(s, before + fs),
        rho,
    ) by {
        let u = apply_moves(s, before);
        lemma_apply_moves_len(s, before);
        assert(apply_moves(s, ms.take(i + 1)) == apply_move(apply_moves(s, ms.take(i)), ms[i]));
        lemma_move_on_turned(u, rho0, ms[i]);
        lemma_apply_moves_append(s, before, fs);
        lemma_apply_moves_len(u, fs);
        lemma_turned_compose(apply_moves(u, fs), rot, rho0, rho);
    }
}

/// A fresh algorithm with the same moves.
pub fn copy_alg(a: &Alg) -> (r: Alg)
    ensures
        r@ == a@,
{
    let mut v: Vec<Move> = Vec::new();
    let mut i: usize = 0;
    while i < a.0.len()
        invariant
            0 <= i <= a@.len(),
            v@ == a@.subrange(0, i as int),
        decreases a@.len() - i,
    {
        v.push(a.0[i]);
        i += 1;
        assert(v@ =~= a@.subrange(0, i as int));
    }
    assert(a@.subrange(0, a@.len() as int) =~= a@);
    Alg::new(v)
}


/// The matrix of `q` clockwise quarter turns about `(axis, sign)`.
pub open spec fn turn_mat(axis: int, sign: int, q: int) -> Rot3 {
    Rot3 {
        cols: [
            to_i8v(rot_cw_pow(axis, sign, q, basis(0))),
            to_i8v(rot_cw_pow(axis, sign, q, basis(1))),
            to_i8v(rot_cw_pow(axis, sign, q, basis(2))),
        ],
    }
}

proof fn lemma_turn_mat(axis: int, sign: int, q: int)
    requires
        0 <= axis < 3,
        sign == 1 || sign == -1,
        1 <= q <= 3,
    ensures
        is_turn_matrix(turn_mat(axis, sign, q), axis, sign, q),
{
    let r = turn_mat(axis, sign, q);
    assert(v3(r.cols[0]) == rot_cw_pow(axis, sign, q, basis(0)));
    assert(v3(r.cols[1]) == rot_cw_pow(axis, sign, q, basis(1)));
    assert(v3(r.cols[2]) == rot_cw_pow(axis, sign, q, basis(2)));
}

/// Face moves `fs` followed by the turn `rot` act as the move `m`.
pub open spec fn splits(m: Move, fs: Seq<Move>, rot: Rot3) -> bool {
    &&& proper(rot)
    &&& forall|x: int| 0 <= x < fs.len() ==> is_face_move(#[trigger] fs[x])
    &&& forall|u: Seq<Face>| u.len() == 54 ==> #[trigger] apply_move(u, m) == turned(apply_moves(u, fs), rot)
}

proof fn lemma_split_face(m: Move)
    requires
        m.gen_spec().2 == LayerKind::Face,
    ensures
        splits(m, seq![m], Rot3 { cols: [[1i8, 0, 0], [0i8, 1, 0], [0i8, 0, 1]] }),
{
    let id = Rot3 { cols: [[1i8, 0, 0], [0i8, 1, 0], [0i8, 0, 1]] };
    let fs = seq![m];
    lemma_turned_identity(seq![Face::U; 54], id);
    assert forall|u: Seq<Face>| u.len() == 54 implies #[trigger] apply_move(u, m) == turned(
        apply_moves(u, fs),
        id,
    ) by {
        lemma_apply_moves_short(u, m, m);
        lemma_apply_moves_len(u, fs);
        lemma_turned_identity(apply_moves(u, fs), id);
    }
}

proof fn lemma_split_wide(m: Move)
    requires
        m.gen_spec().2 == LayerKind::Wide,
    ensures
        splits(
            m,
            seq![from_gen_spec(m.gen_spec().0, -m.gen_spec().1, LayerKind::Face, m.gen_spec().3)],
            turn_mat(m.gen_spec().0, m.gen_spec().1, m.gen_spec().3.q()),
        ),
{
    lemma_gen_wf(m);
    lemma_gen_roundtrip(m);
    let g = m.gen_spec();
    let rot = turn_mat(g.0, g.1, g.3.q());
    lemma_turn_mat(g.0, g.1, g.3.q());
    lemma_turn_matrix(rot, g.0, g.1, g.3.q(), (0, 0, 0));
    let fs = seq![from_gen_spec(g.0, -g.1, LayerKind::Face, g.3)];
    assert forall|u: Seq<Face>| u.len() == 54 implies #[trigger] apply_move(u, m) == turned(
        apply_moves(u, fs),
        rot,
    ) by {
        lemma_apply_moves_short(u, fs[0], fs[0]);
        lemma_wide_split(u, g.0, g.1, g.3, rot);
    }
}

proof fn lemma_split_mid(m: Move)
    requires
        m.gen_spec().2 == LayerKind::Mid,
    ensures
        splits(
            m,
            seq![
                from_gen_spec(m.gen_spec().0, m.gen_spec().1, LayerKind::Face, m.gen_spec().3.inverse_spec()),
                from_gen_spec(m.gen_spec().0, -m.gen_spec().1, LayerKind::Face, m.gen_spec().3),
            ],
            turn_mat(m.gen_spec().0, m.gen_spec().1, m.gen_spec().3.q()),
        ),
{
    lemma_gen_wf(m);
    lemma_gen_roundtrip(m);
    let g = m.gen_spec();
    let rot = turn_mat(g.0, g.1, g.3.q());
    lemma_turn_mat(g.0, g.1, g.3.q());
    lemma_turn_matrix(rot, g.0, g.1, g.3.q(), (0, 0, 0));
    let fs = seq![
        from_gen_spec(g.0, g.1, LayerKind::Face, g.3.inverse_spec()),
        from_gen_spec(g.0, -g.1, LayerKind::Face, g.3),
    ];
    assert forall|u: Seq<Face>| u.len() == 54 implies #[trigger] apply_move(u, m) == turned(
        apply_moves(u, fs),
        rot,
    ) by {
        lemma_apply_moves_short(u, fs[0], fs[1]);
        assert(fs == seq![fs[0], fs[1]]);
        lemma_slice_split(u, g.0, g.1, g.3, rot);
    }
}

proof fn lemma_split_all(m: Move)
    requires
        m.gen_spec().2 == LayerKind::All,
    ensures
        splits(m, seq![], turn_mat(m.gen_spec().0, m.gen_spec().1, m.gen_spec().3.q())),
{
    lemma_gen_wf(m);
    lemma_gen_roundtrip(m);
    let g = m.gen_spec();
    let rot = turn_mat(g.0, g.1, g.3.q());
    lemma_turn_mat(g.0, g.1, g.3.q());
    lemma_turn_matrix(rot, g.0, g.1, g.3.q(), (0, 0, 0));
    assert forall|u: Seq<Face>| u.len() == 54 implies #[trigger] apply_move(u, m) == turned(
        apply_moves(u, seq![]),
        rot,
    ) by {
        lemma_apply_moves_short(u, m, m);
        lemma_rotation_move(u, g.0, g.1, g.3, rot);
    }
}

/// One move is face moves followed by turning the whole cube.
proof fn lemma_move_split(m: Move) -> (res: (Seq<Move>, Rot3))
    ensures
        splits(m, res.0, res.1),
{
    let g = m.gen_spec();
    if g.2 == LayerKind::Face {
        lemma_split_face(m);
        (seq![m], Rot3 { cols: [[1i8, 0, 0], [0i8, 1, 0], [0i8, 0, 1]] })
    } else if g.2 == LayerKind::Wide {
        lemma_split_wide(m);
        (seq![from_gen_spec(g.0, -g.1, LayerKind::Face, g.3)], turn_mat(g.0, g.1, g.3.q()))
    } else if g.2 == LayerKind::Mid {
        lemma_split_mid(m);
        (
            seq![
                from_gen_spec(g.0, g.1, LayerKind::Face, g.3.inverse_spec()),
                from_gen_spec(g.0, -g.1, LayerKind::Face, g.3),
            ],
            turn_mat(g.0, g.1, g.3.q()),
        )
    } else {
        lemma_split_all(m);
        (seq![], turn_mat(g.0, g.1, g.3.q()))
    }
}

/// The first `i` moves of any sequence are face moves followed by turning
/// the whole cube.
pub proof fn lemma_split_turn(ms: Seq<Move>, i: int) -> (res: (Seq<Move>, Rot3))
    requires
        0 <= i <= ms.len(),
    ensures
        fmo_step(ms, i, res.0, res.1),
        proper(res.1),
        forall|x: int| 0 <= x < res.0.len() ==> is_face_move(#[trigger] res.0[x]),
    decreases i,
{
    if i == 0 {
        let id = Rot3 { cols: [[1i8, 0, 0], [0i8, 1, 0], [0i8, 0, 1]] };
        lemma_fmo_start(ms, id);
        (seq![], id)
    } else {
        let (before, rho0) = lemma_split_turn(ms, i - 1);
        let m = turn_move(ms[i - 1], rho0);
        let (fs, rot) = lemma_move_split(m);
        let rho = mat_mul(rho0, rot);
        lemma_mat_mul(rho0, rot);
        lemma_fmo_then(ms, i - 1, before, rho0, fs, rho);
        assert forall|x: int| 0 <= x < (before + fs).len() implies is_face_move(#[trigger] (before + fs)[x]) by {
            if x >= before.len() {
                assert((before + fs)[x] == fs[x - before.len()]);
            }
        }
        (before + fs, rho)
    }
}


} // verus!
