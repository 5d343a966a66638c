//! Integer geometry of the cube surface.
//!
//! Sticker positions are integer points on the cube surface (tangent
//! coordinates in {-2, 0, 2}, normal coordinate ±3, axes X→R, Y→U, Z→F).
//! The only hand-written data is the six face frames; every facelet
//! position, every quarter-turn rotation and every move permutation is
//! derived from them.

use vstd::prelude::*;

verus! {

/// An integer point or vector in cube space.
pub type V3 = (int, int, int);

/// `k * v` for a direction component `v` in {-1, 0, 1}.
pub open spec fn scale(k: int, v: int) -> int {
    if v == 1 {
        k
    } else if v == -1 {
        -k
    } else {
        0
    }
}

/// Dot product with a direction vector whose components are in {-1, 0, 1}.
pub open spec fn dot(p: V3, u: V3) -> int {
    scale(p.0, u.0) + scale(p.1, u.1) + scale(p.2, u.2)
}

/// Face frames `(normal, right, down)` in Kociemba face order
/// U R F D L B: facelet `(row, col)` of face `f` sits at
/// `3*normal + 2*(col-1)*right + 2*(row-1)*down`.
pub open spec fn frame(f: int) -> (V3, V3, V3) {
    if f == 0 {
        ((0, 1, 0), (1, 0, 0), (0, 0, 1))
    } else if f == 1 {
        ((1, 0, 0), (0, 0, -1), (0, -1, 0))
    } else if f == 2 {
        ((0, 0, 1), (1, 0, 0), (0, -1, 0))
    } else if f == 3 {
        ((0, -1, 0), (1, 0, 0), (0, 0, -1))
    } else if f == 4 {
        ((-1, 0, 0), (0, 0, 1), (0, -1, 0))
    } else {
        ((0, 0, -1), (-1, 0, 0), (0, -1, 0))
    }
}

/// Center position of facelet `i` (0..54, Kociemba order).
pub open spec fn sticker_pos(i: int) -> V3 {
    let fr = frame(i / 9);
    let n = fr.0;
    let rt = fr.1;
    let dn = fr.2;
    let r = (i % 9) / 3;
    let c = i % 3;
    (
        3 * n.0 + scale(2 * (c - 1), rt.0) + scale(2 * (r - 1), dn.0),
        3 * n.1 + scale(2 * (c - 1), rt.1) + scale(2 * (r - 1), dn.1),
        3 * n.2 + scale(2 * (c - 1), rt.2) + scale(2 * (r - 1), dn.2),
    )
}

pub open spec fn tangent(v: int) -> bool {
    v == -2 || v == 0 || v == 2
}

pub open spec fn normal(v: int) -> bool {
    v == 3 || v == -3
}

/// A sticker center on the cube surface.
pub open spec fn on_surface(p: V3) -> bool {
    ||| normal(p.0) && tangent(p.1) && tangent(p.2)
    ||| tangent(p.0) && normal(p.1) && tangent(p.2)
    ||| tangent(p.0) && tangent(p.1) && normal(p.2)
}

/// The face whose outward normal points at `p` (6 when none does).
pub open spec fn face_at(p: V3) -> int {
    if dot(p, frame(0).0) == 3 {
        0
    } else if dot(p, frame(1).0) == 3 {
        1
    } else if dot(p, frame(2).0) == 3 {
        2
    } else if dot(p, frame(3).0) == 3 {
        3
    } else if dot(p, frame(4).0) == 3 {
        4
    } else if dot(p, frame(5).0) == 3 {
        5
    } else {
        6
    }
}

/// The facelet index sitting at surface position `p`.
pub open spec fn facelet_at(p: V3) -> int {
    let f = face_at(p);
    let fr = frame(f);
    9 * f + 3 * ((dot(p, fr.2) + 2) / 2) + (dot(p, fr.1) + 2) / 2
}

/// One clockwise quarter turn about the oriented axis `sign * e_axis`
/// (viewed from outside, looking along `-dir`): a -90° right-hand
/// rotation about that axis.
pub open spec fn rot_cw(axis: int, sign: int, p: V3) -> V3 {
    if axis == 0 {
        if sign > 0 {
            (p.0, p.2, -p.1)
        } else {
            (p.0, -p.2, p.1)
        }
    } else if axis == 1 {
        if sign > 0 {
            (-p.2, p.1, p.0)
        } else {
            (p.2, p.1, -p.0)
        }
    } else {
        if sign > 0 {
            (p.1, -p.0, p.2)
        } else {
            (-p.1, p.0, p.2)
        }
    }
}

/// `q` clockwise quarter turns (q in 0..4).
pub open spec fn rot_cw_pow(axis: int, sign: int, q: int, p: V3) -> V3 {
    if q <= 0 {
        p
    } else if q == 1 {
        rot_cw(axis, sign, p)
    } else if q == 2 {
        rot_cw(axis, sign, rot_cw(axis, sign, p))
    } else {
        rot_cw(axis, sign, rot_cw(axis, sign, rot_cw(axis, sign, p)))
    }
}

/// Coordinate of `p` along the oriented axis.
pub open spec fn along(axis: int, sign: int, p: V3) -> int {
    let c = if axis == 0 {
        p.0
    } else if axis == 1 {
        p.1
    } else {
        p.2
    };
    if sign > 0 {
        c
    } else {
        -c
    }
}

/// Every facelet position lies on the surface and maps back to its index.
pub proof fn lemma_facelet_roundtrip(i: int)
    requires
        0 <= i < 54,
    ensures
        on_surface(sticker_pos(i)),
        facelet_at(sticker_pos(i)) == i,
{
    let f = i / 9;
    let r = (i % 9) / 3;
    let c = i % 3;
    assert(i == 9 * f + 3 * r + c);
    assert(0 <= f < 6 && 0 <= r < 3 && 0 <= c < 3);
}

/// Every surface position is the position of exactly one facelet.
pub proof fn lemma_surface_roundtrip(p: V3)
    requires
        on_surface(p),
    ensures
        0 <= facelet_at(p) < 54,
        sticker_pos(facelet_at(p)) == p,
{
    let i = facelet_at(p);
    let f = face_at(p);
    assert(0 <= f < 6);
    let r = (i % 9) / 3;
    let c = i % 3;
    assert(i / 9 == f);
}

/// Quarter turns keep the surface and the coordinate along their axis.
pub proof fn lemma_rot_cw_surface(axis: int, sign: int, p: V3)
    requires
        0 <= axis < 3,
        sign == 1 || sign == -1,
        on_surface(p),
    ensures
        on_surface(rot_cw(axis, sign, p)),
        along(axis, sign, rot_cw(axis, sign, p)) == along(axis, sign, p),
        along(axis, -sign, rot_cw(axis, sign, p)) == along(axis, -sign, p),
{
}

/// Four quarter turns are the identity; a turn against the opposite axis
/// undoes a turn about the axis.
pub proof fn lemma_rot_cw_cycle(axis: int, sign: int, p: V3)
    requires
        0 <= axis < 3,
        sign == 1 || sign == -1,
    ensures
        rot_cw(axis, sign, rot_cw(axis, sign, rot_cw(axis, sign, rot_cw(axis, sign, p)))) == p,
        rot_cw(axis, -sign, rot_cw(axis, sign, p)) == p,
{
}

/// Powers of quarter turns keep the surface and the coordinate along
/// their axis (in both orientations of the axis).
pub proof fn lemma_rot_pow_surface(axis: int, sign: int, q: int, p: V3)
    requires
        0 <= axis < 3,
        sign == 1 || sign == -1,
        on_surface(p),
    ensures
        on_surface(rot_cw_pow(axis, sign, q, p)),
        along(axis, sign, rot_cw_pow(axis, sign, q, p)) == along(axis, sign, p),
        along(axis, -sign, rot_cw_pow(axis, sign, q, p)) == along(axis, -sign, p),
{
    let p1 = rot_cw(axis, sign, p);
    let p2 = rot_cw(axis, sign, p1);
    lemma_rot_cw_surface(axis, sign, p);
    lemma_rot_cw_surface(axis, sign, p1);
    lemma_rot_cw_surface(axis, sign, p2);
}

/// Quarter-turn powers adding up to a full turn cancel.
pub proof fn lemma_rot_pow_cancel(axis: int, sign: int, q1: int, q2: int, p: V3)
    requires
        0 <= axis < 3,
        sign == 1 || sign == -1,
        1 <= q1 <= 3,
        1 <= q2 <= 3,
        q1 + q2 == 4,
    ensures
        rot_cw_pow(axis, sign, q1, rot_cw_pow(axis, sign, q2, p)) == p,
{
    lemma_rot_cw_cycle(axis, sign, p);
}

/// Quarter-turn powers compose by adding exponents (below a full turn).
pub proof fn lemma_rot_pow_add(axis: int, sign: int, q1: int, q2: int, p: V3)
    requires
        0 <= axis < 3,
        sign == 1 || sign == -1,
        0 <= q1 <= 3,
        0 <= q2 <= 3,
        q1 + q2 <= 3,
    ensures
        rot_cw_pow(axis, sign, q1, rot_cw_pow(axis, sign, q2, p)) == rot_cw_pow(
            axis,
            sign,
            q1 + q2,
            p,
        ),
{
}

} // verus!
