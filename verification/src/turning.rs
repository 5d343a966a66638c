//! Turning the whole cube by an arbitrary rotation: a right-handed signed
//! permutation matrix. A move performed on a turned cube is the move's
//! relabeled counterpart performed before the turn.

use vstd::prelude::*;
use crate::facelet::{
    apply_move, apply_moves, center_index, centers_home, normalize_spec, orientation_moves, Face,
};
use crate::frames::{lemma_from_gen_source, lemma_source_is_gen_source};
use crate::geometry::{
    along, dot, facelet_at, lemma_facelet_roundtrip, lemma_rot_pow_surface, lemma_surface_roundtrip,
    on_surface, rot_cw, rot_cw_pow, scale, sticker_pos, V3,
};
use crate::moves::{
    basis, from_gen_spec, in_layer_spec, is_unit, lemma_gen_wf, signed_basis, unit_axis, v3,
    vec_axis, vec_sign, LayerKind, Move, Rot3, Turns,
};

verus! {

/// The cross product `u × v`, for `v` with entries in {-1, 0, 1}.
pub open spec fn cross(u: V3, v: V3) -> V3 {
    (
        scale(u.1, v.2) - scale(u.2, v.1),
        scale(u.2, v.0) - scale(u.0, v.2),
        scale(u.0, v.1) - scale(u.1, v.0),
    )
}

/// A rotation: a signed permutation matrix whose columns form a
/// right-handed frame.
pub open spec fn proper(m: Rot3) -> bool {
    &&& m.wf()
    &&& v3(m.cols[2]) == cross(v3(m.cols[0]), v3(m.cols[1]))
}

/// `m⁻¹ v`: the coordinates of `v` along the columns of `m`.
pub open spec fn tapply(m: Rot3, v: V3) -> V3 {
    (dot(v, v3(m.cols[0])), dot(v, v3(m.cols[1])), dot(v, v3(m.cols[2])))
}

/// The columns of a rotation, case by case: the first column is any of
/// the six unit vectors, the second any of the four perpendicular to it,
/// the third their cross product.
proof fn lemma_proper_cases(m: Rot3)
    requires
        proper(m),
    ensures
        ({
            let c0 = v3(m.cols[0]);
            let c1 = v3(m.cols[1]);
            &&& c0 == (1int, 0int, 0int) || c0 == (-1int, 0int, 0int) || c0 == (0int, 1int, 0int) || c0 == (
                0int,
                -1int,
                0int,
            ) || c0 == (0int, 0int, 1int) || c0 == (0int, 0int, -1int)
            &&& c1 == (1int, 0int, 0int) || c1 == (-1int, 0int, 0int) || c1 == (0int, 1int, 0int) || c1 == (
                0int,
                -1int,
                0int,
            ) || c1 == (0int, 0int, 1int) || c1 == (0int, 0int, -1int)
            &&& dot(c0, c1) == 0
        }),
{
}

/// A clockwise quarter turn about `(axis, sign)` seen through the
/// rotation `m`: the turned axis is a signed unit vector, coordinates along
/// it are those along the untransformed axis, and the turn commutes with `m⁻¹`.
pub open spec fn quarter_conj(m: Rot3, axis: int, sign: int, p: V3) -> bool {
    let d = tapply(m, signed_basis(axis, sign));
    &&& 0 <= vec_axis(d) < 3
    &&& (vec_sign(d) == 1 || vec_sign(d) == -1)
    &&& signed_basis(vec_axis(d), vec_sign(d)) == d
    &&& along(vec_axis(d), vec_sign(d), tapply(m, p)) == along(axis, sign, p)
    &&& tapply(m, rot_cw(axis, sign, p)) == rot_cw(vec_axis(d), vec_sign(d), tapply(m, p))
}

/// One clockwise quarter turn seen through a rotation.
pub proof fn lemma_turn_quarter(m: Rot3, axis: int, sign: int, p: V3)
    requires
        proper(m),
        0 <= axis < 3,
        sign == 1 || sign == -1,
    ensures
        quarter_conj(m, axis, sign, p),
{
    if axis == 0 && sign == 1 {
        lemma_quarter_x_pos(m, p);
    } else if axis == 0 && sign == -1 {
        lemma_quarter_x_neg(m, p);
    } else if axis == 1 && sign == 1 {
        lemma_quarter_y_pos(m, p);
    } else if axis == 1 && sign == -1 {
        lemma_quarter_y_neg(m, p);
    } else if axis == 2 && sign == 1 {
        lemma_quarter_z_pos(m, p);
    } else if axis == 2 && sign == -1 {
        lemma_quarter_z_neg(m, p);
    }
}

proof fn lemma_quarter_x_pos(m: Rot3, p: V3)
    requires
        proper(m),
    ensures
        quarter_conj(m, 0, 1, p),
{
    lemma_proper_cases(m);
    let c1 = v3(m.cols[1]);
    if c1 == (1int, 0int, 0int) {
    } else if c1 == (-1int, 0int, 0int) {
    } else if c1 == (0int, 1int, 0int) {
    } else if c1 == (0int, -1int, 0int) {
    } else if c1 == (0int, 0int, 1int) {
    } else {
    }
}

proof fn lemma_quarter_x_neg(m: Rot3, p: V3)
    requires
        proper(m),
    ensures
        quarter_conj(m, 0, -1, p),
{
    lemma_proper_cases(m);
    let c1 = v3(m.cols[1]);
    if c1 == (1int, 0int, 0int) {
    } else if c1 == (-1int, 0int, 0int) {
    } else if c1 == (0int, 1int, 0int) {
    } else if c1 == (0int, -1int, 0int) {
    } else if c1 == (0int, 0int, 1int) {
    } else {
    }
}

proof fn lemma_quarter_y_pos(m: Rot3, p: V3)
    requires
        proper(m),
    ensures
        quarter_conj(m, 1, 1, p),
{
    lemma_proper_cases(m);
    let c1 = v3(m.cols[1]);
    if c1 == (1int, 0int, 0int) {
    } else if c1 == (-1int, 0int, 0int) {
    } else if c1 == (0int, 1int, 0int) {
    } else if c1 == (0int, -1int, 0int) {
    } else if c1 == (0int, 0int, 1int) {
    } else {
    }
}

proof fn lemma_quarter_y_neg(m: Rot3, p: V3)
    requires
        proper(m),
    ensures
        quarter_conj(m, 1, -1, p),
{
    lemma_proper_cases(m);
    let c1 = v3(m.cols[1]);
    if c1 == (1int, 0int, 0int) {
    } else if c1 == (-1int, 0int, 0int) {
    } else if c1 == (0int, 1int, 0int) {
    } else if c1 == (0int, -1int, 0int) {
    } else if c1 == (0int, 0int, 1int) {
    } else {
    }
}

proof fn lemma_quarter_z_pos(m: Rot3, p: V3)
    requires
        proper(m),
    ensures
        quarter_conj(m, 2, 1, p),
{
    lemma_proper_cases(m);
    let c1 = v3(m.cols[1]);
    if c1 == (1int, 0int, 0int) {
    } else if c1 == (-1int, 0int, 0int) {
    } else if c1 == (0int, 1int, 0int) {
    } else if c1 == (0int, -1int, 0int) {
    } else if c1 == (0int, 0int, 1int) {
    } else {
    }
}

proof fn lemma_quarter_z_neg(m: Rot3, p: V3)
    requires
        proper(m),
    ensures
        quarter_conj(m, 2, -1, p),
{
    lemma_proper_cases(m);
    let c1 = v3(m.cols[1]);
    if c1 == (1int, 0int, 0int) {
    } else if c1 == (-1int, 0int, 0int) {
    } else if c1 == (0int, 1int, 0int) {
    } else if c1 == (0int, -1int, 0int) {
    } else if c1 == (0int, 0int, 1int) {
    } else {
    }
}

/// `q` quarter turns seen through a rotation.
pub proof fn lemma_turn_pow(m: Rot3, axis: int, sign: int, q: int, p: V3)
    requires
        proper(m),
        0 <= axis < 3,
        sign == 1 || sign == -1,
        0 <= q <= 3,
    ensures
        ({
            let d = tapply(m, signed_basis(axis, sign));
            tapply(m, rot_cw_pow(axis, sign, q, p)) == rot_cw_pow(vec_axis(d), vec_sign(d), q, tapply(m, p))
        }),
{
    let p1 = rot_cw(axis, sign, p);
    let p2 = rot_cw(axis, sign, p1);
    lemma_turn_quarter(m, axis, sign, p);
    lemma_turn_quarter(m, axis, sign, p1);
    lemma_turn_quarter(m, axis, sign, p2);
}

/// The opposite direction turns into the opposite rotated direction.
pub proof fn lemma_turn_neg(m: Rot3, axis: int, sign: int)
    requires
        proper(m),
        0 <= axis < 3,
        sign == 1 || sign == -1,
    ensures
        ({
            let d = tapply(m, signed_basis(axis, sign));
            let e = tapply(m, signed_basis(axis, -sign));
            vec_axis(e) == vec_axis(d) && vec_sign(e) == -vec_sign(d)
        }),
{
    lemma_turn_quarter(m, axis, sign, (0, 0, 0));
    lemma_turn_quarter(m, axis, -sign, (0, 0, 0));
    lemma_proper_cases(m);
}

/// A rotation keeps sticker positions on the surface.
pub proof fn lemma_turn_surface(m: Rot3, p: V3)
    requires
        proper(m),
        on_surface(p),
    ensures
        on_surface(tapply(m, p)),
{
    lemma_proper_cases(m);
    let c1 = v3(m.cols[1]);
    if c1 == (1int, 0int, 0int) {
    } else if c1 == (-1int, 0int, 0int) {
    } else if c1 == (0int, 1int, 0int) {
    } else if c1 == (0int, -1int, 0int) {
    } else if c1 == (0int, 0int, 1int) {
    } else {
    }
}

/// The state `t` with the whole cube turned by the rotation `m`: the
/// sticker now at position `p` was at `m⁻¹ p`.
pub open spec fn turned(t: Seq<Face>, m: Rot3) -> Seq<Face> {
    Seq::new(54, |j: int| t[facelet_at(tapply(m, sticker_pos(j)))])
}

/// A move relabeled through the rotation `m`: the same layers and turn
/// about the axis `m⁻¹` carries its axis to.
pub open spec fn turn_move(mv: Move, m: Rot3) -> Move {
    let g = mv.gen_spec();
    let d = tapply(m, signed_basis(g.0, g.1));
    from_gen_spec(vec_axis(d), vec_sign(d), g.2, g.3)
}

/// Law: a move performed on the turned cube is its relabeled counterpart
/// performed before the turn.
pub proof fn lemma_move_on_turned(t: Seq<Face>, m: Rot3, mv: Move)
    requires
        t.len() == 54,
        proper(m),
    ensures
        apply_move(turned(t, m), mv) == turned(apply_move(t, turn_move(mv, m)), m),
{
    lemma_gen_wf(mv);
    let g = mv.gen_spec();
    let d = tapply(m, signed_basis(g.0, g.1));
    let a2 = vec_axis(d);
    let s2 = vec_sign(d);
    let cm = turn_move(mv, m);
    let u = turned(t, m);
    let lhs = apply_move(u, mv);
    let rhs = turned(apply_move(t, cm), m);
    lemma_turn_quarter(m, g.0, g.1, (0, 0, 0));
    lemma_turn_neg(m, g.0, g.1);
    assert forall|j: int| 0 <= j < 54 implies #[trigger] lhs[j] == rhs[j] by {
        let p = sticker_pos(j);
        lemma_facelet_roundtrip(j);
        lemma_turn_surface(m, p);
        let mp = tapply(m, p);
        lemma_surface_roundtrip(mp);
        let k = facelet_at(mp);
        lemma_from_gen_source(a2, s2, g.2, g.3, k);
        lemma_source_is_gen_source(mv, j);
        lemma_turn_quarter(m, g.0, g.1, p);
        if in_layer_spec(g.0, g.1, g.2, p) {
            let rp = rot_cw_pow(g.0, -g.1, g.3.q(), p);
            lemma_rot_pow_surface(g.0, -g.1, g.3.q(), p);
            lemma_surface_roundtrip(rp);
            lemma_turn_pow(m, g.0, -g.1, g.3.q(), p);
            assert(in_layer_spec(a2, s2, g.2, mp));
        } else {
            assert(!in_layer_spec(a2, s2, g.2, mp));
        }
    }
    assert(lhs =~= rhs);
}

/// Turning the whole cube by `q` quarters about `(axis, sign)`: the matrix
/// whose columns are the turned basis vectors.
pub open spec fn is_turn_matrix(r: Rot3, axis: int, sign: int, q: int) -> bool {
    &&& r.wf()
    &&& forall|a: int| 0 <= a < 3 ==> #[trigger] v3(r.cols[a]) == rot_cw_pow(axis, sign, q, basis(a))
}

/// A turn matrix is a rotation, and its inverse turns the other way.
pub proof fn lemma_turn_matrix(r: Rot3, axis: int, sign: int, q: int, p: V3)
    requires
        is_turn_matrix(r, axis, sign, q),
        0 <= axis < 3,
        sign == 1 || sign == -1,
        1 <= q <= 3,
    ensures
        proper(r),
        tapply(r, p) == rot_cw_pow(axis, -sign, q, p),
{
    assert(v3(r.cols[0]) == rot_cw_pow(axis, sign, q, basis(0)));
    assert(v3(r.cols[1]) == rot_cw_pow(axis, sign, q, basis(1)));
    assert(v3(r.cols[2]) == rot_cw_pow(axis, sign, q, basis(2)));
    if axis == 0 {
        if sign == 1 {
        } else {
        }
    } else if axis == 1 {
        if sign == 1 {
        } else {
        }
    } else {
        if sign == 1 {
        } else {
        }
    }
}

/// Turning by `q` and back by `q` in the other direction is the identity.
proof fn lemma_turn_back(axis: int, sign: int, q: int, p: V3)
    requires
        0 <= axis < 3,
        sign == 1 || sign == -1,
        0 <= q <= 3,
    ensures
        rot_cw_pow(axis, sign, q, rot_cw_pow(axis, -sign, q, p)) == p,
{
}

/// Coordinates of sticker positions along an axis.
proof fn lemma_surface_along(axis: int, sign: int, p: V3)
    requires
        on_surface(p),
        0 <= axis < 3,
        sign == 1 || sign == -1,
    ensures
        ({
            let c = along(axis, sign, p);
            c == -3 || c == -2 || c == 0 || c == 2 || c == 3
        }),
{
}

/// Law: a wide turn is the opposite face turn followed by turning the
/// whole cube.
pub proof fn lemma_wide_split(t: Seq<Face>, axis: int, sign: int, tt: Turns, r: Rot3)
    requires
        t.len() == 54,
        0 <= axis < 3,
        sign == 1 || sign == -1,
        is_turn_matrix(r, axis, sign, tt.q()),
    ensures
        apply_move(t, from_gen_spec(axis, sign, LayerKind::Wide, tt)) == turned(
            apply_move(t, from_gen_spec(axis, -sign, LayerKind::Face, tt)),
            r,
        ),
{
    let w = from_gen_spec(axis, sign, LayerKind::Wide, tt);
    let f = from_gen_spec(axis, -sign, LayerKind::Face, tt);
    let u = apply_move(t, f);
    let lhs = apply_move(t, w);
    let rhs = turned(u, r);
    let q = tt.q();
    assert forall|j: int| 0 <= j < 54 implies #[trigger] lhs[j] == rhs[j] by {
        let p = sticker_pos(j);
        lemma_facelet_roundtrip(j);
        lemma_turn_matrix(r, axis, sign, q, p);
        let x = rot_cw_pow(axis, -sign, q, p);
        lemma_rot_pow_surface(axis, -sign, q, p);
        lemma_surface_roundtrip(x);
        let k = facelet_at(x);
        lemma_from_gen_source(axis, sign, LayerKind::Wide, tt, j);
        lemma_from_gen_source(axis, -sign, LayerKind::Face, tt, k);
        lemma_surface_along(axis, sign, p);
        lemma_turn_back(axis, sign, q, p);
    }
    assert(lhs =~= rhs);
}

/// Law: a slice turn is the two face turns about its axis, in opposite
/// senses, followed by turning the whole cube.
pub proof fn lemma_slice_split(t: Seq<Face>, axis: int, sign: int, tt: Turns, r: Rot3)
    requires
        t.len() == 54,
        0 <= axis < 3,
        sign == 1 || sign == -1,
        is_turn_matrix(r, axis, sign, tt.q()),
    ensures
        apply_move(t, from_gen_spec(axis, sign, LayerKind::Mid, tt)) == turned(
            apply_move(
                apply_move(t, from_gen_spec(axis, sign, LayerKind::Face, tt.inverse_spec())),
                from_gen_spec(axis, -sign, LayerKind::Face, tt),
            ),
            r,
        ),
{
    let w = from_gen_spec(axis, sign, LayerKind::Mid, tt);
    let f1 = from_gen_spec(axis, sign, LayerKind::Face, tt.inverse_spec());
    let f2 = from_gen_spec(axis, -sign, LayerKind::Face, tt);
    let u1 = apply_move(t, f1);
    let u = apply_move(u1, f2);
    let lhs = apply_move(t, w);
    let rhs = turned(u, r);
    let q = tt.q();
    assert(tt.inverse_spec().q() == 4 - q);
    assert forall|j: int| 0 <= j < 54 implies #[trigger] lhs[j] == rhs[j] by {
        let p = sticker_pos(j);
        lemma_facelet_roundtrip(j);
        lemma_turn_matrix(r, axis, sign, q, p);
        let x = rot_cw_pow(axis, -sign, q, p);
        lemma_rot_pow_surface(axis, -sign, q, p);
        lemma_surface_roundtrip(x);
        let k = facelet_at(x);
        lemma_from_gen_source(axis, sign, LayerKind::Mid, tt, j);
        lemma_from_gen_source(axis, -sign, LayerKind::Face, tt, k);
        lemma_surface_along(axis, sign, p);
        lemma_turn_back(axis, sign, q, p);
        let c = along(axis, sign, p);
        if c <= -2 {
            lemma_from_gen_source(axis, sign, LayerKind::Face, tt.inverse_spec(), j);
        } else {
            lemma_from_gen_source(axis, sign, LayerKind::Face, tt.inverse_spec(), k);
            if c >= 2 {
                crate::geometry::lemma_rot_pow_cancel(axis, -sign, 4 - q, q, p);
            }
        }
    }
    assert(lhs =~= rhs);
}

/// Law: a whole-cube rotation move turns the cube.
pub proof fn lemma_rotation_move(t: Seq<Face>, axis: int, sign: int, tt: Turns, r: Rot3)
    requires
        t.len() == 54,
        0 <= axis < 3,
        sign == 1 || sign == -1,
        is_turn_matrix(r, axis, sign, tt.q()),
    ensures
        apply_move(t, from_gen_spec(axis, sign, LayerKind::All, tt)) == turned(t, r),
{
    let lhs = apply_move(t, from_gen_spec(axis, sign, LayerKind::All, tt));
    let rhs = turned(t, r);
    assert forall|j: int| 0 <= j < 54 implies #[trigger] lhs[j] == rhs[j] by {
        let p = sticker_pos(j);
        lemma_facelet_roundtrip(j);
        lemma_turn_matrix(r, axis, sign, tt.q(), p);
        lemma_from_gen_source(axis, sign, LayerKind::All, tt, j);
    }
    assert(lhs =~= rhs);
}

/// One of the six signed unit vectors.
pub open spec fn unit3(x: V3) -> bool {
    ||| x == (1int, 0int, 0int)
    ||| x == (-1int, 0int, 0int)
    ||| x == (0int, 1int, 0int)
    ||| x == (0int, -1int, 0int)
    ||| x == (0int, 0int, 1int)
    ||| x == (0int, 0int, -1int)
}

proof fn lemma_apply_unit(rho: Rot3, x: V3)
    requires
        rho.wf(),
        unit3(x),
    ensures
        unit3(rho.apply_spec(x)),
        forall|v: V3| #[trigger] dot(v, rho.apply_spec(x)) == dot(tapply(rho, v), x),
{
}

proof fn lemma_cross_apply(rho: Rot3, x: V3, y: V3)
    requires
        proper(rho),
        unit3(x),
        unit3(y),
    ensures
        rho.apply_spec(cross(x, y)) == cross(rho.apply_spec(x), rho.apply_spec(y)),
{
    lemma_proper_cases(rho);
    let c1 = v3(rho.cols[1]);
    if c1 == (1int, 0int, 0int) {
    } else if c1 == (-1int, 0int, 0int) {
    } else if c1 == (0int, 1int, 0int) {
    } else if c1 == (0int, -1int, 0int) {
    } else if c1 == (0int, 0int, 1int) {
    } else {
    }
}

/// Composing two rotations: `P = rho · r` is a rotation, and its inverse
/// applies `rho⁻¹` then `r⁻¹`.
pub proof fn lemma_compose(rho: Rot3, r: Rot3, pm: Rot3)
    requires
        proper(rho),
        proper(r),
        pm.wf(),
        v3(pm.cols[0]) == rho.apply_spec(v3(r.cols[0])),
        v3(pm.cols[1]) == rho.apply_spec(v3(r.cols[1])),
        v3(pm.cols[2]) == rho.apply_spec(v3(r.cols[2])),
    ensures
        proper(pm),
        forall|v: V3| #[trigger] tapply(pm, v) == tapply(r, tapply(rho, v)),
{
    assert(unit3(v3(r.cols[0])) && unit3(v3(r.cols[1])) && unit3(v3(r.cols[2])));
    lemma_apply_unit(rho, v3(r.cols[0]));
    lemma_apply_unit(rho, v3(r.cols[1]));
    lemma_apply_unit(rho, v3(r.cols[2]));
    lemma_cross_apply(rho, v3(r.cols[0]), v3(r.cols[1]));
}

/// Turning by `r`, then by `rho`, is turning by `rho · r`.
pub proof fn lemma_turned_compose(x: Seq<Face>, r: Rot3, rho: Rot3, pm: Rot3)
    requires
        x.len() == 54,
        proper(r),
        proper(rho),
        forall|v: V3| #[trigger] tapply(pm, v) == tapply(r, tapply(rho, v)),
    ensures
        turned(turned(x, r), rho) == turned(x, pm),
{
    let lhs = turned(turned(x, r), rho);
    let rhs = turned(x, pm);
    assert forall|j: int| 0 <= j < 54 implies #[trigger] lhs[j] == rhs[j] by {
        let p = sticker_pos(j);
        lemma_facelet_roundtrip(j);
        lemma_turn_surface(rho, p);
        let q = tapply(rho, p);
        lemma_surface_roundtrip(q);
        assert(tapply(pm, p) == tapply(r, q));
    }
    assert(lhs =~= rhs);
}

/// The identity turns nothing.
pub proof fn lemma_turned_identity(x: Seq<Face>, id: Rot3)
    requires
        x.len() == 54,
        id.cols == [[1i8, 0, 0], [0i8, 1, 0], [0i8, 0, 1]],
    ensures
        proper(id),
        turned(x, id) == x,
{
    let rhs = turned(x, id);
    assert forall|j: int| 0 <= j < 54 implies #[trigger] rhs[j] == x[j] by {
        lemma_facelet_roundtrip(j);
        assert(tapply(id, sticker_pos(j)) == sticker_pos(j));
    }
    assert(rhs =~= x);
}

/// The transpose applies the inverse.
pub proof fn lemma_inverse_apply(rho: Rot3, inv: Rot3)
    requires
        forall|a: int, b: int| 0 <= a < 3 && 0 <= b < 3 ==> inv.cols[a][b] == rho.cols[b][a],
    ensures
        forall|v: V3| #[trigger] inv.apply_spec(v) == tapply(rho, v),
{
    assert(inv.cols[0][0] == rho.cols[0][0] && inv.cols[0][1] == rho.cols[1][0] && inv.cols[0][2]
        == rho.cols[2][0]);
    assert(inv.cols[1][0] == rho.cols[0][1] && inv.cols[1][1] == rho.cols[1][1] && inv.cols[1][2]
        == rho.cols[2][1]);
    assert(inv.cols[2][0] == rho.cols[0][2] && inv.cols[2][1] == rho.cols[1][2] && inv.cols[2][2]
        == rho.cols[2][2]);
}

/// A move is the move its own generator builds.
pub proof fn lemma_gen_roundtrip(mv: Move)
    ensures
        from_gen_spec(mv.gen_spec().0, mv.gen_spec().1, mv.gen_spec().2, mv.gen_spec().3) == mv,
{
    lemma_gen_wf(mv);
    match mv {
        Move::Face(f, t) => {
            assert(Face::from_axis(mv.gen_spec().0, mv.gen_spec().1) == f);
        },
        Move::Wide(f, t) => {
            assert(Face::from_axis(mv.gen_spec().0, mv.gen_spec().1) == f);
        },
        _ => {},
    }
}

/// A vector with entries in {-1, 0, 1} as an array.
pub open spec fn to_i8v(v: V3) -> [i8; 3] {
    [v.0 as i8, v.1 as i8, v.2 as i8]
}

/// The product `a · b` (apply `b`, then `a`).
pub open spec fn mat_mul(a: Rot3, b: Rot3) -> Rot3 {
    Rot3 {
        cols: [
            to_i8v(a.apply_spec(v3(b.cols[0]))),
            to_i8v(a.apply_spec(v3(b.cols[1]))),
            to_i8v(a.apply_spec(v3(b.cols[2]))),
        ],
    }
}

/// The product of two rotations is a rotation, and its inverse applies
/// `a⁻¹` then `b⁻¹`.
pub proof fn lemma_mat_mul(a: Rot3, b: Rot3)
    requires
        proper(a),
        proper(b),
    ensures
        proper(mat_mul(a, b)),
        forall|v: V3| #[trigger] tapply(mat_mul(a, b), v) == tapply(b, tapply(a, v)),
{
    let pm = mat_mul(a, b);
    assert(unit3(v3(b.cols[0])) && unit3(v3(b.cols[1])) && unit3(v3(b.cols[2])));
    lemma_apply_unit(a, v3(b.cols[0]));
    lemma_apply_unit(a, v3(b.cols[1]));
    lemma_apply_unit(a, v3(b.cols[2]));
    assert(v3(pm.cols[0]) == a.apply_spec(v3(b.cols[0])));
    assert(v3(pm.cols[1]) == a.apply_spec(v3(b.cols[1])));
    assert(v3(pm.cols[2]) == a.apply_spec(v3(b.cols[2])));
    lemma_mul_wf(a, b);
    lemma_compose(a, b, pm);
}

proof fn lemma_mul_wf(a: Rot3, b: Rot3)
    requires
        proper(a),
        proper(b),
    ensures
        mat_mul(a, b).wf(),
{
    lemma_proper_cases(a);
    lemma_proper_cases(b);
    let c1 = v3(b.cols[1]);
    if c1 == (1int, 0int, 0int) {
    } else if c1 == (-1int, 0int, 0int) {
    } else if c1 == (0int, 1int, 0int) {
    } else if c1 == (0int, -1int, 0int) {
    } else if c1 == (0int, 0int, 1int) {
    } else {
    }
}

/// The identity.
pub open spec fn ident() -> Rot3 {
    Rot3 { cols: [[1i8, 0, 0], [0i8, 1, 0], [0i8, 0, 1]] }
}

/// The matrix of a whole-cube rotation move.
pub open spec fn rot_move_mat(mv: Move) -> Rot3 {
    let g = mv.gen_spec();
    Rot3 {
        cols: [
            to_i8v(rot_cw_pow(g.0, g.1, g.3.q(), basis(0))),
            to_i8v(rot_cw_pow(g.0, g.1, g.3.q(), basis(1))),
            to_i8v(rot_cw_pow(g.0, g.1, g.3.q(), basis(2))),
        ],
    }
}

/// A whole-cube rotation move turns the cube by its matrix.
pub proof fn lemma_rot_move(x: Seq<Face>, mv: Move)
    requires
        x.len() == 54,
        mv is Rot,
    ensures
        proper(rot_move_mat(mv)),
        apply_move(x, mv) == turned(x, rot_move_mat(mv)),
{
    let g = mv.gen_spec();
    let r = rot_move_mat(mv);
    lemma_gen_wf(mv);
    assert(v3(r.cols[0]) == rot_cw_pow(g.0, g.1, g.3.q(), basis(0)));
    assert(v3(r.cols[1]) == rot_cw_pow(g.0, g.1, g.3.q(), basis(1)));
    assert(v3(r.cols[2]) == rot_cw_pow(g.0, g.1, g.3.q(), basis(2)));
    assert(is_turn_matrix(r, g.0, g.1, g.3.q()));
    lemma_turn_matrix(r, g.0, g.1, g.3.q(), (0, 0, 0));
    lemma_gen_roundtrip(mv);
    lemma_rotation_move(x, g.0, g.1, g.3, r);
}

/// All moves are whole-cube rotations.
pub open spec fn all_rotations(rots: Seq<Move>) -> bool {
    forall|i: int| 0 <= i < rots.len() ==> #[trigger] rots[i] is Rot
}

/// The matrix of a sequence of whole-cube rotation moves.
pub open spec fn rots_mat(rots: Seq<Move>) -> Rot3
    decreases rots.len(),
{
    if rots.len() == 0 {
        ident()
    } else {
        mat_mul(rot_move_mat(rots.last()), rots_mat(rots.drop_last()))
    }
}

/// Whole-cube rotation moves turn the cube by the product of their
/// matrices.
pub proof fn lemma_rots_turned(x: Seq<Face>, rots: Seq<Move>)
    requires
        x.len() == 54,
        all_rotations(rots),
    ensures
        proper(rots_mat(rots)),
        apply_moves(x, rots) == turned(x, rots_mat(rots)),
    decreases rots.len(),
{
    if rots.len() == 0 {
        lemma_turned_identity(x, ident());
    } else {
        let init = rots.drop_last();
        let last = rots.last();
        assert(last == rots[rots.len() - 1]);
        lemma_rots_turned(x, init);
        let pm = rots_mat(init);
        let r = rot_move_mat(last);
        lemma_rot_move(turned(x, pm), last);
        lemma_mat_mul(r, pm);
        lemma_turned_compose(x, pm, r, mat_mul(r, pm));
    }
}

/// Only the identity keeps home centers home.
pub proof fn lemma_home_unique(s: Seq<Face>, pm: Rot3)
    requires
        s.len() == 54,
        centers_home(s),
        proper(pm),
        centers_home(turned(s, pm)),
    ensures
        turned(s, pm) == s,
{
    let t = turned(s, pm);
    assert(s[9 * 0int + 4] == Face::from_ord(0) && s[9 * 1int + 4] == Face::from_ord(1));
    assert(s[9 * 2int + 4] == Face::from_ord(2) && s[9 * 3int + 4] == Face::from_ord(3));
    assert(s[9 * 4int + 4] == Face::from_ord(4) && s[9 * 5int + 4] == Face::from_ord(5));
    assert(t[9 * 0int + 4] == Face::from_ord(0) && t[9 * 1int + 4] == Face::from_ord(1));
    assert(t[9 * 2int + 4] == Face::from_ord(2) && t[9 * 3int + 4] == Face::from_ord(3));
    assert(t[9 * 4int + 4] == Face::from_ord(4) && t[9 * 5int + 4] == Face::from_ord(5));
    lemma_home_centers_fix(s, pm);
    assert forall|j: int| 0 <= j < 54 implies #[trigger] t[j] == s[j] by {
        lemma_facelet_roundtrip(j);
    }
    assert(t =~= s);
}

proof fn lemma_home_centers_fix(s: Seq<Face>, pm: Rot3)
    requires
        s.len() == 54,
        proper(pm),
        s[4] == Face::U && s[13] == Face::R && s[22] == Face::F,
        s[31] == Face::D && s[40] == Face::L && s[49] == Face::B,
        turned(s, pm)[4] == Face::U && turned(s, pm)[13] == Face::R && turned(s, pm)[22] == Face::F,
        turned(s, pm)[31] == Face::D && turned(s, pm)[40] == Face::L && turned(s, pm)[49] == Face::B,
    ensures
        forall|v: V3| #[trigger] tapply(pm, v) == v,
{
    lemma_proper_cases(pm);
    let c1 = v3(pm.cols[1]);
    assert(sticker_pos(4) == (0int, 3int, 0int));
    assert(sticker_pos(13) == (3int, 0int, 0int));
    assert(sticker_pos(22) == (0int, 0int, 3int));
    assert(facelet_at((0int, 3int, 0int)) == 4);
    assert(facelet_at((3int, 0int, 0int)) == 13);
    assert(facelet_at((0int, 0int, 3int)) == 22);
    assert(facelet_at((0int, -3int, 0int)) == 31);
    assert(facelet_at((-3int, 0int, 0int)) == 40);
    assert(facelet_at((0int, 0int, -3int)) == 49);
    if c1 == (1int, 0int, 0int) {
    } else if c1 == (-1int, 0int, 0int) {
    } else if c1 == (0int, 1int, 0int) {
    } else if c1 == (0int, -1int, 0int) {
    } else if c1 == (0int, 0int, 1int) {
    } else {
    }
}

/// Where the inverse of orientation sequence `k` sends `v`.
pub open spec fn om_inv(k: int, v: V3) -> V3 {
    let top = k / 4;
    let w = rot_cw_pow(1, -1, k % 4, v);
    if top == 0 {
        w
    } else if top == 1 {
        rot_cw_pow(0, -1, 1, w)
    } else if top == 2 {
        rot_cw_pow(0, -1, 2, w)
    } else if top == 3 {
        rot_cw_pow(0, -1, 3, w)
    } else if top == 4 {
        rot_cw_pow(2, -1, 1, w)
    } else {
        rot_cw_pow(2, -1, 3, w)
    }
}

/// Orientation sequence `k` undoes the turn `g`.
pub open spec fn om_fixes(g: Rot3, k: int) -> bool {
    forall|v: V3| #[trigger] tapply(g, om_inv(k, v)) == v
}

proof fn lemma_rots_tapply(rots: Seq<Move>, v: V3)
    requires
        all_rotations(rots),
        rots.len() > 0,
    ensures
        tapply(rots_mat(rots), v) == tapply(rots_mat(rots.drop_last()), rot_cw_pow(
            rots.last().gen_spec().0,
            -rots.last().gen_spec().1,
            rots.last().gen_spec().3.q(),
            v,
        )),
{
    let last = rots.last();
    assert(last == rots[rots.len() - 1]);
    lemma_rots_turned(seq![Face::U; 54], rots.drop_last());
    lemma_rot_move(seq![Face::U; 54], last);
    let g = last.gen_spec();
    lemma_gen_wf(last);
    let r = rot_move_mat(last);
    assert(v3(r.cols[0]) == rot_cw_pow(g.0, g.1, g.3.q(), basis(0)));
    assert(v3(r.cols[1]) == rot_cw_pow(g.0, g.1, g.3.q(), basis(1)));
    assert(v3(r.cols[2]) == rot_cw_pow(g.0, g.1, g.3.q(), basis(2)));
    lemma_turn_matrix(r, g.0, g.1, g.3.q(), v);
    lemma_mat_mul(r, rots_mat(rots.drop_last()));
}

/// Orientation sequence `k` turns the cube; its inverse is `om_inv(k, ·)`.
#[verifier::rlimit(100)]
#[verifier::spinoff_prover]
pub proof fn lemma_om(x: Seq<Face>, k: int, v: V3)
    requires
        x.len() == 54,
        0 <= k < 24,
    ensures
        proper(rots_mat(orientation_moves(k))),
        apply_moves(x, orientation_moves(k)) == turned(x, rots_mat(orientation_moves(k))),
        tapply(rots_mat(orientation_moves(k)), v) == om_inv(k, v),
{
    let om = orientation_moves(k);
    assert(all_rotations(om));
    lemma_rots_turned(x, om);
    if om.len() == 0 {
        assert(tapply(ident(), v) == v);
    } else if om.len() == 1 {
        lemma_rots_tapply(om, v);
        assert(om.drop_last() =~= Seq::<Move>::empty());
    } else {
        lemma_rots_tapply(om, v);
        let w = rot_cw_pow(om.last().gen_spec().0, -om.last().gen_spec().1, om.last().gen_spec().3.q(), v);
        lemma_rots_tapply(om.drop_last(), w);
        assert(om.drop_last().drop_last() =~= Seq::<Move>::empty());
    }
}

/// Every rotation is undone by one of the orientation sequences.
proof fn lemma_cover(g: Rot3)
    requires
        proper(g),
    ensures
        exists|k: int| 0 <= k < 24 && #[trigger] om_fixes(g, k),
{
    lemma_proper_cases(g);
    let c0 = v3(g.cols[0]);
    let c1 = v3(g.cols[1]);
    if c0 == (1int, 0int, 0int) {
        if c1 == (0int, 1int, 0int) {
            assert(om_fixes(g, 0));
        } else if c1 == (0int, -1int, 0int) {
            assert(om_fixes(g, 8));
        } else if c1 == (0int, 0int, 1int) {
            assert(om_fixes(g, 4));
        } else if c1 == (0int, 0int, -1int) {
            assert(om_fixes(g, 12));
        }
    } else if c0 == (-1int, 0int, 0int) {
        if c1 == (0int, 1int, 0int) {
            assert(om_fixes(g, 2));
        } else if c1 == (0int, -1int, 0int) {
            assert(om_fixes(g, 10));
        } else if c1 == (0int, 0int, 1int) {
            assert(om_fixes(g, 6));
        } else if c1 == (0int, 0int, -1int) {
            assert(om_fixes(g, 14));
        }
    } else if c0 == (0int, 1int, 0int) {
        if c1 == (1int, 0int, 0int) {
            assert(om_fixes(g, 22));
        } else if c1 == (-1int, 0int, 0int) {
            assert(om_fixes(g, 16));
        } else if c1 == (0int, 0int, 1int) {
            assert(om_fixes(g, 5));
        } else if c1 == (0int, 0int, -1int) {
            assert(om_fixes(g, 15));
        }
    } else if c0 == (0int, -1int, 0int) {
        if c1 == (1int, 0int, 0int) {
            assert(om_fixes(g, 20));
        } else if c1 == (-1int, 0int, 0int) {
            assert(om_fixes(g, 18));
        } else if c1 == (0int, 0int, 1int) {
            assert(om_fixes(g, 7));
        } else if c1 == (0int, 0int, -1int) {
            assert(om_fixes(g, 13));
        }
    } else if c0 == (0int, 0int, 1int) {
        if c1 == (1int, 0int, 0int) {
            assert(om_fixes(g, 23));
        } else if c1 == (-1int, 0int, 0int) {
            assert(om_fixes(g, 19));
        } else if c1 == (0int, 1int, 0int) {
            assert(om_fixes(g, 3));
        } else if c1 == (0int, -1int, 0int) {
            assert(om_fixes(g, 9));
        }
    } else if c0 == (0int, 0int, -1int) {
        if c1 == (1int, 0int, 0int) {
            assert(om_fixes(g, 21));
        } else if c1 == (-1int, 0int, 0int) {
            assert(om_fixes(g, 17));
        } else if c1 == (0int, 1int, 0int) {
            assert(om_fixes(g, 1));
        } else if c1 == (0int, -1int, 0int) {
            assert(om_fixes(g, 11));
        }
    }
}

/// A turn that moves no vector leaves the state alone.
proof fn lemma_turned_fix(x: Seq<Face>, pm: Rot3)
    requires
        x.len() == 54,
        forall|v: V3| #[trigger] tapply(pm, v) == v,
    ensures
        turned(x, pm) == x,
{
    let t = turned(x, pm);
    assert forall|j: int| 0 <= j < 54 implies #[trigger] t[j] == x[j] by {
        lemma_facelet_roundtrip(j);
        assert(tapply(pm, sticker_pos(j)) == sticker_pos(j));
    }
    assert(t =~= x);
}

/// A least index satisfying a property below `k` exists when `k` does.
pub proof fn lemma_least(p: spec_fn(int) -> bool, k: int)
    requires
        0 <= k,
        p(k),
    ensures
        exists|m: int| 0 <= m <= k && #[trigger] p(m) && forall|j: int| 0 <= j < m ==> !#[trigger] p(j),
    decreases k,
{
    if exists|j: int| 0 <= j < k && #[trigger] p(j) {
        let j = choose|j: int| 0 <= j < k && #[trigger] p(j);
        lemma_least(p, j);
    } else {
        assert(0 <= k <= k && p(k) && forall|j: int| 0 <= j < k ==> !#[trigger] p(j));
    }
}

/// Normalization turns by the first orientation sequence that brings the
/// centers home.
proof fn lemma_normalize_is(t: Seq<Face>, k: int)
    requires
        !centers_home(t),
        0 <= k < 24,
        centers_home(apply_moves(t, orientation_moves(k))),
        forall|j: int| 0 <= j < k ==> !centers_home(apply_moves(t, orientation_moves(j))),
    ensures
        normalize_spec(t) == apply_moves(t, orientation_moves(k)),
{
    let c = choose|c: int|
        0 <= c < 24 && centers_home(apply_moves(t, orientation_moves(c))) && forall|j: int|
            0 <= j < c ==> !centers_home(apply_moves(t, orientation_moves(j)));
    assert(0 <= c < 24 && centers_home(apply_moves(t, orientation_moves(c))));
    if c < k {
        assert(!centers_home(apply_moves(t, orientation_moves(c))));
    } else if k < c {
        assert(!centers_home(apply_moves(t, orientation_moves(k))));
    }
}

/// Some orientation sequence undoes a turn of a cube with home centers.
proof fn lemma_some_orientation(s: Seq<Face>, g: Rot3) -> (k0: int)
    requires
        s.len() == 54,
        centers_home(s),
        proper(g),
    ensures
        0 <= k0 < 24,
        centers_home(apply_moves(turned(s, g), orientation_moves(k0))),
{
    let t = turned(s, g);
    lemma_cover(g);
    let k0 = choose|k: int| 0 <= k < 24 && #[trigger] om_fixes(g, k);
    let m0 = rots_mat(orientation_moves(k0));
    lemma_om(t, k0, (0, 0, 0));
    assert forall|v: V3| #[trigger] tapply(m0, v) == om_inv(k0, v) by {
        lemma_om(t, k0, v);
    }
    lemma_mat_mul(m0, g);
    lemma_turned_compose(s, g, m0, mat_mul(m0, g));
    assert forall|v: V3| #[trigger] tapply(mat_mul(m0, g), v) == v by {
        assert(tapply(g, om_inv(k0, v)) == v);
    }
    lemma_turned_fix(s, mat_mul(m0, g));
    k0
}

/// Orientation normalization undoes any turn of a cube whose centers are
/// home.
pub proof fn lemma_normalize_turned(s: Seq<Face>, g: Rot3)
    requires
        s.len() == 54,
        centers_home(s),
        proper(g),
    ensures
        normalize_spec(turned(s, g)) == s,
{
    let t = turned(s, g);
    if centers_home(t) {
        lemma_home_unique(s, g);
    } else {
        let k0 = lemma_some_orientation(s, g);
        let p = |k: int| 0 <= k < 24 && centers_home(apply_moves(t, orientation_moves(k)));
        assert(p(k0));
        lemma_least(p, k0);
        let k = choose|k: int| 0 <= k <= k0 && #[trigger] p(k) && forall|j: int| 0 <= j < k ==> !#[trigger] p(j);
        assert forall|j: int| 0 <= j < k implies !centers_home(apply_moves(t, orientation_moves(j))) by {
            assert(!p(j));
        }
        lemma_normalize_is(t, k);
        let mk = rots_mat(orientation_moves(k));
        lemma_om(t, k, (0, 0, 0));
        lemma_mat_mul(mk, g);
        lemma_turned_compose(s, g, mk, mat_mul(mk, g));
        lemma_home_unique(s, mat_mul(mk, g));
    }
}

/// Law: orientation normalization undoes any sequence of whole-cube
/// rotations of a cube whose centers are home.
pub proof fn lemma_normalize_undoes_rotations(s: Seq<Face>, rots: Seq<Move>)
    requires
        s.len() == 54,
        centers_home(s),
        all_rotations(rots),
    ensures
        normalize_spec(apply_moves(s, rots)) == s,
{
    lemma_rots_turned(s, rots);
    lemma_normalize_turned(s, rots_mat(rots));
}

/// A face move takes the center sticker of face `f` from where it is.
proof fn lemma_face_center_source(m: Move, f: int)
    requires
        m is Face,
        0 <= f < 6,
    ensures
        m.source(9 * f + 4) == 9 * f + 4,
{
    let j = 9 * f + 4;
    lemma_gen_wf(m);
    lemma_source_is_gen_source(m, j);
    lemma_facelet_roundtrip(j);
    let g = m.gen_spec();
    let p = sticker_pos(j);
    if f == 0 {
        assert(p == (0int, 3int, 0int));
    } else if f == 1 {
        assert(p == (3int, 0int, 0int));
    } else if f == 2 {
        assert(p == (0int, 0int, 3int));
    } else if f == 3 {
        assert(p == (0int, -3int, 0int));
    } else if f == 4 {
        assert(p == (-3int, 0int, 0int));
    } else {
        assert(p == (0int, 0int, -3int));
    }
    if in_layer_spec(g.0, g.1, g.2, p) {
        assert(rot_cw_pow(g.0, -g.1, g.3.q(), p) == p);
    }
}

/// A face move leaves every center sticker in place.
pub proof fn lemma_face_keeps_centers(t: Seq<Face>, m: Move)
    requires
        t.len() == 54,
        m is Face,
    ensures
        forall|f: int| 0 <= f < 6 ==> #[trigger] apply_move(t, m)[9 * f + 4] == t[9 * f + 4],
{
    assert forall|f: int| 0 <= f < 6 implies #[trigger] apply_move(t, m)[9 * f + 4] == t[9 * f + 4] by {
        lemma_face_center_source(m, f);
    }
}

/// Face moves leave every center sticker in place.
pub proof fn lemma_face_moves_keep_centers(t: Seq<Face>, ms: Seq<Move>)
    requires
        t.len() == 54,
        forall|x: int| 0 <= x < ms.len() ==> #[trigger] ms[x] is Face,
    ensures
        forall|f: int| 0 <= f < 6 ==> #[trigger] apply_moves(t, ms)[9 * f + 4] == t[9 * f + 4],
    decreases ms.len(),
{
    if ms.len() > 0 {
        let init = ms.drop_last();
        assert(ms.last() == ms[ms.len() - 1]);
        assert forall|x: int| 0 <= x < init.len() implies #[trigger] init[x] is Face by {
            assert(init[x] == ms[x]);
        }
        lemma_face_moves_keep_centers(t, init);
        crate::facelet::lemma_apply_moves_len(t, init);
        lemma_face_keeps_centers(apply_moves(t, init), ms.last());
    }
}


/// Three times a vector.
pub open spec fn times3(d: V3) -> V3 {
    (3 * d.0, 3 * d.1, 3 * d.2)
}

/// The face whose outward normal is the unit vector `d`.
pub open spec fn normal_face(d: V3) -> Face {
    if d == (0int, 1int, 0int) {
        Face::U
    } else if d == (1int, 0int, 0int) {
        Face::R
    } else if d == (0int, 0int, 1int) {
        Face::F
    } else if d == (0int, -1int, 0int) {
        Face::D
    } else if d == (-1int, 0int, 0int) {
        Face::L
    } else {
        Face::B
    }
}

/// The center sticker of the face with outward normal `d` sits at `3d`;
/// different normals belong to different faces.
pub proof fn lemma_center_at(d: V3)
    requires
        unit3(d),
    ensures
        facelet_at(times3(d)) == center_index(normal_face(d)),
        forall|e: V3| unit3(e) && #[trigger] normal_face(e) == normal_face(d) ==> e == d,
{
    assert(facelet_at((0int, 3int, 0int)) == 4);
    assert(facelet_at((3int, 0int, 0int)) == 13);
    assert(facelet_at((0int, 0int, 3int)) == 22);
    assert(facelet_at((0int, -3int, 0int)) == 31);
    assert(facelet_at((-3int, 0int, 0int)) == 40);
    assert(facelet_at((0int, 0int, -3int)) == 49);
}

/// A rotation takes unit vectors to unit vectors, one to one, and scales
/// along.
pub proof fn lemma_tapply_unit(g: Rot3, d: V3)
    requires
        proper(g),
        unit3(d),
    ensures
        unit3(tapply(g, d)),
        tapply(g, times3(d)) == times3(tapply(g, d)),
        forall|e: V3| unit3(e) && #[trigger] tapply(g, e) == tapply(g, d) ==> e == d,
{
    lemma_proper_cases(g);
    let c1 = v3(g.cols[1]);
    if c1 == (1int, 0int, 0int) {
    } else if c1 == (-1int, 0int, 0int) {
    } else if c1 == (0int, 1int, 0int) {
    } else if c1 == (0int, -1int, 0int) {
    } else if c1 == (0int, 0int, 1int) {
    } else {
    }
}

/// Turning the cube by `g` shows, at the center of the face with normal
/// `d`, the center that was at the normal `g⁻¹ d`.
pub proof fn lemma_turned_center(y: Seq<Face>, g: Rot3, d: V3)
    requires
        y.len() == 54,
        proper(g),
        unit3(d),
    ensures
        unit3(tapply(g, d)),
        turned(y, g)[center_index(normal_face(d))] == y[center_index(normal_face(tapply(g, d)))],
{
    lemma_center_at(d);
    lemma_tapply_unit(g, d);
    lemma_center_at(tapply(g, d));
    let j = center_index(normal_face(d));
    lemma_facelet_roundtrip(j);
    assert(sticker_pos(4) == (0int, 3int, 0int));
    assert(sticker_pos(13) == (3int, 0int, 0int));
    assert(sticker_pos(22) == (0int, 0int, 3int));
    assert(sticker_pos(31) == (0int, -3int, 0int));
    assert(sticker_pos(40) == (-3int, 0int, 0int));
    assert(sticker_pos(49) == (0int, 0int, -3int));
    assert(sticker_pos(j) == times3(d));
}

} // verus!
