//! Whole-cube frame changes: relabeling moves through y rotations.

use vstd::prelude::*;
use crate::facelet::{apply_move, apply_moves, lemma_apply_moves_append, lemma_apply_moves_len, lemma_move_then_inverse, rotate_y_spec, Face};
use crate::geometry::{
    facelet_at, lemma_facelet_roundtrip, lemma_rot_pow_surface, lemma_surface_roundtrip, on_surface,
    rot_cw, rot_cw_pow, sticker_pos, V3, along,
};
use crate::moves::{
    from_gen_spec, in_layer_spec, lemma_gen_wf, relabel_y, relabel_y_moves, signed_basis, vec_axis,
    vec_sign, LayerKind, Move, RotAxis, Turns,
};

verus! {

/// The facelet a generator `(axis, sign, layer, q)` brings to facelet `j`.
pub open spec fn gen_source(axis: int, sign: int, layer: LayerKind, q: int, j: int) -> int {
    let p = sticker_pos(j);
    if in_layer_spec(axis, sign, layer, p) {
        facelet_at(rot_cw_pow(axis, -sign, q, p))
    } else {
        j
    }
}

/// A move's source is the source of its generator.
pub proof fn lemma_source_is_gen_source(m: Move, j: int)
    ensures
        m.source(j) == gen_source(m.gen_spec().0, m.gen_spec().1, m.gen_spec().2, m.gen_spec().3.q(), j),
{
}

/// The move built from a generator moves stickers exactly as that
/// generator does, whichever orientation of the axis it was given in.
pub proof fn lemma_from_gen_source(axis: int, sign: int, layer: LayerKind, t: Turns, j: int)
    requires
        0 <= axis < 3,
        sign == 1 || sign == -1,
        0 <= j < 54,
    ensures
        from_gen_spec(axis, sign, layer, t).source(j) == gen_source(axis, sign, layer, t.q(), j),
{
    let m = from_gen_spec(axis, sign, layer, t);
    let p = sticker_pos(j);
    lemma_facelet_roundtrip(j);
    let g = m.gen_spec();
    if g.1 != sign {
        // Slices and rotations flip to their canonical direction with the
        // inverse turn: the same rotation.
        assert(g.0 == axis && g.1 == -sign && g.2 == layer && g.3.q() == 4 - t.q());
        assert(layer == LayerKind::Mid || layer == LayerKind::All);
        assert(rot_cw_pow(axis, sign, 4 - t.q(), p) == rot_cw_pow(axis, -sign, t.q(), p));
    }
}

/// `y^j` moves position `p` to `rot_cw_pow(1, 1, j, p)`; its inverse undoes it.
pub proof fn lemma_y_cancel(jj: int, p: V3)
    requires
        0 <= jj < 4,
    ensures
        rot_cw_pow(1, -1, jj, rot_cw_pow(1, 1, jj, p)) == p,
        rot_cw_pow(1, 1, jj, rot_cw_pow(1, -1, jj, p)) == p,
{
}

/// Vector form of equivariance: the frame change `y^jj` carries the axis
/// of a generator to `d`, its layers and its rotation along with it.
pub proof fn lemma_y_conjugate_vec(jj: int, axis: int, sign: int, q: int, p: V3)
    requires
        0 <= jj < 4,
        0 <= axis < 3,
        sign == 1 || sign == -1,
        1 <= q <= 3,
    ensures
        ({
            let d = rot_cw_pow(1, -1, jj, signed_basis(axis, sign));
            &&& 0 <= vec_axis(d) < 3
            &&& (vec_sign(d) == 1 || vec_sign(d) == -1)
            &&& along(vec_axis(d), vec_sign(d), p) == along(axis, sign, rot_cw_pow(1, 1, jj, p))
            &&& rot_cw_pow(1, -1, jj, rot_cw_pow(axis, -sign, q, rot_cw_pow(1, 1, jj, p)))
                == rot_cw_pow(vec_axis(d), -vec_sign(d), q, p)
        }),
{
    if jj == 0 {
    } else if jj == 1 {
        lemma_y1(axis, sign, q, p);
    } else if jj == 2 {
        lemma_y2(axis, sign, q, p);
    } else {
        lemma_y3(axis, sign, q, p);
    }
}

proof fn lemma_y1(axis: int, sign: int, q: int, p: V3)
    requires
        0 <= axis < 3,
        sign == 1 || sign == -1,
        1 <= q <= 3,
    ensures
        ({
            let d = rot_cw_pow(1, -1, 1, signed_basis(axis, sign));
            &&& along(vec_axis(d), vec_sign(d), p) == along(axis, sign, rot_cw_pow(1, 1, 1, p))
            &&& rot_cw_pow(1, -1, 1, rot_cw_pow(axis, -sign, q, rot_cw_pow(1, 1, 1, p)))
                == rot_cw_pow(vec_axis(d), -vec_sign(d), q, p)
        }),
{
    if axis == 0 {} else if axis == 1 {} else {}
}

proof fn lemma_y2(axis: int, sign: int, q: int, p: V3)
    requires
        0 <= axis < 3,
        sign == 1 || sign == -1,
        1 <= q <= 3,
    ensures
        ({
            let d = rot_cw_pow(1, -1, 2, signed_basis(axis, sign));
            &&& along(vec_axis(d), vec_sign(d), p) == along(axis, sign, rot_cw_pow(1, 1, 2, p))
            &&& rot_cw_pow(1, -1, 2, rot_cw_pow(axis, -sign, q, rot_cw_pow(1, 1, 2, p)))
                == rot_cw_pow(vec_axis(d), -vec_sign(d), q, p)
        }),
{
    if axis == 0 {} else if axis == 1 {} else {}
}

proof fn lemma_y3(axis: int, sign: int, q: int, p: V3)
    requires
        0 <= axis < 3,
        sign == 1 || sign == -1,
        1 <= q <= 3,
    ensures
        ({
            let d = rot_cw_pow(1, -1, 3, signed_basis(axis, sign));
            &&& along(vec_axis(d), vec_sign(d), p) == along(axis, sign, rot_cw_pow(1, 1, 3, p))
            &&& rot_cw_pow(1, -1, 3, rot_cw_pow(axis, -sign, q, rot_cw_pow(1, 1, 3, p)))
                == rot_cw_pow(vec_axis(d), -vec_sign(d), q, p)
        }),
{
    if axis == 0 {} else if axis == 1 {} else {}
}

/// Equivariance of one generator under the frame change `y^jj`.
pub proof fn lemma_gen_source_y(jj: int, axis: int, sign: int, layer: LayerKind, q: int, i: int)
    requires
        0 <= jj < 4,
        0 <= axis < 3,
        sign == 1 || sign == -1,
        1 <= q <= 3,
        0 <= i < 54,
    ensures
        ({
            let d = rot_cw_pow(1, -1, jj, signed_basis(axis, sign));
            gen_source(vec_axis(d), vec_sign(d), layer, q, i) == facelet_at(
                rot_cw_pow(
                    1,
                    -1,
                    jj,
                    sticker_pos(
                        gen_source(axis, sign, layer, q, facelet_at(rot_cw_pow(1, 1, jj, sticker_pos(i)))),
                    ),
                ),
            )
        }),
{
    let d = rot_cw_pow(1, -1, jj, signed_basis(axis, sign));
    let a2 = vec_axis(d);
    let s2 = vec_sign(d);
    let p = sticker_pos(i);
    lemma_facelet_roundtrip(i);
    let gp = rot_cw_pow(1, 1, jj, p);
    lemma_rot_pow_surface(1, 1, jj, p);
    lemma_surface_roundtrip(gp);
    let k = facelet_at(gp);
    assert(sticker_pos(k) == gp);
    lemma_y_cancel(jj, p);
    lemma_y_conjugate_vec(jj, axis, sign, q, p);
    if in_layer_spec(axis, sign, layer, gp) {
        let rgp = rot_cw_pow(axis, -sign, q, gp);
        lemma_rot_pow_surface(axis, -sign, q, gp);
        lemma_surface_roundtrip(rgp);
        assert(gen_source(axis, sign, layer, q, k) == facelet_at(rgp));
        assert(in_layer_spec(a2, s2, layer, p));
    } else {
        assert(gen_source(axis, sign, layer, q, k) == k);
        assert(!in_layer_spec(a2, s2, layer, p));
    }
}

/// `y^jj` as a state transformation, facelet by facelet.
proof fn lemma_rotate_y_source(s: Seq<Face>, jj: int, k: int)
    requires
        s.len() == 54,
        0 <= jj < 4,
        0 <= k < 54,
    ensures
        rotate_y_spec(s, jj)[k] == s[facelet_at(rot_cw_pow(1, -1, jj, sticker_pos(k)))],
        rotate_y_spec(s, 4 - jj)[k] == s[facelet_at(rot_cw_pow(1, 1, jj, sticker_pos(k)))],
        rotate_y_spec(s, jj).len() == 54,
        rotate_y_spec(s, 4 - jj).len() == 54,
{
    lemma_facelet_roundtrip(k);
    let p = sticker_pos(k);
    assert(rot_cw_pow(1, -1, 4 - jj, p) == rot_cw_pow(1, 1, jj, p) || jj == 0);
}

/// Law: a move relabeled into the `y^jj` frame acts like the given
/// move performed on the cube turned by `y^jj`, then turned back.
pub proof fn lemma_relabel_y_move(s: Seq<Face>, m: Move, jj: int)
    requires
        s.len() == 54,
        0 <= jj < 4,
    ensures
        apply_move(s, relabel_y(m, jj)) == rotate_y_spec(
            apply_move(rotate_y_spec(s, jj), m),
            4 - jj,
        ),
{
    lemma_gen_wf(m);
    let g = m.gen_spec();
    let d = rot_cw_pow(1, -1, jj, signed_basis(g.0, g.1));
    let t = rotate_y_spec(s, jj);
    let u = apply_move(t, m);
    let lhs = apply_move(s, relabel_y(m, jj));
    let rhs = rotate_y_spec(u, 4 - jj);
    lemma_y_conjugate_vec(jj, g.0, g.1, g.3.q(), (0, 0, 0));
    assert(t.len() == 54) by { lemma_rotate_y_source(s, jj, 0); }
    assert(u.len() == 54);
    assert forall|i: int| 0 <= i < 54 implies #[trigger] lhs[i] == rhs[i] by {
        lemma_from_gen_source(vec_axis(d), vec_sign(d), g.2, g.3, i);
        lemma_gen_source_y(jj, g.0, g.1, g.2, g.3.q(), i);
        lemma_rotate_y_source(u, jj, i);
        let p = sticker_pos(i);
        lemma_facelet_roundtrip(i);
        lemma_rot_pow_surface(1, 1, jj, p);
        lemma_surface_roundtrip(rot_cw_pow(1, 1, jj, p));
        let k = facelet_at(rot_cw_pow(1, 1, jj, p));
        crate::moves::lemma_source_range(m, k);
        lemma_rotate_y_source(s, jj, m.source(k));
        lemma_source_is_gen_source(m, k);
    }
    assert(lhs =~= rhs);
}

/// Law: an algorithm relabeled into the `y^jj` frame acts like the
/// algorithm performed on the cube turned by `y^jj`, then turned back:
/// applying `alg.in_y_frame(j)` to `s` equals `y⁻ʲ(alg(yʲ(s)))`.
pub proof fn lemma_relabel_y_alg(s: Seq<Face>, ms: Seq<Move>, jj: int)
    requires
        s.len() == 54,
        0 <= jj < 4,
    ensures
        apply_moves(s, relabel_y_moves(ms, jj)) == rotate_y_spec(
            apply_moves(rotate_y_spec(s, jj), ms),
            4 - jj,
        ),
    decreases ms.len(),
{
    lemma_rotate_y_source(s, jj, 0);
    if ms.len() == 0 {
        assert(relabel_y_moves(ms, jj) =~= Seq::<Move>::empty());
        lemma_rotate_back(s, jj);
    } else {
        let front = ms.drop_last();
        let m = ms.last();
        lemma_relabel_y_alg(s, front, jj);
        assert(relabel_y_moves(ms, jj).drop_last() =~= relabel_y_moves(front, jj));
        let x = apply_moves(rotate_y_spec(s, jj), front);
        lemma_apply_moves_len(rotate_y_spec(s, jj), front);
        let z = rotate_y_spec(x, 4 - jj);
        lemma_rotate_y_source(x, jj, 0);
        lemma_relabel_y_move(z, m, jj);
        lemma_rotate_back2(x, jj);
    }
}

/// Turning by `y^jj` and back (in either order) is the identity.
proof fn lemma_rotate_back(s: Seq<Face>, jj: int)
    requires
        s.len() == 54,
        0 <= jj < 4,
    ensures
        rotate_y_spec(rotate_y_spec(s, jj), 4 - jj) == s,
{
    let cw = Move::Rot(RotAxis::Y, Turns::Cw);
    let half = Move::Rot(RotAxis::Y, Turns::Half);
    let ccw = Move::Rot(RotAxis::Y, Turns::Ccw);
    if jj == 1 {
        assert(rotate_y_spec(s, 1) == apply_move(s, cw));
        assert(rotate_y_spec(apply_move(s, cw), 3) == apply_move(apply_move(s, cw), ccw));
        lemma_move_then_inverse(s, cw);
    } else if jj == 2 {
        assert(rotate_y_spec(s, 2) == apply_move(s, half));
        assert(rotate_y_spec(apply_move(s, half), 2) == apply_move(apply_move(s, half), half));
        lemma_move_then_inverse(s, half);
    } else if jj == 3 {
        assert(rotate_y_spec(s, 3) == apply_move(s, ccw));
        assert(rotate_y_spec(apply_move(s, ccw), 1) == apply_move(apply_move(s, ccw), cw));
        lemma_move_then_inverse(s, ccw);
    } else {
        assert(rotate_y_spec(s, 0) == s);
        assert(rotate_y_spec(s, 4) == s);
    }
}

proof fn lemma_rotate_back2(s: Seq<Face>, jj: int)
    requires
        s.len() == 54,
        0 <= jj < 4,
    ensures
        rotate_y_spec(rotate_y_spec(s, 4 - jj), jj) == s,
{
    let cw = Move::Rot(RotAxis::Y, Turns::Cw);
    let half = Move::Rot(RotAxis::Y, Turns::Half);
    let ccw = Move::Rot(RotAxis::Y, Turns::Ccw);
    if jj == 1 {
        assert(rotate_y_spec(s, 3) == apply_move(s, ccw));
        assert(rotate_y_spec(apply_move(s, ccw), 1) == apply_move(apply_move(s, ccw), cw));
        lemma_move_then_inverse(s, ccw);
    } else if jj == 2 {
        assert(rotate_y_spec(s, 2) == apply_move(s, half));
        assert(rotate_y_spec(apply_move(s, half), 2) == apply_move(apply_move(s, half), half));
        lemma_move_then_inverse(s, half);
    } else if jj == 3 {
        assert(rotate_y_spec(s, 1) == apply_move(s, cw));
        assert(rotate_y_spec(apply_move(s, cw), 3) == apply_move(apply_move(s, cw), ccw));
        lemma_move_then_inverse(s, cw);
    } else {
        assert(rotate_y_spec(s, 0) == s);
        assert(rotate_y_spec(s, 4) == s);
    }
}

} // verus!
