//! Practice states: a state set up for a case (solved cube, U turns, the
//! case's inverse, U turns, centers brought home) is the case's canonical
//! state after some U turns, so the recognizer knows it.

use vstd::prelude::*;
use crate::cases::{
    canonical_spec, case_ok, lemma_canonical_states_recognized, net_y_spec, shifted, u_cw_times,
    RecogKind, Recognizer,
};
use crate::facelet::{
    apply_move, apply_moves, center_index, centers_home, lemma_alg_then_inverse, lemma_apply_moves_len,
    lemma_quarter_turn_powers, normalize_spec, orientation_moves, rotate_u_spec, solved_spec, Face,
};
use crate::geometry::V3;
use crate::moves::{
    fmo_step, inverse_moves, lemma_split_turn, signed_basis, Move, Rot3, Turns,
};
use crate::turning::{
    lemma_face_keeps_centers, lemma_face_moves_keep_centers, lemma_gen_roundtrip, lemma_move_on_turned,
    lemma_center_at, lemma_normalize_turned, lemma_tapply_unit, lemma_turned_center, normal_face, proper, tapply,
    turn_move, turned, unit3,
};

verus! {

/// The vertical axis, pointing up.
pub open spec fn up() -> V3 {
    (0int, 1int, 0int)
}

/// U turns leave every center sticker in place.
proof fn lemma_u_turns_keep_centers(s: Seq<Face>, b: nat)
    requires
        s.len() == 54,
    ensures
        u_cw_times(s, b).len() == 54,
        forall|f: int| 0 <= f < 6 ==> #[trigger] u_cw_times(s, b)[9 * f + 4] == s[9 * f + 4],
    decreases b,
{
    if b > 0 {
        lemma_u_turns_keep_centers(s, (b - 1) as nat);
        lemma_face_keeps_centers(u_cw_times(s, (b - 1) as nat), Move::Face(Face::U, Turns::Cw));
    }
}

/// One more U quarter turn.
proof fn lemma_u_cw_step(s: Seq<Face>, k: nat)
    ensures
        u_cw_times(s, k + 1) == apply_move(u_cw_times(s, k), Move::Face(Face::U, Turns::Cw)),
{
}

/// `a` U quarter turns, as one move.
proof fn lemma_rotate_u_powers(s: Seq<Face>, a: int)
    requires
        s.len() == 54,
        0 <= a < 4,
    ensures
        rotate_u_spec(s, a) == u_cw_times(s, a as nat),
{
    let u = Move::Face(Face::U, Turns::Cw);
    lemma_u_cw_step(s, 0);
    lemma_u_cw_step(s, 1);
    lemma_u_cw_step(s, 2);
    if a == 2 {
        lemma_u_half(s);
    } else if a == 3 {
        lemma_u_ccw(s);
    }
}

proof fn lemma_u_half(s: Seq<Face>)
    requires
        s.len() == 54,
    ensures
        apply_move(s, Move::Face(Face::U, Turns::Half)) == apply_move(
            apply_move(s, Move::Face(Face::U, Turns::Cw)),
            Move::Face(Face::U, Turns::Cw),
        ),
{
    lemma_quarter_turn_powers(s, Move::Face(Face::U, Turns::Cw));
}

proof fn lemma_u_ccw(s: Seq<Face>)
    requires
        s.len() == 54,
    ensures
        apply_move(s, Move::Face(Face::U, Turns::Ccw)) == apply_move(
            apply_move(apply_move(s, Move::Face(Face::U, Turns::Cw)), Move::Face(Face::U, Turns::Cw)),
            Move::Face(Face::U, Turns::Cw),
        ),
{
    lemma_quarter_turn_powers(s, Move::Face(Face::U, Turns::Cw));
}

/// U turns commute with a turn of the whole cube that keeps U up.
proof fn lemma_u_turns_on_turned(w: Seq<Face>, g: Rot3, b: nat)
    requires
        w.len() == 54,
        proper(g),
        tapply(g, up()) == up(),
    ensures
        u_cw_times(turned(w, g), b) == turned(u_cw_times(w, b), g),
    decreases b,
{
    if b > 0 {
        let u = Move::Face(Face::U, Turns::Cw);
        lemma_u_turns_on_turned(w, g, (b - 1) as nat);
        lemma_u_turns_keep_centers(w, (b - 1) as nat);
        lemma_move_on_turned(u_cw_times(w, (b - 1) as nat), g, u);
        lemma_gen_roundtrip(u);
        assert(signed_basis(1, 1) == up());
        assert(turn_move(u, g) == u);
    }
}

/// Face moves then a turn, for every state, as the moves `ms` act.
pub open spec fn split_as(ms: Seq<Move>, r: Seq<Move>, g: Rot3) -> bool {
    &&& proper(g)
    &&& forall|x: int| 0 <= x < r.len() ==> #[trigger] r[x] is Face
    &&& forall|s: Seq<Face>| s.len() == 54 ==> #[trigger] apply_moves(s, ms) == turned(apply_moves(s, r), g)
}

/// Every move sequence acts as face moves followed by a whole-cube turn.
proof fn lemma_split(ms: Seq<Move>) -> (res: (Seq<Move>, Rot3))
    ensures
        split_as(ms, res.0, res.1),
{
    let (r, g) = lemma_split_turn(ms, ms.len() as int);
    assert(ms.take(ms.len() as int) =~= ms);
    assert forall|s: Seq<Face>| s.len() == 54 implies #[trigger] apply_moves(s, ms) == turned(
        apply_moves(s, r),
        g,
    ) by {
        assert(fmo_step(ms, ms.len() as int, r, g));
        assert(apply_moves(s, ms.take(ms.len() as int)) == turned(apply_moves(s, r), g));
    }
    (r, g)
}

/// A turned cube with home centers shows at the center with normal `d` the
/// face whose normal the turn brings there.
proof fn lemma_home_center_seen(z: Seq<Face>, g: Rot3, d: V3)
    requires
        z.len() == 54,
        centers_home(z),
        proper(g),
        unit3(d),
    ensures
        unit3(tapply(g, d)),
        turned(z, g)[center_index(normal_face(d))] == normal_face(tapply(g, d)),
{
    lemma_turned_center(z, g, d);
    let f = normal_face(tapply(g, d));
    assert(z[9 * f.ord() + 4] == Face::from_ord(f.ord()));
}

/// An algorithm whose net rotation is about the vertical axis has an
/// inverse whose whole-cube turn keeps U up.
proof fn lemma_inverse_keeps_up(alg: Seq<Move>, r: Seq<Move>, g: Rot3)
    requires
        net_y_spec(alg) is Some,
        split_as(inverse_moves(alg), r, g),
    ensures
        tapply(g, up()) == up(),
{
    let solved = solved_spec();
    let (r2, g2) = lemma_split(alg);
    let z = apply_moves(solved, r2);
    lemma_apply_moves_len(solved, r2);
    lemma_face_moves_keep_centers(solved, r2);
    assert(centers_home(z)) by {
        assert forall|f: int| 0 <= f < 6 implies #[trigger] z[9 * f + 4] == Face::from_ord(f) by {
            assert(z[9 * f + 4] == solved[9 * f + 4]);
        }
    }
    let y2 = apply_moves(solved, alg);
    assert(y2 == turned(z, g2));
    assert(y2[center_index(Face::U)] == Face::U);
    assert(unit3(up()));
    lemma_home_center_seen(z, g2, up());
    assert(normal_face(up()) == Face::U);
    lemma_tapply_unit(g2, up());
    lemma_center_at(up());
    assert(tapply(g2, up()) == up());
    let d = tapply(g, up());
    lemma_apply_moves_len(solved, alg);
    lemma_alg_then_inverse(solved, alg);
    let w2 = apply_moves(y2, r);
    lemma_apply_moves_len(y2, r);
    assert(turned(w2, g) == solved);
    lemma_turned_center(w2, g, up());
    lemma_face_moves_keep_centers(y2, r);
    let c = center_index(normal_face(d));
    assert(w2[c] == y2[9 * normal_face(d).ord() + 4]);
    assert(y2[c] == Face::U);
    lemma_home_center_seen(z, g2, d);
    assert(normal_face(tapply(g2, d)) == Face::U);
    lemma_center_at(tapply(g2, d));
    assert(tapply(g2, d) == up());
    lemma_tapply_unit(g2, d);
}

/// Law: a practice state set up for a recognizable case, with `a` U turns
/// before the case's inverse and `b` after, is the case's canonical state
/// for final AUF `a` seen after `b` U turns, and the recognizer recognizes
/// it as that case.
pub proof fn lemma_setup_states_recognized(rec: Recognizer, idx: u16, a: int, b: int)
    requires
        rec.wf(),
        idx < rec.cases().len(),
        rec.cases()[idx as int].recognition != RecogKind::Manual,
        0 <= a < 4,
        0 <= b < 4,
    ensures
        ({
            let alg = rec.cases()[idx as int].alg@;
            let st = normalize_spec(
                u_cw_times(apply_moves(u_cw_times(solved_spec(), a as nat), inverse_moves(alg)), b as nat),
            );
            &&& st == shifted(alg, a, b)
            &&& rec.recognize_case_spec(st, idx) matches Some(m) && m.case_idx == idx
        }),
{
    let def = rec.cases()[idx as int];
    let alg = def.alg@;
    let inv = inverse_moves(alg);
    assert(case_ok(def));
    let (r, g) = lemma_split(inv);
    lemma_inverse_keeps_up(alg, r, g);
    let solved = solved_spec();
    let h = u_cw_times(solved, a as nat);
    lemma_u_turns_keep_centers(solved, a as nat);
    let w = apply_moves(h, r);
    lemma_apply_moves_len(h, r);
    lemma_face_moves_keep_centers(h, r);
    assert(centers_home(w)) by {
        assert forall|f: int| 0 <= f < 6 implies #[trigger] w[9 * f + 4] == Face::from_ord(f) by {
            assert(w[9 * f + 4] == h[9 * f + 4]);
        }
    }
    let x = apply_moves(h, inv);
    assert(x == turned(w, g));
    lemma_normalize_turned(w, g);
    lemma_rotate_u_powers(solved, a);
    assert(canonical_spec(alg, a) == w) by {
        reveal(canonical_spec);
    }
    lemma_u_turns_on_turned(w, g, b as nat);
    lemma_u_turns_keep_centers(w, b as nat);
    let wb = u_cw_times(w, b as nat);
    assert(centers_home(wb)) by {
        assert forall|f: int| 0 <= f < 6 implies #[trigger] wb[9 * f + 4] == Face::from_ord(f) by {
            assert(wb[9 * f + 4] == w[9 * f + 4]);
        }
    }
    lemma_normalize_turned(wb, g);
    lemma_canonical_states_recognized(rec, idx, a, b);
}


/// Law: normalizing twice is normalizing once.
pub proof fn lemma_normalize_idempotent(x: Seq<Face>)
    requires
        x.len() == 54,
    ensures
        normalize_spec(normalize_spec(x)) == normalize_spec(x),
{
    if !centers_home(x) && exists|k: int| 0 <= k < 24 && centers_home(apply_moves(x, orientation_moves(k))) {
        let p = |k: int| 0 <= k < 24 && centers_home(apply_moves(x, orientation_moves(k)));
        let k0 = choose|k: int| 0 <= k < 24 && centers_home(apply_moves(x, orientation_moves(k)));
        assert(p(k0));
        crate::turning::lemma_least(p, k0);
        assert(centers_home(normalize_spec(x)));
    }
}

/// Law: on a cube whose centers are home, an algorithm and its face-move
/// form (`Alg::face_moves_only`, which equals the algorithm followed by a
/// whole-cube turn) reach the same state once orientation is normalized.
pub proof fn lemma_face_moves_same_normalized(s: Seq<Face>, alg: Seq<Move>, r: Seq<Move>, g: Rot3)
    requires
        s.len() == 54,
        centers_home(s),
        proper(g),
        forall|x: int| 0 <= x < r.len() ==> #[trigger] r[x] is Face,
        forall|t: Seq<Face>| t.len() == 54 ==> #[trigger] apply_moves(t, alg) == turned(apply_moves(t, r), g),
    ensures
        normalize_spec(apply_moves(s, alg)) == apply_moves(s, r),
        normalize_spec(apply_moves(s, r)) == apply_moves(s, r),
{
    let w = apply_moves(s, r);
    lemma_apply_moves_len(s, r);
    lemma_face_moves_keep_centers(s, r);
    assert(centers_home(w)) by {
        assert forall|f: int| 0 <= f < 6 implies #[trigger] w[9 * f + 4] == Face::from_ord(f) by {
            assert(w[9 * f + 4] == s[9 * f + 4]);
        }
    }
    assert(apply_moves(s, alg) == turned(w, g));
    lemma_normalize_turned(w, g);
}

} // verus!
