//! «Min vei», the macro-router: a solving plan made of the algorithms the
//! lessons teach.
//!
//! The plan is a sequence of algorithms: longer in moves than the solver's
//! answer, but executed from muscle memory, so predicted human time is the
//! objective. Engine: greedy lexicographic progress over a candidate
//! vocabulary (each beginner algorithm in 4 y-frames, with 4 pre-AUF
//! alignments and small repetition counts), where the progress vector
//! rewards both direct progress and extractions (freeing a buried piece to
//! the top layer counts). The cross is micro-solved; anything the
//! vocabulary cannot improve falls to a solver tail.

use vstd::prelude::*;
use crate::cases::{pre_auf_moves, Recognizer};
use crate::cross::solve_cross;
use crate::facelet::{apply_move, apply_moves, lemma_apply_moves_append, normalize_spec, Face, FaceletCube};
use crate::moves::{copy_alg, face_form, relabel_y_moves, Alg, Move, RotAxis, Turns};
use crate::solve::{solve, solve_outcome, table_contents, SolveError, SolverTable};
use crate::table_pack::TableView;
use crate::hints::face_only;
use crate::cross::cross_home;
use crate::moves::htm_len;

verus! {

#[derive(Clone, Debug)]
pub struct MySeg {
    /// The named algorithm, or None for raw segments (x2, cross, AUF, tail).
    pub case_idx: Option<u16>,
    /// Leading alignment moves (pre-AUF) of `alg`, shown ungated.
    pub auf_len: u8,
    pub alg: Alg,
    pub est_ms: u32,
}

#[derive(Clone, Debug)]
pub struct MyWayPlan {
    pub segments: Vec<MySeg>,
    pub total_ms: u32,
}

/// All moves of a plan, segment after segment.
pub open spec fn plan_moves(segs: Seq<MySeg>) -> Seq<Move>
    decreases segs.len(),
{
    if segs.len() == 0 {
        seq![]
    } else {
        plan_moves(segs.drop_last()) + segs.last().alg@
    }
}

/// Sum of the segments' time estimates.
pub open spec fn plan_ms(segs: Seq<MySeg>) -> int
    decreases segs.len(),
{
    if segs.len() == 0 {
        0
    } else {
        plan_ms(segs.drop_last()) + segs.last().est_ms
    }
}

/// Every face shows a single color (solved up to orientation).
pub open spec fn faces_uniform(s: Seq<Face>) -> bool {
    forall|f: int, o: int| 0 <= f < 6 && 0 <= o < 9 ==> #[trigger] s[9 * f + o] == s[9 * f + 4]
}

/// The whole-cube turn that brings white down.
pub open spec fn x2_turn() -> Move {
    Move::Rot(RotAxis::X, Turns::Half)
}

/// The tail's moves carried into the x2 frame.
pub open spec fn x2_conj_moves(a: Seq<Move>) -> Seq<Move> {
    a.map_values(|m: Move| x2_conj(m))
}

/// Inputs so large that a time estimate could overflow: a measured time
/// above ten million ms, or a library algorithm of more than ten thousand
/// moves.
pub open spec fn large_inputs(rec: Recognizer, measured: Seq<Option<u32>>) -> bool {
    ||| exists|k: int| 0 <= k < measured.len() && (#[trigger] measured[k] matches Some(v) && v > 10_000_000)
    ||| exists|k: int| 0 <= k < rec.cases().len() && (#[trigger] rec.cases()[k]).alg@.len() > 10_000
}

/// `f` repeated `n` times.
pub open spec fn repeat_moves(f: Seq<Move>, n: nat) -> Seq<Move>
    decreases n,
{
    if n == 0 {
        seq![]
    } else {
        repeat_moves(f, (n - 1) as nat) + f
    }
}

/// Time estimate of a library case per execution: the user's measured
/// time for that case where there is one, else 700 ms plus 300 per move of
/// the executed face-move form.
pub open spec fn case_time(measured: Seq<Option<u32>>, case_idx: int, moves: int) -> int {
    if 0 <= case_idx < measured.len() && measured[case_idx] is Some {
        measured[case_idx]->0 as int
    } else {
        700 + 300 * moves
    }
}

/// A plan step made from library case `case_idx` (when it is one): its
/// moves are an optional pre-AUF turn (`auf_len` is 1 exactly when there
/// is one), then 1 to 5 repetitions of the face-move form of the case's
/// algorithm in one of the four y frames; its estimate is the case's time
/// per repetition, plus 150 ms for the pre-AUF.
pub open spec fn vocab_step_ok(
    rec: Recognizer,
    measured: Seq<Option<u32>>,
    case_idx: Option<u16>,
    auf_len: u8,
    alg: Seq<Move>,
    est_ms: u32,
) -> bool {
    case_idx matches Some(c) ==> exists|p: int, j: int, reps: int, framed: Seq<Move>|
        0 <= p < 4 && 0 <= j < 4 && 1 <= reps <= 5 && #[trigger] face_form(
            framed,
            relabel_y_moves(rec.cases()[c as int].alg@, j),
        ) && auf_len == (if p == 0 {
            0int
        } else {
            1int
        }) && alg == #[trigger] pre_auf_moves(p) + #[trigger] repeat_moves(framed, reps as nat) && est_ms
            == case_time(measured, c as int, framed.len() as int) * reps + 150 * auf_len
}

/// A plan step of raw moves (no library case) has no pre-AUF and the
/// estimate of its kind: 900 ms for the x2 turn, 500 ms plus 350 per move
/// for the cross, 400 ms for a lone U turn, 900 ms plus 350 per move for
/// the solver tail.
pub open spec fn raw_step_ok(case_idx: Option<u16>, auf_len: u8, alg: Seq<Move>, est_ms: u32) -> bool {
    case_idx is None ==> {
        &&& auf_len == 0
        &&& {
            ||| alg == seq![x2_turn()] && est_ms == 900
            ||| est_ms == 500 + 350 * alg.len()
            ||| alg.len() == 1 && (alg[0] matches Move::Face(Face::U, _)) && est_ms == 400
            ||| est_ms == 900 + 350 * alg.len()
        }
    }
}

/// Every step of a plan follows `vocab_step_ok` and `raw_step_ok`.
pub open spec fn plan_steps_ok(rec: Recognizer, measured: Seq<Option<u32>>, segs: Seq<MySeg>) -> bool {
    forall|k: int|
        0 <= k < segs.len() ==> vocab_step_ok(
            rec,
            measured,
            (#[trigger] segs[k]).case_idx,
            segs[k].auf_len,
            segs[k].alg@,
            segs[k].est_ms,
        ) && raw_step_ok(segs[k].case_idx, segs[k].auf_len, segs[k].alg@, segs[k].est_ms)
}

/// The solver tail does not finish `w`: its faces are not all uniform, and
/// the solver's outcome on the normalized cube is an error or a move list
/// that, carried into the x2 frame, does not make every face uniform.
pub open spec fn tail_fails(table: Option<TableView>, w: Seq<Face>) -> bool {
    &&& !faces_uniform(w)
    &&& exists|r: Result<Alg, SolveError>|
        #[trigger] solve_outcome(table, normalize_spec(w), r) && match r {
            Err(_) => true,
            Ok(a) => !faces_uniform(apply_moves(w, x2_conj_moves(a@))),
        }
}

/// Time estimate of an unmeasured algorithm: 700 ms plus 300 per move
/// (`None` when that does not fit in a `u32`).
fn default_est(alg: &Alg) -> (e: Option<u32>)
    requires
        forall|k: int| 0 <= k < alg@.len() ==> #[trigger] alg@[k] is Face,
    ensures
        match e {
            Some(v) => v == 700 + 300 * crate::moves::htm_len(alg@),
            None => 700 + 300 * crate::moves::htm_len(alg@) > u32::MAX,
        },
{
    proof {
        lemma_face_htm(alg@);
    }
    if alg.0.len() > 14_316_555 {
        return None;
    }
    let h = alg.len_htm();
    if h > 14_316_555 {
        return None;
    }
    Some(700 + 300 * h as u32)
}

proof fn lemma_face_htm(ms: Seq<Move>)
    requires
        forall|k: int| 0 <= k < ms.len() ==> #[trigger] ms[k] is Face,
    ensures
        crate::moves::htm_len(ms) == ms.len(),
    decreases ms.len(),
{
    if ms.len() > 0 {
        assert forall|k: int| 0 <= k < ms.drop_last().len() implies #[trigger] ms.drop_last()[k] is Face by {
            assert(ms.drop_last()[k] == ms[k]);
        }
        lemma_face_htm(ms.drop_last());
        assert(ms.last() == ms[ms.len() - 1]);
    }
}

fn all_faces_uniform(s: &FaceletCube) -> (b: bool)
    ensures
        b == faces_uniform(s@),
{
    let mut f: usize = 0;
    while f < 6
        invariant
            0 <= f <= 6,
            s@.len() == 54,
            forall|f2: int, o: int| 0 <= f2 < f && 0 <= o < 9 ==> #[trigger] s@[9 * f2 + o] == s@[9 * f2 + 4],
        decreases 6 - f,
    {
        let c = s.0[f * 9 + 4];
        let mut o: usize = 0;
        while o < 9
            invariant
                0 <= o <= 9,
                f < 6,
                s@.len() == 54,
                c == s@[9 * f + 4],
                forall|f2: int, o2: int| 0 <= f2 < f && 0 <= o2 < 9 ==> #[trigger] s@[9 * f2 + o2] == s@[9 * f2 + 4],
                forall|o2: int| 0 <= o2 < o ==> #[trigger] s@[9 * f + o2] == c,
            decreases 9 - o,
        {
            if s.0[f * 9 + o] != c {
                assert(!faces_uniform(s@)) by {
                    assert(s@[9 * f + o] != s@[9 * f + 4]);
                }
                return false;
            }
            o += 1;
        }
        f += 1;
    }
    true
}

/// The three sticker colors of the corner at U-face offset `o`
/// (U0 with L0 and B2, U2 with B0 and R2, U6 with F0 and L2, U8 with R0
/// and F2).
fn corner_colors_at_u(s: &FaceletCube, o: usize) -> (r: Option<[Face; 3]>)
    ensures
        r is Some <==> (o == 0 || o == 2 || o == 6 || o == 8),
        r matches Some(c) ==> c[0] == s@[o as int],
{
    let (a, b) = if o == 0 {
        (36usize, 47usize)
    } else if o == 2 {
        (45, 11)
    } else if o == 6 {
        (18, 38)
    } else if o == 8 {
        (9, 20)
    } else {
        return None;
    };
    Some([s.0[o], s.0[a], s.0[b]])
}

fn contains3(set: &[Face; 3], c: Face) -> (b: bool)
    ensures
        b == (set[0] == c || set[1] == c || set[2] == c),
{
    set[0] == c || set[1] == c || set[2] == c
}

/// Is this corner physically in the top layer?
fn corner_in_top(s: &FaceletCube, colors: [Face; 3]) -> bool {
    let offsets: [usize; 4] = [0, 2, 6, 8];
    let mut k: usize = 0;
    while k < 4
        invariant
            0 <= k <= 4,
        decreases 4 - k,
    {
        if let Some(set) = corner_colors_at_u(s, offsets[k]) {
            if contains3(&set, colors[0]) && contains3(&set, colors[1]) && contains3(&set, colors[2]) {
                return true;
            }
        }
        k += 1;
    }
    false
}

/// Is this edge physically in the top layer? (U1 with B1, U3 with L1, U5
/// with R1, U7 with F1.)
fn edge_in_top(s: &FaceletCube, colors: [Face; 2]) -> bool {
    let pairs: [(usize, usize); 4] = [(1, 46), (3, 37), (5, 10), (7, 19)];
    let mut k: usize = 0;
    while k < 4
        invariant
            0 <= k <= 4,
            forall|j: int| 0 <= j < 4 ==> (#[trigger] pairs[j]).0 < 54 && pairs[j].1 < 54,
        decreases 4 - k,
    {
        let (o, side) = pairs[k];
        let a = s.0[o];
        let b = s.0[side];
        if (a == colors[0] && b == colors[1]) || (a == colors[1] && b == colors[0]) {
            return true;
        }
        k += 1;
    }
    false
}

fn same_location(a: Option<(u8, u8)>, b: Option<(u8, u8)>) -> bool {
    match (a, b) {
        (Some(x), Some(y)) => x.0 == y.0 && x.1 == y.1,
        (None, None) => true,
        _ => false,
    }
}

/// Lexicographic progress through the beginner method, all stages at once
/// (later stages only matter once earlier ones are full): cross, D-corners
/// (with a bonus for extractable ones), E-edges (with a bonus for
/// extractable ones), top cross, top pieces placed, top corners oriented,
/// fully solved.
fn progress(s: &FaceletCube) -> [u8; 9] {
    let d = s.center(Face::D);
    let u = s.center(Face::U);
    let sides = [s.center(Face::F), s.center(Face::R), s.center(Face::B), s.center(Face::L)];
    let positions = [Face::F, Face::R, Face::B, Face::L];
    let solved = FaceletCube::solved();
    let mut cross: u8 = 0;
    let mut d_corners: u8 = 0;
    let mut d_corners_top: u8 = 0;
    let mut e_edges: u8 = 0;
    let mut e_edges_top: u8 = 0;
    let mut top_cross: u8 = 0;
    let mut top_edges: u8 = 0;
    let mut top_corners_pos: u8 = 0;
    let mut top_corners_ori: u8 = 0;
    let mut i: usize = 0;
    while i < 4
        invariant
            0 <= i <= 4,
            cross <= i && d_corners <= i && d_corners_top <= i && e_edges <= i && e_edges_top <= i,
            top_edges <= i && top_corners_pos <= i && top_corners_ori <= i,
        decreases 4 - i,
    {
        let f = sides[i];
        let fpos = positions[i];
        let g = sides[(i + 1) % 4];
        let gpos = positions[(i + 1) % 4];
        if same_location(s.locate_edge([d, f]), solved.locate_edge([Face::D, fpos])) {
            cross += 1;
        }
        if let (Some(loc), Some(home)) = (
            s.locate_corner([d, f, g]),
            solved.locate_corner([Face::D, fpos, gpos]),
        ) {
            if loc.0 == home.0 && loc.1 == home.1 {
                d_corners += 1;
            } else if corner_in_top(s, [d, f, g]) {
                d_corners_top += 1;
            }
        }
        if same_location(s.locate_edge([f, g]), solved.locate_edge([fpos, gpos])) {
            e_edges += 1;
        } else if edge_in_top(s, [f, g]) {
            e_edges_top += 1;
        }
        if same_location(s.locate_edge([u, f]), solved.locate_edge([Face::U, fpos])) {
            top_edges += 1;
        }
        if let (Some((slot, ori)), Some((hslot, hori))) = (
            s.locate_corner([u, f, g]),
            solved.locate_corner([Face::U, fpos, gpos]),
        ) {
            if slot == hslot {
                top_corners_pos += 1;
                if ori == hori {
                    top_corners_ori += 1;
                }
            }
        }
        i += 1;
    }
    let offsets: [usize; 4] = [1, 3, 5, 7];
    let mut k: usize = 0;
    while k < 4
        invariant
            0 <= k <= 4,
            top_cross <= k,
            forall|j: int| 0 <= j < 4 ==> #[trigger] offsets[j] < 54,
        decreases 4 - k,
    {
        if s.0[offsets[k]] == u {
            top_cross += 1;
        }
        k += 1;
    }
    [
        cross,
        d_corners,
        d_corners_top,
        e_edges,
        e_edges_top,
        top_cross,
        top_edges + top_corners_pos,
        top_corners_ori,
        if all_faces_uniform(s) {
            1
        } else {
            0
        },
    ]
}

/// `a` comes after `b` in lexicographic order.
pub open spec fn lex_gt(a: Seq<u8>, b: Seq<u8>, from: int) -> bool
    decreases 9 - from,
{
    if from >= 9 || from < 0 {
        false
    } else if a[from] != b[from] {
        a[from] > b[from]
    } else {
        lex_gt(a, b, from + 1)
    }
}

fn lex_greater(a: &[u8; 9], b: &[u8; 9]) -> (r: bool)
    ensures
        r == lex_gt(a@, b@, 0),
{
    let mut i: usize = 0;
    while i < 9
        invariant
            0 <= i <= 9,
            lex_gt(a@, b@, 0) == lex_gt(a@, b@, i as int),
        decreases 9 - i,
    {
        if a[i] != b[i] {
            return a[i] > b[i];
        }
        i += 1;
    }
    false
}

fn same9(a: &[u8; 9], b: &[u8; 9]) -> (r: bool)
    ensures
        r == (a@ == b@),
{
    let mut i: usize = 0;
    while i < 9
        invariant
            0 <= i <= 9,
            forall|j: int| 0 <= j < i ==> a@[j] == b@[j],
        decreases 9 - i,
    {
        if a[i] != b[i] {
            return false;
        }
        i += 1;
    }
    assert(a@ =~= b@);
    true
}

struct Candidate {
    case_idx: Option<u16>,
    auf: u8,
    alg: Alg,
    est_ms: u32,
}

/// The best candidate so far, with its progress and the state after it.
struct Best {
    cand: Candidate,
    progress: [u8; 9],
    next: FaceletCube,
}

/// Keeps `cand` when it makes progress from `cur` and beats `best`
/// (more progress, then a smaller time estimate).
fn consider(work: &FaceletCube, cur: &[u8; 9], cand: Candidate, best: &mut Option<Best>)
    requires
        *old(best) matches Some(b) ==> b.next@ == apply_moves(work@, b.cand.alg@),
        *old(best) matches Some(b) ==> face_only(b.cand.alg@),
        face_only(cand.alg@),
    ensures
        *final(best) matches Some(b) ==> b.next@ == apply_moves(work@, b.cand.alg@),
        *final(best) matches Some(b) ==> face_only(b.cand.alg@),
        *final(best) matches Some(b) ==> (b.cand == cand || (*old(best) matches Some(ob) && b.cand
            == ob.cand)),
{
    let next = work.applied_alg(&cand.alg);
    let p = progress(&next);
    if !lex_greater(&p, cur) {
        return;
    }
    let better = match best {
        None => true,
        Some(b) => lex_greater(&p, &b.progress) || (same9(&p, &b.progress) && cand.est_ms
            < b.cand.est_ms),
    };
    if better {
        *best = Some(Best { cand, progress: p, next });
    }
}

/// The tail's move for a plan in the x2 frame: U and D, F and B swap.
pub open spec fn x2_conj(m: Move) -> Move {
    match m {
        Move::Face(f, t) => Move::Face(
            match f {
                Face::U => Face::D,
                Face::D => Face::U,
                Face::F => Face::B,
                Face::B => Face::F,
                other => other,
            },
            t,
        ),
        other => other,
    }
}

fn x2_conj_exec(m: Move) -> (r: Move)
    ensures
        r == x2_conj(m),
{
    match m {
        Move::Face(f, t) => Move::Face(
            match f {
                Face::U => Face::D,
                Face::D => Face::U,
                Face::F => Face::B,
                Face::B => Face::F,
                other => other,
            },
            t,
        ),
        other => other,
    }
}

/// Time per execution of case `case_idx` in its face-move form `framed`
/// (`None` when it does not fit in a `u32`).
fn case_base_est(measured: &[Option<u32>], case_idx: u16, framed: &Alg) -> (e: Option<u32>)
    requires
        face_only(framed@),
    ensures
        e matches Some(v) ==> v == case_time(measured@, case_idx as int, framed@.len() as int),
        e is None ==> case_time(measured@, case_idx as int, framed@.len() as int) > u32::MAX,
{
    proof {
        lemma_face_htm(framed@);
    }
    if (case_idx as usize) < measured.len() {
        if let Some(v) = measured[case_idx as usize] {
            return Some(v);
        }
    }
    default_est(framed)
}

/// The vocabulary candidate for case `case_idx` in face-move form `framed`
/// (frame `j`), with pre-AUF `auf` and `reps` repetitions. `None` when its
/// estimate does not fit in a `u32`.
fn vocab_candidate(
    framed: &Alg,
    case_idx: u16,
    auf: u8,
    reps: u8,
    base_est: u32,
    rec: Ghost<Recognizer>,
    measured: Ghost<Seq<Option<u32>>>,
    j: Ghost<int>,
) -> (r: Option<Candidate>)
    requires
        auf < 4,
        1 <= reps <= 5,
        0 <= j@ < 4,
        face_only(framed@),
        case_idx < rec@.cases().len(),
        face_form(framed@, relabel_y_moves(rec@.cases()[case_idx as int].alg@, j@)),
        base_est == case_time(measured@, case_idx as int, framed@.len() as int),
    ensures
        r matches Some(c) ==> {
            &&& c.case_idx == Some(case_idx)
            &&& face_only(c.alg@)
            &&& c.est_ms == base_est * reps + (if auf != 0 {
                150int
            } else {
                0int
            })
            &&& vocab_step_ok(rec@, measured@, c.case_idx, c.auf, c.alg@, c.est_ms)
        },
        r is None ==> base_est * reps + (if auf != 0 {
            150int
        } else {
            0int
        }) > u32::MAX,
{
    let alg = candidate_moves(framed, auf, reps);
    let extra: u32 = if auf != 0 {
        150
    } else {
        0
    };
    let est = match base_est.checked_mul(reps as u32) {
        Some(t) => match t.checked_add(extra) {
            Some(e) => e,
            None => {
                return None;
            },
        },
        None => {
            proof {
                assert(base_est * reps <= base_est * reps + extra);
            }
            return None;
        },
    };
    let cand = Candidate {
        case_idx: Some(case_idx),
        auf: if auf != 0 {
            1
        } else {
            0
        },
        alg,
        est_ms: est,
    };
    proof {
        let p = auf as int;
        let rr = reps as int;
        let fr = framed@;
        assert(cand.alg@ == pre_auf_moves(p) + repeat_moves(fr, rr as nat));
        assert(face_form(fr, relabel_y_moves(rec@.cases()[case_idx as int].alg@, j@)));
        assert(cand.auf == (if p == 0 { 0int } else { 1int }));
        assert(150 * cand.auf == extra);
    }
    Some(cand)
}

/// The moves of a vocabulary candidate: the pre-AUF turn, then `reps`
/// repetitions of `framed`.
fn candidate_moves(framed: &Alg, auf: u8, reps: u8) -> (r: Alg)
    requires
        reps <= 5,
        auf < 4,
        face_only(framed@),
    ensures
        r@ == pre_auf_moves(auf as int) + repeat_moves(framed@, reps as nat),
        r@.len() <= 1 + 5 * framed@.len(),
        face_only(r@),
{
    let mut moves: Vec<Move> = Vec::new();
    if auf == 1 {
        moves.push(Move::Face(Face::U, Turns::Cw));
    } else if auf == 2 {
        moves.push(Move::Face(Face::U, Turns::Half));
    } else if auf == 3 {
        moves.push(Move::Face(Face::U, Turns::Ccw));
    }
    let ghost pre = pre_auf_moves(auf as int);
    assert(moves@ =~= pre);
    let mut r: u8 = 0;
    while r < reps
        invariant
            0 <= r <= reps,
            reps <= 5,
            pre.len() <= 1,
            moves@ == pre + repeat_moves(framed@, r as nat),
            moves@.len() <= 1 + r * framed@.len(),
            face_only(framed@),
            face_only(moves@),
        decreases reps - r,
    {
        let mut k: usize = 0;
        let ghost start = moves@;
        while k < framed.0.len()
            invariant
                0 <= k <= framed@.len(),
                moves@ == start + framed@.subrange(0, k as int),
                start == pre + repeat_moves(framed@, r as nat),
                start.len() <= 1 + r * framed@.len(),
                r < reps,
                reps <= 5,
                pre.len() <= 1,
                face_only(framed@),
                face_only(moves@),
            decreases framed@.len() - k,
        {
            moves.push(framed.0[k]);
            assert(start + framed@.subrange(0, k + 1) =~= (start + framed@.subrange(0, k as int)).push(framed@[k as int]));
            k += 1;
        }
        proof {
            assert(framed@.subrange(0, framed@.len() as int) =~= framed@);
            assert(moves@ =~= pre + repeat_moves(framed@, (r + 1) as nat));
            assert((r + 1) * framed@.len() == r * framed@.len() + framed@.len()) by (nonlinear_arith);
        }
        r += 1;
    }
    proof {
        assert(reps * framed@.len() <= 5 * framed@.len()) by (nonlinear_arith)
            requires
                reps <= 5,
        ;
    }
    Alg::new(moves)
}

proof fn lemma_plan_push(segs: Seq<MySeg>, seg: MySeg, s: Seq<Face>)
    ensures
        plan_moves(segs.push(seg)) == plan_moves(segs) + seg.alg@,
        plan_ms(segs.push(seg)) == plan_ms(segs) + seg.est_ms,
        apply_moves(s, plan_moves(segs.push(seg))) == apply_moves(apply_moves(s, plan_moves(segs)), seg.alg@),
{
    assert(segs.push(seg).drop_last() =~= segs);
    lemma_apply_moves_append(s, plan_moves(segs), seg.alg@);
}

proof fn lemma_steps_push(rec: Recognizer, measured: Seq<Option<u32>>, segs: Seq<MySeg>, seg: MySeg)
    requires
        plan_steps_ok(rec, measured, segs),
        vocab_step_ok(rec, measured, seg.case_idx, seg.auf_len, seg.alg@, seg.est_ms),
        raw_step_ok(seg.case_idx, seg.auf_len, seg.alg@, seg.est_ms),
    ensures
        plan_steps_ok(rec, measured, segs.push(seg)),
{
    assert forall|k: int| 0 <= k < segs.push(seg).len() implies vocab_step_ok(
        rec,
        measured,
        (#[trigger] segs.push(seg)[k]).case_idx,
        segs.push(seg)[k].auf_len,
        segs.push(seg)[k].alg@,
        segs.push(seg)[k].est_ms,
    ) && raw_step_ok(segs.push(seg)[k].case_idx, segs.push(seg)[k].auf_len, segs.push(seg)[k].alg@, segs.push(seg)[k].est_ms) by {
        if k < segs.len() {
            assert(segs.push(seg)[k] == segs[k]);
        }
    }
}

/// Appends the vocabulary entry `id` (with its repetition limit) when the
/// library has it.
fn push_vocab(rec: &Recognizer, vocab: &mut Vec<(u16, u8)>, id: &str, reps: u8)
    requires
        rec.wf(),
        reps <= 5,
        forall|k: int| 0 <= k < old(vocab)@.len() ==> (#[trigger] old(vocab)@[k]).0 < rec.cases().len() && old(vocab)@[k].1 <= 5,
    ensures
        forall|k: int| 0 <= k < final(vocab)@.len() ==> (#[trigger] final(vocab)@[k]).0 < rec.cases().len() && final(vocab)@[k].1 <= 5,
{
    if let Some(idx) = rec.find_by_id(id) {
        vocab.push((idx, reps));
    }
}

/// Build the full macro plan: a quarter-turn x2 to bring white down, the
/// cross, greedy vocabulary steps, then a solver tail. `measured[case]` is
/// the user's measured average execution time per case in ms (`None`, or
/// no entry, when unmeasured). `None` only when the cross search fails
/// (never when the cross is already home after the x2), when an estimate
/// would overflow (never for the inputs `large_inputs` excludes), or when
/// the solver tail does not finish a cube the plan reached.
#[verifier::rlimit(60)]
pub fn my_way(
    table: Option<&SolverTable>,
    state: &FaceletCube,
    rec: &Recognizer,
    measured: &[Option<u32>],
) -> (r: Option<MyWayPlan>)
    requires
        rec.wf(),
    ensures
        r matches Some(plan) ==> (faces_uniform(apply_moves(state@, plan_moves(plan.segments@)))
            && plan.total_ms == plan_ms(plan.segments@)),
        r matches Some(plan) ==> plan_steps_ok(*rec, measured@, plan.segments@),
        faces_uniform(state@) ==> (r matches Some(plan) && plan.segments@.len() == 0
            && plan.total_ms == 0),
        !faces_uniform(state@) ==> (r matches Some(plan) ==> plan.total_ms >= 900
            && plan.segments@.len() >= 1 && plan.segments@[0].est_ms == 900),
        r is None ==> {
            &&& !faces_uniform(state@)
            &&& {
                ||| !cross_home(apply_move(state@, x2_turn()))
                ||| large_inputs(*rec, measured@)
                ||| exists|ms: Seq<Move>|
                    face_only(ms) && #[trigger] tail_fails(
                        table_contents(table),
                        apply_moves(apply_move(state@, x2_turn()), ms),
                    )
            }
        },
{
    if all_faces_uniform(state) {
        let plan = MyWayPlan { segments: Vec::new(), total_ms: 0 };
        assert(apply_moves(state@, plan_moves(plan.segments@)) == state@) by {
            assert(plan_moves(plan.segments@) == Seq::<Move>::empty());
        }
        return Some(plan);
    }
    let ghost big = large_inputs(*rec, measured@);
    let ghost s0 = apply_move(state@, x2_turn());
    let mut segments: Vec<MySeg> = Vec::new();
    let mut total: u32 = 0;
    assert(plan_moves(segments@) == Seq::<Move>::empty());
    assert(apply_moves(state@, Seq::<Move>::empty()) == state@);

    // 1. White down.
    let mut x2v: Vec<Move> = Vec::new();
    x2v.push(Move::Rot(RotAxis::X, Turns::Half));
    let x2 = Alg::new(x2v);
    let mut work = state.applied_alg(&x2);
    proof {
        crate::facelet::lemma_apply_moves_short(state@, x2_turn(), x2_turn());
        assert(x2@ == seq![x2_turn()]);
    }
    let seg = MySeg { case_idx: None, auf_len: 0, alg: x2, est_ms: 900 };
    proof {
        lemma_plan_push(segments@, seg, state@);
        lemma_steps_push(*rec, measured@, segments@, seg);
    }
    segments.push(seg);
    total += 900;
    let ghost mut ms: Seq<Move> = Seq::empty();
    assert(work@ == s0);
    assert(apply_moves(s0, ms) == s0);

    // 2. Cross.
    let cross = match solve_cross(&work) {
        Some(c) => c,
        None => {
            return None;
        },
    };
    if cross.0.len() > 0 {
        let ghost before = work@;
        work = work.applied_alg(&cross);
        let est = 500 + 350 * cross.0.len() as u32;
        let seg = MySeg { case_idx: None, auf_len: 0, alg: cross, est_ms: est };
        proof {
            lemma_plan_push(segments@, seg, state@);
            lemma_steps_push(*rec, measured@, segments@, seg);
            lemma_apply_moves_append(s0, ms, seg.alg@);
            ms = ms + seg.alg@;
        }
        segments.push(seg);
        total += est;
    }
    assert(total <= 6000);

    // 3. Greedy lexicographic router over the lesson vocabulary.
    let mut vocab: Vec<(u16, u8)> = Vec::new();
    push_vocab(rec, &mut vocab, "lbl-corner-insert", 5);
    push_vocab(rec, &mut vocab, "lbl-second-layer-right", 1);
    push_vocab(rec, &mut vocab, "lbl-second-layer-left", 1);
    push_vocab(rec, &mut vocab, "lbl-top-cross", 1);
    push_vocab(rec, &mut vocab, "lbl-sune", 2);
    push_vocab(rec, &mut vocab, "lbl-edge-cycle", 2);
    push_vocab(rec, &mut vocab, "lbl-corner-cycle", 2);

    let mut guard: u32 = 0;
    while guard < 40 && !all_faces_uniform(&work)
        invariant
            0 <= guard <= 40,
            rec.wf(),
            !faces_uniform(state@),
            work@ == apply_moves(state@, plan_moves(segments@)),
            work@ == apply_moves(s0, ms),
            face_only(ms),
            total as int == plan_ms(segments@),
            total >= 900,
            !big ==> total <= 6000 + guard * 50_000_150,
            big == large_inputs(*rec, measured@),
            s0 == apply_move(state@, x2_turn()),
            segments@.len() >= 1 && segments@[0].est_ms == 900,
            plan_steps_ok(*rec, measured@, segments@),
            forall|k: int| 0 <= k < vocab@.len() ==> (#[trigger] vocab@[k]).0 < rec.cases().len() && vocab@[k].1 <= 5,
        decreases 40 - guard,
    {
        guard += 1;
        let cur = progress(&work);
        let mut best: Option<Best> = None;
        let mut v: usize = 0;
        while v < vocab.len()
            invariant
                0 <= v <= vocab@.len(),
                rec.wf(),
                !faces_uniform(state@),
                big == large_inputs(*rec, measured@),
                (best matches Some(b) ==> b.next@ == apply_moves(work@, b.cand.alg@)),
                (best matches Some(b) ==> face_only(b.cand.alg@)),
                !big ==> (best matches Some(b) ==> b.cand.est_ms <= 50_000_150),
                (best matches Some(b) ==> vocab_step_ok(*rec, measured@, b.cand.case_idx, b.cand.auf, b.cand.alg@, b.cand.est_ms)),
                (best matches Some(b) ==> raw_step_ok(b.cand.case_idx, b.cand.auf, b.cand.alg@, b.cand.est_ms)),
                forall|k: int| 0 <= k < vocab@.len() ==> (#[trigger] vocab@[k]).0 < rec.cases().len() && vocab@[k].1 <= 5,
            decreases vocab@.len() - v,
        {
            let (case_idx, max_reps) = vocab[v];
            v += 1;
            let base = copy_alg(&rec.case(case_idx).alg);
            let mut frame: u8 = 0;
            while frame < 4
                invariant
                    0 <= frame <= 4,
                    !faces_uniform(state@),
                    max_reps <= 5,
                    case_idx < rec.cases().len(),
                    base@ == rec.cases()[case_idx as int].alg@,
                    big == large_inputs(*rec, measured@),
                    (best matches Some(b) ==> b.next@ == apply_moves(work@, b.cand.alg@)),
                    (best matches Some(b) ==> face_only(b.cand.alg@)),
                    !big ==> (best matches Some(b) ==> b.cand.est_ms <= 50_000_150),
                    (best matches Some(b) ==> vocab_step_ok(*rec, measured@, b.cand.case_idx, b.cand.auf, b.cand.alg@, b.cand.est_ms)),
                    (best matches Some(b) ==> raw_step_ok(b.cand.case_idx, b.cand.auf, b.cand.alg@, b.cand.est_ms)),
                decreases 4 - frame,
            {
                let framed_y = base.in_y_frame(frame);
                proof {
                    crate::moves::lemma_relabel_y_zero(base@, (frame % 4) as int);
                }
                let framed = framed_y.face_moves_only();
                proof {
                    crate::moves::lemma_face_form_intro(framed@, framed_y@);
                }
                let ghost fj: int = frame as int;
                frame += 1;
                proof {
                    if !big {
                        assert(!((case_idx as int) < measured@.len() && (measured@[case_idx as int] matches Some(
                            vv,
                        ) && vv > 10_000_000)));
                        assert(!(rec.cases()[case_idx as int].alg@.len() > 10_000));
                        assert(framed@.len() <= 20_000);
                    }
                }
                let base_est: u32 = match case_base_est(measured, case_idx, &framed) {
                    Some(e) => e,
                    None => {
                        return None;
                    },
                };
                assert(!big ==> base_est <= 10_000_000);
                let mut auf: u8 = 0;
                while auf < 4
                    invariant
                        0 <= auf <= 4,
                        !faces_uniform(state@),
                        max_reps <= 5,
                        face_only(framed@),
                        big == large_inputs(*rec, measured@),
                        !big ==> base_est <= 10_000_000,
                        0 <= fj < 4,
                        case_idx < rec.cases().len(),
                        face_form(framed@, relabel_y_moves(rec.cases()[case_idx as int].alg@, fj)),
                        base_est == case_time(measured@, case_idx as int, framed@.len() as int),
                        (best matches Some(b) ==> b.next@ == apply_moves(work@, b.cand.alg@)),
                        (best matches Some(b) ==> face_only(b.cand.alg@)),
                        !big ==> (best matches Some(b) ==> b.cand.est_ms <= 50_000_150),
                        (best matches Some(b) ==> vocab_step_ok(*rec, measured@, b.cand.case_idx, b.cand.auf, b.cand.alg@, b.cand.est_ms)),
                        (best matches Some(b) ==> raw_step_ok(b.cand.case_idx, b.cand.auf, b.cand.alg@, b.cand.est_ms)),
                    decreases 4 - auf,
                {
                    let mut reps: u8 = 1;
                    while reps <= max_reps
                        invariant
                            1 <= reps <= max_reps + 1,
                            !faces_uniform(state@),
                            auf < 4,
                            max_reps <= 5,
                            face_only(framed@),
                            big == large_inputs(*rec, measured@),
                            !big ==> base_est <= 10_000_000,
                            0 <= fj < 4,
                            case_idx < rec.cases().len(),
                            face_form(framed@, relabel_y_moves(rec.cases()[case_idx as int].alg@, fj)),
                            base_est == case_time(measured@, case_idx as int, framed@.len() as int),
                            (best matches Some(b) ==> b.next@ == apply_moves(work@, b.cand.alg@)),
                            (best matches Some(b) ==> face_only(b.cand.alg@)),
                            !big ==> (best matches Some(b) ==> b.cand.est_ms <= 50_000_150),
                            (best matches Some(b) ==> vocab_step_ok(*rec, measured@, b.cand.case_idx, b.cand.auf, b.cand.alg@, b.cand.est_ms)),
                            (best matches Some(b) ==> raw_step_ok(b.cand.case_idx, b.cand.auf, b.cand.alg@, b.cand.est_ms)),
                        decreases max_reps + 1 - reps,
                    {
                        proof {
                            if !big {
                                assert(base_est * reps <= 50_000_000) by (nonlinear_arith)
                                    requires
                                        base_est <= 10_000_000,
                                        reps <= 5,
                                ;
                            }
                        }
                        let cand = match vocab_candidate(
                            &framed,
                            case_idx,
                            auf,
                            reps,
                            base_est,
                            Ghost(*rec),
                            Ghost(measured@),
                            Ghost(fj),
                        ) {
                            Some(c) => c,
                            None => {
                                return None;
                            },
                        };
                        consider(&work, &cur, cand, &mut best);
                        reps += 1;
                    }
                    auf += 1;
                }
            }
        }
        // Pure AUF (final alignment).
        let mut auf: u8 = 1;
        while auf < 4
            invariant
                1 <= auf <= 4,
                (best matches Some(b) ==> b.next@ == apply_moves(work@, b.cand.alg@)),
                (best matches Some(b) ==> face_only(b.cand.alg@)),
                !big ==> (best matches Some(b) ==> b.cand.est_ms <= 50_000_150),
                (best matches Some(b) ==> vocab_step_ok(*rec, measured@, b.cand.case_idx, b.cand.auf, b.cand.alg@, b.cand.est_ms)),
                (best matches Some(b) ==> raw_step_ok(b.cand.case_idx, b.cand.auf, b.cand.alg@, b.cand.est_ms)),
            decreases 4 - auf,
        {
            let turns = if auf == 1 {
                Turns::Cw
            } else if auf == 2 {
                Turns::Half
            } else {
                Turns::Ccw
            };
            let mut one: Vec<Move> = Vec::new();
            one.push(Move::Face(Face::U, turns));
            let cand = Candidate { case_idx: None, auf: 0, alg: Alg::new(one), est_ms: 400 };
            assert(cand.alg@.len() == 1 && cand.alg@[0] == Move::Face(Face::U, turns));
            consider(&work, &cur, cand, &mut best);
            auf += 1;
        }
        match best {
            Some(b) => {
                let seg = MySeg {
                    case_idx: b.cand.case_idx,
                    auf_len: b.cand.auf,
                    alg: b.cand.alg,
                    est_ms: b.cand.est_ms,
                };
                proof {
                    lemma_plan_push(segments@, seg, state@);
                    lemma_steps_push(*rec, measured@, segments@, seg);
                    lemma_apply_moves_append(s0, ms, seg.alg@);
                    assert forall|k: int| 0 <= k < (ms + seg.alg@).len() implies crate::moves::is_face_move(
                        #[trigger] (ms + seg.alg@)[k],
                    ) by {
                        if k >= ms.len() {
                            assert((ms + seg.alg@)[k] == seg.alg@[k - ms.len()]);
                        }
                    }
                    ms = ms + seg.alg@;
                }
                work = b.next;
                total = match total.checked_add(seg.est_ms) {
                    Some(t) => t,
                    None => {
                        return None;
                    },
                };
                segments.push(seg);
            },
            None => {
                break;
            },
        }
    }

    // 4. Solver tail, conjugated into the x2 frame (U and D, F and B swap).
    if !all_faces_uniform(&work) {
        let ghost w = work@;
        let normalized = work.normalize_orientation();
        let sol = match solve(table, &normalized) {
            Ok(a) => a,
            Err(e) => {
                proof {
                    assert(solve_outcome(table_contents(table), normalize_spec(w), Err::<Alg, SolveError>(e)));
                    assert(tail_fails(table_contents(table), apply_moves(s0, ms)));
                }
                return None;
            },
        };
        let mut moves: Vec<Move> = Vec::new();
        let mut k: usize = 0;
        while k < sol.0.len()
            invariant
                0 <= k <= sol@.len(),
                moves@ == sol@.subrange(0, k as int).map_values(|m: Move| x2_conj(m)),
            decreases sol@.len() - k,
        {
            moves.push(x2_conj_exec(sol.0[k]));
            proof {
                assert(sol@.subrange(0, k + 1).map_values(|m: Move| x2_conj(m)) =~= sol@.subrange(
                    0,
                    k as int,
                ).map_values(|m: Move| x2_conj(m)).push(x2_conj(sol@[k as int])));
            }
            k += 1;
        }
        assert(sol@.subrange(0, sol@.len() as int) =~= sol@);
        let tail = Alg::new(moves);
        assert(tail@ == x2_conj_moves(sol@));
        let est = 900 + 350 * tail.0.len() as u32;
        work = work.applied_alg(&tail);
        let seg = MySeg { case_idx: None, auf_len: 0, alg: tail, est_ms: est };
        proof {
            lemma_plan_push(segments@, seg, state@);
            lemma_steps_push(*rec, measured@, segments@, seg);
        }
        segments.push(seg);
        total = match total.checked_add(est) {
            Some(t) => t,
            None => {
                return None;
            },
        };
        if all_faces_uniform(&work) {
            return Some(MyWayPlan { segments, total_ms: total });
        } else {
            proof {
                assert(solve_outcome(table_contents(table), normalize_spec(w), Ok::<Alg, SolveError>(sol)));
                assert(tail_fails(table_contents(table), apply_moves(s0, ms)));
            }
            return None;
        }
    }
    Some(MyWayPlan { segments, total_ms: total })
}

} // verus!
