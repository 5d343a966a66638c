//! Practice scrambles: a scramble whose solution contains the algorithms
//! being drilled, drawn at random or built backwards along the algorithms'
//! inverses. What is reported is measured on the solution the guide will
//! show, never on the route a state was built from.

use vstd::prelude::*;
use crate::cases::{RecogKind, Recognizer};
use crate::facelet::{apply_moves, centers_home, solved_spec, Face, FaceletCube};
use crate::hints::{
    face_only, guided_ok, guided_solves, seg_alg, seg_case, segs_len, solve_with_hints, GuidedSolution,
};
use crate::moves::{face_form, inverse_moves, is_face_move, relabel_y_moves, Move, Turns};
use crate::my_way::repeat_moves;
use crate::rng::SplitMix64;
use crate::solve::SolverTable;

verus! {

/// How a practice state is produced.
#[derive(Clone, Copy, PartialEq, Eq, Structural, Debug)]
pub enum Mode {
    /// Random states, kept when their solution uses the chosen cases.
    Random,
    /// Built backwards along the chosen cases' inverses.
    Built,
    /// Random first, then built.
    Auto,
}

/// A practice state with the solution the guide shows for it. The share of
/// the solution that is the chosen algorithms is `alg_moves / total_moves`.
pub struct PracticeScramble {
    pub state: FaceletCube,
    pub solution: GuidedSolution,
    /// (case index, times it appears in the solution), in order of first
    /// appearance.
    pub counts: Vec<(u16, usize)>,
    /// Moves of the solution that belong to the chosen algorithms.
    pub alg_moves: usize,
    /// Moves of the whole solution.
    pub total_moves: usize,
    /// How the state was produced (`Auto` resolved).
    pub mode: Mode,
}

/// Random draws before giving up (each is a full solve).
pub const RANDOM_ATTEMPTS: usize = 8;

/// Where case `c` first occurs in `counts` at or after `i` (`-1` if not).
pub open spec fn first_pos(counts: Seq<(u16, usize)>, c: u16, i: int) -> int
    decreases counts.len() - i,
{
    if i < 0 || i >= counts.len() {
        -1
    } else if counts[i].0 == c {
        i
    } else {
        first_pos(counts, c, i + 1)
    }
}

/// One more occurrence of case `c`.
pub open spec fn bump(counts: Seq<(u16, usize)>, c: u16) -> Seq<(u16, usize)> {
    let p = first_pos(counts, c, 0);
    if p >= 0 {
        counts.update(p, (c, (counts[p].1 + 1) as usize))
    } else {
        counts.push((c, 1usize))
    }
}

/// The segment is a trained algorithm among `wanted`.
pub open spec fn wanted_seg(seg: crate::hints::Segment, wanted: Seq<u16>) -> bool {
    seg_case(seg) matches Some(c) && wanted.contains(c)
}

/// Occurrences of the wanted cases among the segments, in order of first
/// appearance.
pub open spec fn counts_spec(segs: Seq<crate::hints::Segment>, wanted: Seq<u16>) -> Seq<(u16, usize)>
    decreases segs.len(),
{
    if segs.len() == 0 {
        seq![]
    } else if wanted_seg(segs.last(), wanted) {
        bump(counts_spec(segs.drop_last(), wanted), seg_case(segs.last())->0)
    } else {
        counts_spec(segs.drop_last(), wanted)
    }
}

/// Number of wanted segments.
pub open spec fn wanted_count(segs: Seq<crate::hints::Segment>, wanted: Seq<u16>) -> nat
    decreases segs.len(),
{
    if segs.len() == 0 {
        0
    } else {
        wanted_count(segs.drop_last(), wanted) + if wanted_seg(segs.last(), wanted) {
            1nat
        } else {
            0nat
        }
    }
}

/// Moves of the wanted segments.
pub open spec fn wanted_moves(segs: Seq<crate::hints::Segment>, wanted: Seq<u16>) -> nat
    decreases segs.len(),
{
    if segs.len() == 0 {
        0
    } else {
        wanted_moves(segs.drop_last(), wanted) + if wanted_seg(segs.last(), wanted) {
            seg_alg(segs.last()).len()
        } else {
            0nat
        }
    }
}

proof fn lemma_wanted_moves_bound(segs: Seq<crate::hints::Segment>, wanted: Seq<u16>)
    ensures
        wanted_moves(segs, wanted) <= segs_len(segs),
        wanted_count(segs, wanted) <= segs.len(),
    decreases segs.len(),
{
    if segs.len() > 0 {
        lemma_wanted_moves_bound(segs.drop_last(), wanted);
    }
}

proof fn lemma_first_pos(counts: Seq<(u16, usize)>, c: u16, i: int)
    requires
        0 <= i,
    ensures
        first_pos(counts, c, i) == -1 || (i <= first_pos(counts, c, i) < counts.len() && counts[first_pos(
            counts,
            c,
            i,
        )].0 == c && forall|j: int| i <= j < first_pos(counts, c, i) ==> counts[j].0 != c),
        first_pos(counts, c, i) == -1 ==> forall|j: int| i <= j < counts.len() ==> counts[j].0 != c,
    decreases counts.len() - i,
{
    if i < counts.len() && counts[i].0 != c {
        lemma_first_pos(counts, c, i + 1);
    }
}

fn contains_case(v: &[u16], c: u16) -> (b: bool)
    ensures
        b == v@.contains(c),
{
    let mut i: usize = 0;
    while i < v.len()
        invariant
            0 <= i <= v@.len(),
            forall|j: int| 0 <= j < i ==> v@[j] != c,
        decreases v@.len() - i,
    {
        if v[i] == c {
            return true;
        }
        i += 1;
    }
    false
}

/// Counts one more occurrence of `c`.
fn bump_exec(counts: &mut Vec<(u16, usize)>, c: u16, limit: usize)
    requires
        limit >= 1,
        forall|j: int| 0 <= j < old(counts)@.len() ==> (#[trigger] old(counts)@[j]).1 < limit,
    ensures
        final(counts)@ == bump(old(counts)@, c),
        forall|j: int| 0 <= j < final(counts)@.len() ==> (#[trigger] final(counts)@[j]).1 <= limit,
{
    proof {
        lemma_first_pos(counts@, c, 0);
    }
    let mut i: usize = 0;
    while i < counts.len()
        invariant
            0 <= i <= counts@.len(),
            counts@ == old(counts)@,
            forall|j: int| 0 <= j < i ==> counts@[j].0 != c,
            forall|j: int| 0 <= j < old(counts)@.len() ==> (#[trigger] old(counts)@[j]).1 < limit,
        decreases counts@.len() - i,
    {
        if counts[i].0 == c {
            let n = counts[i].1;
            proof {
                lemma_first_pos(counts@, c, 0);
                let p = first_pos(counts@, c, 0);
                assert(p != -1);
                assert(p <= i) by {
                    if p > i {
                        assert(counts@[i as int].0 != c);
                    }
                }
                assert(p == i) by {
                    if p < i {
                        assert(counts@[p].0 != c);
                    }
                }
            }
            counts.set(i, (c, n + 1));
            return;
        }
        i += 1;
    }
    proof {
        lemma_first_pos(counts@, c, 0);
        let p = first_pos(counts@, c, 0);
        if p != -1 {
            assert(counts@[p].0 == c);
        }
    }
    counts.push((c, 1));
}

/// Measures a guided solution of `state` against the chosen cases: the
/// practice scramble when the chosen cases occur at least `target` times
/// and the solution has moves.
pub fn measure(state: FaceletCube, solution: GuidedSolution, wanted: &[u16], target: usize, mode: Mode) -> (r:
    Option<PracticeScramble>)
    requires
        solution.total_htm as int == segs_len(solution.segments@),
    ensures
        r is Some <==> (wanted_count(solution.segments@, wanted@) >= target && solution.total_htm > 0),
        r matches Some(ps) ==> {
            &&& ps.state == state
            &&& ps.solution == solution
            &&& ps.counts@ == counts_spec(solution.segments@, wanted@)
            &&& ps.alg_moves == wanted_moves(solution.segments@, wanted@)
            &&& ps.total_moves == solution.total_htm
            &&& ps.mode == mode
        },
{
    let mut counts: Vec<(u16, usize)> = Vec::new();
    let mut alg_moves: usize = 0;
    let mut total: usize = 0;
    let n = solution.segments.len();
    let mut i: usize = 0;
    proof {
        lemma_wanted_moves_bound(solution.segments@, wanted@);
    }
    while i < n
        invariant
            0 <= i <= n,
            n == solution.segments@.len(),
            solution.total_htm as int == segs_len(solution.segments@),
            counts@ == counts_spec(solution.segments@.take(i as int), wanted@),
            alg_moves == wanted_moves(solution.segments@.take(i as int), wanted@),
            total == wanted_count(solution.segments@.take(i as int), wanted@),
            total <= i,
            alg_moves <= segs_len(solution.segments@.take(i as int)),
            segs_len(solution.segments@.take(i as int)) <= segs_len(solution.segments@),
            forall|j: int| 0 <= j < counts@.len() ==> (#[trigger] counts@[j]).1 <= i,
        decreases n - i,
    {
        let ghost pre = solution.segments@.take(i as int);
        let ghost post = solution.segments@.take(i + 1);
        proof {
            assert(post.drop_last() =~= pre);
            assert(post.last() == solution.segments@[i as int]);
            lemma_segs_len_prefix(solution.segments@, i as int + 1);
        }
        let seg = &solution.segments[i];
        match seg {
            crate::hints::Segment::Trained { case_idx, execution } => {
                if contains_case(wanted, *case_idx) {
                    bump_exec(&mut counts, *case_idx, i + 1);
                    alg_moves = alg_moves + execution.0.len();
                    total = total + 1;
                }
            },
            crate::hints::Segment::Raw(_) => {},
        }
        i += 1;
    }
    proof {
        assert(solution.segments@.take(n as int) =~= solution.segments@);
    }
    if total < target || solution.total_htm == 0 {
        return None;
    }
    let total_moves = solution.total_htm;
    Some(PracticeScramble { state, solution, counts, alg_moves, total_moves, mode })
}

proof fn lemma_segs_len_prefix(segs: Seq<crate::hints::Segment>, k: int)
    requires
        0 <= k <= segs.len(),
    ensures
        segs_len(segs.take(k)) <= segs_len(segs),
    decreases segs.len() - k,
{
    if k < segs.len() {
        lemma_segs_len_prefix(segs, k + 1);
        assert(segs.take(k + 1).drop_last() =~= segs.take(k));
        assert(segs_len(segs.take(k + 1)) == segs_len(segs.take(k + 1).drop_last()) + seg_alg(
            segs.take(k + 1).last(),
        ).len());
    } else {
        assert(segs.take(k) =~= segs);
    }
}

/// What a practice scramble reports of the solution the guide shows for
/// its state: a guided solution that solves it, made of face moves and the
/// chosen cases, with the chosen cases counted and their moves measured.
pub open spec fn measured(ps: PracticeScramble, wanted: Seq<u16>) -> bool {
    &&& guided_solves(ps.solution, ps.state@)
    &&& face_only(crate::hints::seg_moves(ps.solution.segments@))
    &&& ps.solution.total_htm as int == segs_len(ps.solution.segments@)
    &&& ps.counts@ == counts_spec(ps.solution.segments@, wanted)
    &&& ps.alg_moves == wanted_moves(ps.solution.segments@, wanted)
    &&& ps.total_moves == ps.solution.total_htm
    &&& ps.total_moves > 0
}

/// Solves `state` with the guided engine and measures how much of the
/// guided solution is the chosen cases (`None` when solving fails, there
/// is no guided solution, or the chosen cases occur fewer than `target`
/// times).
pub fn evaluate(
    table: Option<&SolverTable>,
    state: &FaceletCube,
    rec: &Recognizer,
    wanted: &[u16],
    target: usize,
    mode: Mode,
) -> (r: Option<PracticeScramble>)
    requires
        rec.wf(),
    ensures
        r matches Some(ps) ==> {
            &&& measured(ps, wanted@)
            &&& ps.state == *state
            &&& ps.mode == mode
            &&& wanted_count(ps.solution.segments@, wanted@) >= target
        },
{
    match solve_with_hints(table, state, wanted, rec) {
        Ok(out) => match out.guided {
            Some(g) => {
                proof {
                    crate::hints::lemma_seg_moves_face_only(g.segments@, wanted@);
                }
                measure(*state, g, wanted, target, mode)
            },
            None => None,
        },
        Err(_) => None,
    }
}

proof fn lemma_inverse_face_only(ms: Seq<Move>)
    requires
        face_only(ms),
    ensures
        face_only(crate::moves::inverse_moves(ms)),
{
    assert forall|k: int| 0 <= k < crate::moves::inverse_moves(ms).len() implies is_face_move(
        #[trigger] crate::moves::inverse_moves(ms)[k],
    ) by {
        assert(is_face_move(ms[ms.len() - 1 - k]));
    }
}

proof fn lemma_append_face_only(a: Seq<Move>, b: Seq<Move>)
    requires
        face_only(a),
        face_only(b),
    ensures
        face_only(a + b),
{
    assert forall|k: int| 0 <= k < (a + b).len() implies is_face_move(#[trigger] (a + b)[k]) by {
        if k >= a.len() {
            assert((a + b)[k] == b[k - a.len()]);
        }
    }
}

/// Reached from the solved cube by face moves.
pub open spec fn face_reachable(s: Seq<Face>) -> bool {
    exists|ms: Seq<Move>| face_only(ms) && #[trigger] apply_moves(solved_spec(), ms) == s
}

/// `inv` undoes one execution of a chosen case: it is the inverse of a
/// face-move form of that case's algorithm, in one of the four y frames.
pub open spec fn case_undo(rec: Recognizer, wanted: Seq<u16>, inv: Seq<Move>) -> bool {
    exists|x: int, j: int, f: Seq<Move>|
        0 <= x < wanted.len() && 0 <= j < 4 && #[trigger] face_form(
            f,
            relabel_y_moves(rec.cases()[wanted[x] as int].alg@, j),
        ) && inv == inverse_moves(f)
}

/// The move lists one after another.
pub open spec fn concat_moves(steps: Seq<Seq<Move>>) -> Seq<Move>
    decreases steps.len(),
{
    if steps.len() == 0 {
        seq![]
    } else {
        concat_moves(steps.drop_last()) + steps.last()
    }
}

/// One clockwise U quarter-turn.
pub open spec fn u_turn() -> Seq<Move> {
    seq![Move::Face(Face::U, Turns::Cw)]
}

/// A state whose solution runs the chosen cases `count` times: their
/// inverses applied to the solved cube, each in its own whole-cube frame
/// (the four frames shuffled), then a few U turns. Built from face moves
/// only, so the centers stay home.
pub fn build_backwards(rng: &mut SplitMix64, rec: &Recognizer, wanted: &[u16], count: usize) -> (r: FaceletCube)
    requires
        rec.wf(),
        wanted@.len() > 0,
        wanted@.len() <= u32::MAX,
        forall|k: int| 0 <= k < wanted@.len() ==> #[trigger] wanted@[k] < rec.cases().len(),
    ensures
        face_reachable(r@),
        exists|steps: Seq<Seq<Move>>, a: nat|
            steps.len() == count && a < 4 && (forall|i: int|
                0 <= i < steps.len() ==> case_undo(*rec, wanted@, #[trigger] steps[i])) && r@
                == apply_moves(solved_spec(), #[trigger] concat_moves(steps) + #[trigger] repeat_moves(u_turn(), a)),
{
    let mut state = FaceletCube::solved();
    let ghost mut ms: Seq<Move> = seq![];
    let ghost mut steps: Seq<Seq<Move>> = seq![];
    assert(apply_moves(solved_spec(), ms) == solved_spec());
    let mut frames: [u8; 4] = [0, 1, 2, 3];
    let mut i: usize = 3;
    while i >= 1
        invariant
            1 <= i + 1 <= 4,
            forall|k: int| 0 <= k < 4 ==> #[trigger] frames[k] < 4,
        decreases i,
    {
        let j = rng.below(i as u32 + 1) as usize;
        let t = frames[i];
        frames[i] = frames[j];
        frames[j] = t;
        if i == 1 {
            break;
        }
        i -= 1;
    }
    let mut k: usize = 0;
    while k < count
        invariant
            0 <= k <= count,
            rec.wf(),
            wanted@.len() > 0,
            wanted@.len() <= u32::MAX,
            forall|x: int| 0 <= x < wanted@.len() ==> #[trigger] wanted@[x] < rec.cases().len(),
            forall|x: int| 0 <= x < 4 ==> #[trigger] frames[x] < 4,
            face_only(ms),
            state@ == apply_moves(solved_spec(), ms),
            steps.len() == k,
            ms == concat_moves(steps),
            forall|i: int| 0 <= i < steps.len() ==> case_undo(*rec, wanted@, #[trigger] steps[i]),
        decreases count - k,
    {
        let pick = rng.below(wanted.len() as u32) as usize;
        let case = wanted[pick];
        let frame = frames[k % 4];
        let framed = rec.case(case).alg.in_y_frame(frame);
        let alg = framed.face_moves_only();
        let inv = alg.inverse();
        proof {
            crate::moves::lemma_face_form_intro(alg@, framed@);
            lemma_inverse_face_only(alg@);
            crate::facelet::lemma_apply_moves_append(solved_spec(), ms, inv@);
            lemma_append_face_only(ms, inv@);
            ms = ms + inv@;
            let x = pick as int;
            let j = (frame % 4) as int;
            assert(face_form(alg@, relabel_y_moves(rec.cases()[wanted@[x] as int].alg@, j)));
            assert(case_undo(*rec, wanted@, inv@));
            let old_steps = steps;
            steps = steps.push(inv@);
            assert(steps.drop_last() =~= old_steps);
            assert forall|i: int| 0 <= i < steps.len() implies case_undo(*rec, wanted@, #[trigger] steps[i]) by {
                if i < old_steps.len() {
                    assert(steps[i] == old_steps[i]);
                }
            }
        }
        state.apply_alg(&inv);
        k += 1;
    }
    let aufs = rng.below(4);
    let ghost body = ms;
    assert(repeat_moves(u_turn(), 0) =~= Seq::<Move>::empty());
    assert(ms =~= body + repeat_moves(u_turn(), 0));
    let mut a: u32 = 0;
    while a < aufs
        invariant
            0 <= a <= aufs,
            face_only(ms),
            state@ == apply_moves(solved_spec(), ms),
            ms == body + repeat_moves(u_turn(), a as nat),
        decreases aufs - a,
    {
        let u = Move::Face(Face::U, Turns::Cw);
        proof {
            let one = seq![u];
            assert(one.drop_last() =~= Seq::<Move>::empty());
            crate::facelet::lemma_apply_moves_short(state@, u, u);
            crate::facelet::lemma_apply_moves_append(solved_spec(), ms, one);
            lemma_append_face_only(ms, one);
            assert(one == u_turn());
            assert(ms + one =~= body + repeat_moves(u_turn(), (a + 1) as nat));
            ms = ms + one;
        }
        state.apply(u);
        a += 1;
    }
    assert(a < 4);
    assert(state@ == apply_moves(solved_spec(), concat_moves(steps) + repeat_moves(u_turn(), a as nat)));
    state
}

/// The chosen cases the recognizer can see (the ones it cannot, such as
/// the beginner steps, never appear in a guided solution).
pub open spec fn recognizable(rec: Recognizer, wanted: Seq<u16>) -> Seq<u16>
    decreases wanted.len(),
{
    if wanted.len() == 0 {
        seq![]
    } else if rec.cases()[wanted.last() as int].recognition != RecogKind::Manual {
        recognizable(rec, wanted.drop_last()).push(wanted.last())
    } else {
        recognizable(rec, wanted.drop_last())
    }
}

proof fn lemma_recognizable_members(rec: Recognizer, wanted: Seq<u16>)
    ensures
        forall|k: int| 0 <= k < recognizable(rec, wanted).len() ==> wanted.contains(#[trigger] recognizable(rec, wanted)[k]),
        recognizable(rec, wanted).len() <= wanted.len(),
    decreases wanted.len(),
{
    if wanted.len() > 0 {
        lemma_recognizable_members(rec, wanted.drop_last());
        let p = recognizable(rec, wanted.drop_last());
        assert forall|k: int| 0 <= k < recognizable(rec, wanted).len() implies wanted.contains(#[trigger] recognizable(rec, wanted)[k]) by {
            if k < p.len() {
                assert(recognizable(rec, wanted)[k] == p[k]);
                assert(wanted.drop_last().contains(p[k]));
                let j = choose|j: int| 0 <= j < wanted.drop_last().len() && wanted.drop_last()[j] == p[k];
                assert(wanted[j] == p[k]);
            } else {
                assert(wanted[wanted.len() - 1] == wanted.last());
            }
        }
    }
}

/// A practice state for the chosen cases with the solution the guide shows
/// for it. `Random` draws up to eight random states and keeps the first
/// whose solution uses the chosen cases at least `target` (at least one)
/// times; `Built` builds states backwards, asking for `target` occurrences
/// down to one, four tries each, and keeps the first that reaches `target`
/// or else the one whose solution uses the cases most; `Auto` tries
/// `Random`, then `Built`. `None` when no chosen case is recognizable or no
/// try produced a guided solution that uses them.
pub fn practice_scramble(
    table: Option<&SolverTable>,
    rng: &mut SplitMix64,
    rec: &Recognizer,
    wanted: &[u16],
    target: usize,
    mode: Mode,
) -> (r: Option<PracticeScramble>)
    requires
        rec.wf(),
        wanted@.len() <= u32::MAX,
        forall|k: int| 0 <= k < wanted@.len() ==> #[trigger] wanted@[k] < rec.cases().len(),
    ensures
        recognizable(*rec, wanted@).len() == 0 ==> r is None,
        r matches Some(ps) ==> {
            let w = recognizable(*rec, wanted@);
            &&& measured(ps, w)
            &&& wanted_count(ps.solution.segments@, w) >= 1
            &&& ps.mode != Mode::Auto
            &&& mode == Mode::Random ==> ps.mode == Mode::Random
            &&& mode == Mode::Built ==> ps.mode == Mode::Built
            &&& ps.mode == Mode::Random ==> (centers_home(ps.state@) && wanted_count(
                ps.solution.segments@,
                w,
            ) >= if target == 0 {
                1
            } else {
                target as int
            })
            &&& ps.mode == Mode::Built ==> face_reachable(ps.state@)
        },
{
    let mut ws: Vec<u16> = Vec::new();
    let mut i: usize = 0;
    while i < wanted.len()
        invariant
            0 <= i <= wanted@.len(),
            rec.wf(),
            forall|k: int| 0 <= k < wanted@.len() ==> #[trigger] wanted@[k] < rec.cases().len(),
            ws@ == recognizable(*rec, wanted@.take(i as int)),
        decreases wanted@.len() - i,
    {
        proof {
            assert(wanted@.take(i + 1).drop_last() =~= wanted@.take(i as int));
            assert(wanted@.take(i + 1).last() == wanted@[i as int]);
        }
        let c = wanted[i];
        if rec.case(c).recognition != RecogKind::Manual {
            ws.push(c);
        }
        i += 1;
    }
    proof {
        assert(wanted@.take(wanted@.len() as int) =~= wanted@);
        lemma_recognizable_members(*rec, wanted@);
    }
    let ghost w = recognizable(*rec, wanted@);
    assert(ws@ == w);
    if ws.len() == 0 {
        return None;
    }
    assert forall|k: int| 0 <= k < ws@.len() implies #[trigger] ws@[k] < rec.cases().len() by {
        assert(wanted@.contains(ws@[k]));
    }
    let ghost tgt: int = if target == 0 {
        1
    } else {
        target as int
    };
    let goal = if target == 0 {
        1
    } else {
        target
    };
    if mode == Mode::Random || mode == Mode::Auto {
        let mut attempt: usize = 0;
        while attempt < RANDOM_ATTEMPTS
            invariant
                rec.wf(),
                ws@ == w,
                w == recognizable(*rec, wanted@),
                ws@.len() > 0,
                goal == tgt,
                tgt == (if target == 0 {
                    1
                } else {
                    target as int
                }),
                tgt >= 1,
                mode == Mode::Random || mode == Mode::Auto,
            decreases RANDOM_ATTEMPTS - attempt,
        {
            let state = crate::solve::random_state();
            if let Some(found) = evaluate(table, &state, rec, &ws, goal, Mode::Random) {
                return Some(found);
            }
            attempt += 1;
        }
        if mode == Mode::Random {
            return None;
        }
    }
    let mut best: Option<PracticeScramble> = None;
    let mut count = goal;
    while count >= 1
        invariant
            rec.wf(),
            mode != Mode::Random,
            ws@ == w,
            w == recognizable(*rec, wanted@),
            ws@.len() > 0,
            ws@.len() <= u32::MAX,
            forall|k: int| 0 <= k < ws@.len() ==> #[trigger] ws@[k] < rec.cases().len(),
            best matches Some(ps) ==> (measured(ps, w) && wanted_count(ps.solution.segments@, w) >= 1
                && ps.mode == Mode::Built && face_reachable(ps.state@)),
        decreases count,
    {
        let mut t: usize = 0;
        while t < 4
            invariant
                rec.wf(),
                mode != Mode::Random,
                ws@ == w,
                w == recognizable(*rec, wanted@),
                ws@.len() > 0,
                ws@.len() <= u32::MAX,
                forall|k: int| 0 <= k < ws@.len() ==> #[trigger] ws@[k] < rec.cases().len(),
                best matches Some(ps) ==> (measured(ps, w) && wanted_count(ps.solution.segments@, w) >= 1
                    && ps.mode == Mode::Built && face_reachable(ps.state@)),
            decreases 4 - t,
        {
            t += 1;
            let state = build_backwards(rng, rec, &ws, count);
            let found = match evaluate(table, &state, rec, &ws, 1, Mode::Built) {
                Some(f) => f,
                None => {
                    continue;
                },
            };
            let n = total_count(&found.counts);
            if n >= goal {
                return Some(found);
            }
            let better = match &best {
                Some(b) => n > total_count(&b.counts),
                None => true,
            };
            if better {
                best = Some(found);
            }
        }
        count -= 1;
    }
    best
}

/// Total occurrences over a count list (saturating).
fn total_count(counts: &Vec<(u16, usize)>) -> (n: usize) {
    let mut n: usize = 0;
    let mut i: usize = 0;
    while i < counts.len()
        invariant
            0 <= i <= counts@.len(),
        decreases counts@.len() - i,
    {
        n = n.saturating_add(counts[i].1);
        i += 1;
    }
    n
}

} // verus!
