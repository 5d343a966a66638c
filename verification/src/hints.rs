//! Hint engine: prefer the user's trained algorithms when solving.
//!
//! Two layers:
//! 1. **Inline hints** (cheap, always on): walk the base solution's
//!    intermediate states and flag every point where a trained case
//!    applies ("you could use T-Perm here").
//! 2. **Guided solution** (bounded search): chain trained algorithms
//!    (depth at most 3) with the solver filling the gaps, and pick the
//!    chain that uses the most trained algorithms within a small move
//!    budget over the base solution. Pedagogically better, not shorter.

use vstd::prelude::*;
use crate::cases::{CaseSet, Match, Recognizer};
use crate::facelet::{apply_move, apply_moves, centers_home, is_solved_spec, normalize_spec, Face, FaceletCube};
use crate::moves::{copy_alg, htm_len, is_face_move, Alg, Move, Turns};
use crate::solve::{bounded_outcome, solve, solve_bounded, solve_outcome, table_contents, SolveError, SolverTable};

verus! {

/// A trained case applies before move `step` of the base solution
/// (0 = at the scanned state).
#[derive(Clone, Copy, Debug)]
pub struct HintAt {
    pub step: usize,
    pub matched: Match,
}

#[derive(Clone, Debug)]
pub enum Segment {
    /// Filler moves from the solver.
    Raw(Alg),
    /// A trained algorithm, ready to execute (pre-AUF and frame folded in).
    Trained { case_idx: u16, execution: Alg },
}

/// The moves of a segment.
pub open spec fn seg_alg(seg: Segment) -> Seq<Move> {
    match seg {
        Segment::Raw(a) => a@,
        Segment::Trained { execution, .. } => execution@,
    }
}

impl Segment {
    pub fn alg(&self) -> (r: &Alg)
        ensures
            r@ == seg_alg(*self),
    {
        match self {
            Segment::Raw(a) => a,
            Segment::Trained { execution, .. } => execution,
        }
    }
}

#[derive(Clone, Debug)]
pub struct GuidedSolution {
    pub segments: Vec<Segment>,
    pub total_htm: usize,
    pub trained_used: usize,
    /// Ergonomic cost of the whole solution: R/U turns are cheapest in the
    /// hand, D/B awkward, off-frame matches cost a regrip, and untrained
    /// filler moves weigh more than practiced algorithm moves. Lower is
    /// smoother to perform.
    pub ergo_cost: u32,
    /// Ergonomic cost spent before the first trained segment: 0 means the
    /// solution opens with something the user knows.
    pub first_trained_ergo: u32,
}

#[derive(Clone, Debug)]
pub struct SolveOutput {
    /// The plain solution (at most 21 moves, 23 on the fallback).
    pub base: Alg,
    pub inline_hints: Vec<HintAt>,
    /// Present when at least one trained algorithm can be woven in within
    /// the move budget.
    pub guided: Option<GuidedSolution>,
}

// ------------------------------------------------------------ ergonomics

/// Hand cost of one move before the half-turn factor.
pub open spec fn base_ergo(m: Move) -> nat {
    match m {
        Move::Face(Face::U, _) | Move::Face(Face::R, _) => 10,
        Move::Face(Face::F, _) | Move::Face(Face::L, _) => 12,
        Move::Face(Face::D, _) => 14,
        Move::Face(Face::B, _) => 16,
        Move::Wide(_, _) => 14,
        Move::Slice(_, _) => 15,
        Move::Rot(_, _) => 8,
    }
}

/// Hand cost of one move: half turns cost one and a half times as much.
pub open spec fn move_ergo(m: Move) -> nat {
    let t = match m {
        Move::Face(_, t) => t,
        Move::Wide(_, t) => t,
        Move::Slice(_, t) => t,
        Move::Rot(_, t) => t,
    };
    if t == Turns::Half {
        base_ergo(m) * 3 / 2
    } else {
        base_ergo(m)
    }
}

/// Total hand cost of a move sequence.
pub open spec fn ergo_spec(ms: Seq<Move>) -> nat
    decreases ms.len(),
{
    if ms.len() == 0 {
        0
    } else {
        ergo_spec(ms.drop_last()) + move_ergo(ms.last())
    }
}

proof fn lemma_ergo_bound(ms: Seq<Move>)
    ensures
        ergo_spec(ms) <= 24 * ms.len(),
    decreases ms.len(),
{
    if ms.len() > 0 {
        lemma_ergo_bound(ms.drop_last());
    }
}

fn move_ergo_exec(m: Move) -> (c: u32)
    ensures
        c == move_ergo(m),
        c <= 24,
{
    let (base, turns): (u32, Turns) = match m {
        Move::Face(Face::U, t) | Move::Face(Face::R, t) => (10, t),
        Move::Face(Face::F, t) | Move::Face(Face::L, t) => (12, t),
        Move::Face(Face::D, t) => (14, t),
        Move::Face(Face::B, t) => (16, t),
        Move::Wide(_, t) => (14, t),
        Move::Slice(_, t) => (15, t),
        Move::Rot(_, t) => (8, t),
    };
    if turns == Turns::Half {
        base * 3 / 2
    } else {
        base
    }
}

/// Ergonomic cost of physically performing a sequence, about 10 per
/// comfortable quarter turn. Face weights follow speedcubing ergonomics
/// (R/U flow, B is a regrip); half turns cost 1.5x; whole-cube rotations
/// move no pieces but cost a regrip.
pub fn ergonomic_cost(alg: &Alg) -> (c: u32)
    requires
        alg@.len() <= 100_000_000,
    ensures
        c == ergo_spec(alg@),
        c <= 24 * alg@.len(),
{
    let mut total: u32 = 0;
    let mut k: usize = 0;
    while k < alg.0.len()
        invariant
            0 <= k <= alg@.len(),
            alg@.len() <= 100_000_000,
            total == ergo_spec(alg@.subrange(0, k as int)),
            total <= 24 * k,
        decreases alg@.len() - k,
    {
        proof {
            assert(alg@.subrange(0, k + 1).drop_last() =~= alg@.subrange(0, k as int));
        }
        total = total + move_ergo_exec(alg.0[k]);
        k += 1;
    }
    assert(alg@.subrange(0, alg@.len() as int) =~= alg@);
    total
}

/// Regrip cost of executing a match in a rotated y frame: one quarter of
/// reorientation per step away from the current front.
pub fn frame_regrip_cost(y_frame: u8) -> (c: u32)
    ensures
        c == 8 * (if y_frame % 4 <= 4 - y_frame % 4 {
            y_frame % 4
        } else {
            (4 - y_frame % 4) as u8
        }),
{
    let j = (y_frame % 4) as u32;
    let k = if j <= 4 - j {
        j
    } else {
        4 - j
    };
    k * 8
}

/// Filler (solver) moves are unpracticed reading-and-turning; trained
/// algorithm moves are muscle memory. Filler weighs 25% more.
pub fn filler_ergo(alg: &Alg) -> (c: u32)
    requires
        alg@.len() <= 10_000_000,
    ensures
        c == ergo_spec(alg@) * 5 / 4,
{
    ergonomic_cost(alg) * 5 / 4
}

/// Every algorithm start costs a "look": the pause to recognize the case
/// before the hands move. Roughly one comfortable turn.
pub const RECOGNITION_PAUSE: i64 = 8;

pub fn single_move_ergo(m: Move) -> (c: i64)
    ensures
        c == move_ergo(m),
        0 <= c <= 24,
{
    move_ergo_exec(m) as i64
}

/// Seam cost between two consecutive segments' boundary moves.
pub open spec fn junction_spec(prev_last: Option<Move>, next_first: Option<Move>) -> int {
    match (prev_last, next_first) {
        (Some(Move::Face(pf, pt)), Some(Move::Face(nf, nt))) => if pf == nf {
            let q = (pt.q() + nt.q()) % 4;
            let merged = if q == 0 {
                0
            } else if q == 1 {
                move_ergo(Move::Face(pf, Turns::Cw)) as int
            } else if q == 2 {
                move_ergo(Move::Face(pf, Turns::Half)) as int
            } else {
                move_ergo(Move::Face(pf, Turns::Ccw)) as int
            };
            merged - move_ergo(Move::Face(pf, pt)) - move_ergo(Move::Face(nf, nt))
        } else {
            (if pf == Face::B || nf == Face::B {
                6int
            } else {
                0
            }) + (if pf == Face::D || nf == Face::D {
                3int
            } else {
                0
            }) + (if (pf == Face::F && nf == Face::L) || (pf == Face::L && nf == Face::F) {
                2int
            } else {
                0
            })
        },
        _ => 0,
    }
}

/// Junction cost between two consecutive segments, computed from the
/// moves at the seam:
///
/// - **Cancellation bonus** (negative): same-face moves at the seam merge
///   (`R' | R` vanishes entirely, `R | R` becomes one `R2`).
/// - **Grip penalty** (positive): awkward hand-position changes at the
///   seam (B is a regrip for most grips, D a wrist turn, F/L crossings).
///
/// Seams with slice, wide or rotation moves cost nothing.
pub fn junction_cost(prev_last: Option<Move>, next_first: Option<Move>) -> (c: i64)
    ensures
        c == junction_spec(prev_last, next_first),
        -48 <= c <= 11,
{
    let (prev, next) = match (prev_last, next_first) {
        (Some(p), Some(n)) => (p, n),
        _ => {
            return 0;
        },
    };
    let (pf, pt, nf, nt) = match (prev, next) {
        (Move::Face(pf, pt), Move::Face(nf, nt)) => (pf, pt, nf, nt),
        _ => {
            return 0;
        },
    };
    if pf == nf {
        let q = (pt.quarters() + nt.quarters()) % 4;
        let separate = single_move_ergo(prev) + single_move_ergo(next);
        let merged = if q == 0 {
            0
        } else if q == 1 {
            single_move_ergo(Move::Face(pf, Turns::Cw))
        } else if q == 2 {
            single_move_ergo(Move::Face(pf, Turns::Half))
        } else {
            single_move_ergo(Move::Face(pf, Turns::Ccw))
        };
        return merged - separate;
    }
    let mut penalty: i64 = 0;
    if pf == Face::B || nf == Face::B {
        penalty += 6;
    }
    if pf == Face::D || nf == Face::D {
        penalty += 3;
    }
    if (pf == Face::F && nf == Face::L) || (pf == Face::L && nf == Face::F) {
        penalty += 2;
    }
    penalty
}

// ------------------------------------------------------------ inline hints

/// The sets every hint search looks at.
pub open spec fn all_sets() -> Seq<CaseSet> {
    seq![CaseSet::F2l, CaseSet::Oll, CaseSet::Pll, CaseSet::Lbl]
}

/// The first `n` matches whose case is trained.
pub open spec fn keep_trained(ms: Seq<Match>, trained: Seq<u16>, n: nat) -> Seq<Match>
    decreases n,
{
    if n == 0 || n > ms.len() {
        seq![]
    } else {
        keep_trained(ms, trained, (n - 1) as nat) + if trained.contains(ms[n - 1].case_idx) {
            seq![ms[n - 1]]
        } else {
            seq![]
        }
    }
}

/// Matches of trained cases at a state, against every set.
pub open spec fn trained_matches_spec(rec: Recognizer, s: Seq<Face>, trained: Seq<u16>) -> Seq<Match> {
    let ms = rec.recognize_spec(s, all_sets());
    keep_trained(ms, trained, ms.len())
}

fn contains_u16(v: &[u16], x: u16) -> (b: bool)
    ensures
        b == v@.contains(x),
{
    let mut i: usize = 0;
    while i < v.len()
        invariant
            0 <= i <= v@.len(),
            forall|j: int| 0 <= j < i ==> v@[j] != x,
        decreases v@.len() - i,
    {
        if v[i] == x {
            assert(v@[i as int] == x);
            return true;
        }
        i += 1;
    }
    false
}

fn trained_matches(s: &FaceletCube, trained: &[u16], rec: &Recognizer) -> (r: Vec<Match>)
    requires
        rec.wf(),
    ensures
        r@ == trained_matches_spec(*rec, s@, trained@),
{
    let sets = [CaseSet::F2l, CaseSet::Oll, CaseSet::Pll, CaseSet::Lbl];
    assert(sets@ =~= all_sets());
    let all = rec.recognize(s, &sets);
    let mut out: Vec<Match> = Vec::new();
    let mut i: usize = 0;
    while i < all.len()
        invariant
            0 <= i <= all@.len(),
            all@ == rec.recognize_spec(s@, all_sets()),
            out@ == keep_trained(all@, trained@, i as nat),
        decreases all@.len() - i,
    {
        if contains_u16(trained, all[i].case_idx) {
            out.push(all[i]);
        }
        i += 1;
    }
    out
}

/// Hints at the steps `0..n` of the base solution, step by step.
pub open spec fn inline_hints_spec(
    rec: Recognizer,
    s: Seq<Face>,
    base: Seq<Move>,
    trained: Seq<u16>,
    n: nat,
) -> Seq<HintAt>
    decreases n,
{
    if n == 0 {
        seq![]
    } else {
        let step = (n - 1) as int;
        inline_hints_spec(rec, s, base, trained, (n - 1) as nat) + trained_matches_spec(
            rec,
            apply_moves(s, base.take(step)),
            trained,
        ).map_values(|m: Match| HintAt { step: step as usize, matched: m })
    }
}

fn collect_inline_hints(s: &FaceletCube, base: &Alg, trained: &[u16], rec: &Recognizer) -> (r: Vec<
    HintAt,
>)
    requires
        rec.wf(),
        base@.len() < usize::MAX,
    ensures
        r@ == inline_hints_spec(*rec, s@, base@, trained@, (base@.len() + 1) as nat),
{
    let mut out: Vec<HintAt> = Vec::new();
    let mut state = *s;
    let n = base.0.len();
    let mut step: usize = 0;
    while step <= n
        invariant
            0 <= step <= n + 1,
            n == base@.len(),
            n < usize::MAX,
            rec.wf(),
            step <= n ==> state@ == apply_moves(s@, base@.take(step as int)),
            out@ == inline_hints_spec(*rec, s@, base@, trained@, step as nat),
        decreases n + 1 - step,
    {
        let ms = trained_matches(&state, trained, rec);
        let ghost before = out@;
        let mut k: usize = 0;
        while k < ms.len()
            invariant
                0 <= k <= ms@.len(),
                out@ == before + ms@.take(k as int).map_values(
                    |m: Match| HintAt { step: step as usize, matched: m },
                ),
            decreases ms@.len() - k,
        {
            out.push(HintAt { step, matched: ms[k] });
            k += 1;
            assert(out@ =~= before + ms@.take(k as int).map_values(
                |m: Match| HintAt { step: step as usize, matched: m },
            ));
        }
        assert(ms@.take(ms@.len() as int) =~= ms@);
        if step < n {
            proof {
                assert(base@.take(step + 1).drop_last() =~= base@.take(step as int));
            }
            state.apply(base.0[step]);
        }
        step += 1;
    }
    out
}

// ------------------------------------------------------------ guided search

/// The trained case of a segment, if it is one.
pub open spec fn seg_case(seg: Segment) -> Option<u16> {
    match seg {
        Segment::Raw(_) => None,
        Segment::Trained { case_idx, .. } => Some(case_idx),
    }
}

/// Every move is an outer face turn.
pub open spec fn face_only(ms: Seq<Move>) -> bool {
    forall|k: int| 0 <= k < ms.len() ==> is_face_move(#[trigger] ms[k])
}

/// Total number of moves of the segments.
pub open spec fn segs_len(segs: Seq<Segment>) -> nat
    decreases segs.len(),
{
    if segs.len() == 0 {
        0
    } else {
        segs_len(segs.drop_last()) + seg_alg(segs.last()).len()
    }
}

/// Number of trained segments.
pub open spec fn trained_count(segs: Seq<Segment>) -> nat
    decreases segs.len(),
{
    if segs.len() == 0 {
        0
    } else {
        trained_count(segs.drop_last()) + if seg_case(segs.last()) is Some {
            1nat
        } else {
            0nat
        }
    }
}

/// Segments made of face moves whose trained cases are all in `trained`.
pub open spec fn segs_ok(segs: Seq<Segment>, trained: Seq<u16>) -> bool {
    forall|k: int|
        0 <= k < segs.len() ==> face_only(seg_alg(#[trigger] segs[k])) && (seg_case(segs[k]) matches Some(
            c,
        ) ==> trained.contains(c))
}

/// All moves of the segments, in order.
pub open spec fn seg_moves(segs: Seq<Segment>) -> Seq<Move>
    decreases segs.len(),
{
    if segs.len() == 0 {
        seq![]
    } else {
        seg_moves(segs.drop_last()) + seg_alg(segs.last())
    }
}

/// Some face-move sequence takes the cube to a state (centers brought
/// home) that the solver refuses.
pub open spec fn reaches_refused(s: Seq<Face>) -> bool {
    exists|ms: Seq<Move>|
        face_only(ms) && !crate::solve::kewb_accepts(
            crate::facelet::facelet_string(normalize_spec(#[trigger] apply_moves(s, ms))),
        )
}

pub(crate) proof fn lemma_seg_moves_face_only(segs: Seq<Segment>, trained: Seq<u16>)
    requires
        segs_ok(segs, trained),
    ensures
        face_only(seg_moves(segs)),
    decreases segs.len(),
{
    if segs.len() > 0 {
        let init = segs.drop_last();
        assert forall|k: int| 0 <= k < init.len() implies face_only(seg_alg(#[trigger] init[k])) && (seg_case(init[k]) matches Some(c) ==> trained.contains(c)) by {
            assert(init[k] == segs[k]);
        }
        lemma_seg_moves_face_only(init, trained);
        assert(segs.last() == segs[segs.len() - 1]);
        let a = seg_moves(init);
        let b = seg_alg(segs.last());
        assert forall|k: int| 0 <= k < (a + b).len() implies is_face_move(#[trigger] (a + b)[k]) by {
            if k >= a.len() {
                assert((a + b)[k] == b[k - a.len()]);
            }
        }
    }
}

/// On a cube whose centers are home, the guided solution's moves solve it.
pub open spec fn guided_solves(g: GuidedSolution, s: Seq<Face>) -> bool {
    centers_home(s) ==> is_solved_spec(apply_moves(s, seg_moves(g.segments@)))
}

/// The move budget of a guided solution: six moves over the base solution,
/// at least 24.
pub open spec fn guided_budget(base: Seq<Move>) -> nat {
    if htm_len(base) + 6 >= 24 {
        htm_len(base) + 6
    } else {
        24
    }
}

/// A guided solution: at least one trained segment, only trained cases,
/// face moves only, totals that match its segments, within the budget.
pub open spec fn guided_ok(g: GuidedSolution, trained: Seq<u16>, budget: nat) -> bool {
    &&& segs_ok(g.segments@, trained)
    &&& g.trained_used == trained_count(g.segments@)
    &&& g.trained_used >= 1
    &&& g.total_htm == segs_len(g.segments@)
    &&& g.total_htm <= budget
}

proof fn lemma_same_segments(a: Seq<Segment>, b: Seq<Segment>)
    requires
        a.len() == b.len(),
        forall|k: int|
            0 <= k < a.len() ==> seg_alg(#[trigger] a[k]) == seg_alg(b[k]) && seg_case(a[k])
                == seg_case(b[k]),
    ensures
        segs_len(a) == segs_len(b),
        trained_count(a) == trained_count(b),
        seg_moves(a) == seg_moves(b),
    decreases a.len(),
{
    if a.len() > 0 {
        lemma_same_segments(a.drop_last(), b.drop_last());
        assert(a.last() == a[a.len() - 1] && b.last() == b[b.len() - 1]);
    }
}

proof fn lemma_face_only_htm(ms: Seq<Move>)
    requires
        face_only(ms),
    ensures
        htm_len(ms) == ms.len(),
    decreases ms.len(),
{
    if ms.len() > 0 {
        lemma_face_only_htm(ms.drop_last());
    }
}

fn copy_segments(v: &Vec<Segment>) -> (r: Vec<Segment>)
    ensures
        r@.len() == v@.len(),
        forall|k: int|
            0 <= k < v@.len() ==> seg_alg(#[trigger] r@[k]) == seg_alg(v@[k]) && seg_case(r@[k])
                == seg_case(v@[k]),
{
    let mut out: Vec<Segment> = Vec::new();
    let mut i: usize = 0;
    while i < v.len()
        invariant
            0 <= i <= v@.len(),
            out@.len() == i,
            forall|k: int|
                0 <= k < i ==> seg_alg(#[trigger] out@[k]) == seg_alg(v@[k]) && seg_case(out@[k])
                    == seg_case(v@[k]),
        decreases v@.len() - i,
    {
        let seg = match &v[i] {
            Segment::Raw(a) => Segment::Raw(copy_alg(a)),
            Segment::Trained { case_idx, execution } => Segment::Trained {
                case_idx: *case_idx,
                execution: copy_alg(execution),
            },
        };
        out.push(seg);
        i += 1;
    }
    out
}

fn single_move_alg(mv: Move) -> (a: Alg)
    ensures
        a@ == seq![mv],
{
    let mut v: Vec<Move> = Vec::new();
    v.push(mv);
    assert(v@ =~= seq![mv]);
    Alg::new(v)
}

struct Node {
    /// The state the chain starts from.
    origin: Ghost<Seq<Face>>,
    state: FaceletCube,
    segments: Vec<Segment>,
    used_htm: usize,
    /// Accumulated ergonomic cost (trained segments, setups, regrips).
    ergo: u32,
    /// Ergo spent before the first trained segment (None until one is used).
    first_trained_ergo: Option<u32>,
    trained_used: usize,
}

/// A search node: its segments are valid, its counters match them, and its
/// costs stay within the bounds of three chained algorithms.
spec fn node_ok(n: Node, trained: Seq<u16>, budget: nat) -> bool {
    &&& n.origin@.len() == 54
    &&& centers_home(n.origin@) ==> (n.state@ == apply_moves(n.origin@, seg_moves(n.segments@))
        && centers_home(n.state@))
    &&& segs_ok(n.segments@, trained)
    &&& n.used_htm == segs_len(n.segments@)
    &&& n.used_htm <= budget
    &&& n.trained_used == trained_count(n.segments@)
    &&& n.trained_used <= 3
    &&& n.ergo <= 24100 * n.trained_used
    &&& n.trained_used == 0 <==> n.first_trained_ergo is None
    &&& n.first_trained_ergo matches Some(f) ==> f <= 72300
}

spec fn all_nodes_ok(v: Seq<Node>, trained: Seq<u16>, budget: nat) -> bool {
    forall|k: int| 0 <= k < v.len() ==> node_ok(#[trigger] v[k], trained, budget)
}

proof fn lemma_keep_trained_members(ms: Seq<Match>, trained: Seq<u16>, n: nat)
    ensures
        forall|k: int|
            0 <= k < keep_trained(ms, trained, n).len() ==> trained.contains(
                #[trigger] keep_trained(ms, trained, n)[k].case_idx,
            ) && exists|j: int| 0 <= j < ms.len() && ms[j] == keep_trained(ms, trained, n)[k],
    decreases n,
{
    if n > 0 && n <= ms.len() {
        lemma_keep_trained_members(ms, trained, (n - 1) as nat);
        let prev = keep_trained(ms, trained, (n - 1) as nat);
        let cur = keep_trained(ms, trained, n);
        assert forall|k: int| 0 <= k < cur.len() implies trained.contains(
            #[trigger] cur[k].case_idx,
        ) && exists|j: int| 0 <= j < ms.len() && ms[j] == cur[k] by {
            if k < prev.len() {
                assert(cur[k] == prev[k]);
            } else {
                assert(cur[k] == ms[n - 1]);
            }
        }
    }
}

proof fn lemma_hit_idx(rec: Recognizer, e: Option<(u16, u8)>, sets: Seq<CaseSet>, y: u8, kind: crate::cases::RecogKind, key: Option<int>)
    requires
        rec.wf(),
        e == rec.lookup(kind, key),
        kind != crate::cases::RecogKind::Manual,
    ensures
        forall|k: int| 0 <= k < rec.hit(e, sets, y).len() ==> (#[trigger] rec.hit(e, sets, y)[k]).case_idx
            < rec.cases().len(),
{
    match key {
        Some(kk) => {
            if 0 <= kk <= u32::MAX && rec.table(kind).contains_key(kk as u32) {
                assert(rec.table(kind)[kk as u32].0 < rec.cases().len());
            }
        },
        None => {},
    }
}

proof fn lemma_f2l_frames_idx(rec: Recognizer, s: Seq<Face>, sets: Seq<CaseSet>, n: nat)
    requires
        rec.wf(),
    ensures
        forall|k: int| 0 <= k < rec.f2l_frames(s, sets, n).len() ==> (#[trigger] rec.f2l_frames(
            s,
            sets,
            n,
        )[k]).case_idx < rec.cases().len(),
    decreases n,
{
    if n > 0 {
        lemma_f2l_frames_idx(rec, s, sets, (n - 1) as nat);
        let j = (n - 1) as int;
        let sj = crate::facelet::rotate_y_spec(s, j);
        let key = crate::cases::key_spec(crate::cases::RecogKind::F2l, sj);
        let e = rec.lookup(crate::cases::RecogKind::F2l, key);
        lemma_hit_idx(rec, e, sets, j as u8, crate::cases::RecogKind::F2l, key);
        let prev = rec.f2l_frames(s, sets, (n - 1) as nat);
        let cur = rec.f2l_frames(s, sets, n);
        assert forall|k: int| 0 <= k < cur.len() implies (#[trigger] cur[k]).case_idx
            < rec.cases().len() by {
            if k < prev.len() {
                assert(cur[k] == prev[k]);
            } else if crate::facelet::is_f2l_minus_fr_solved_spec(sj) {
                assert(cur[k] == rec.hit(e, sets, j as u8)[k - prev.len()]);
            }
        }
    }
}

/// Every match the recognizer reports names one of its cases.
proof fn lemma_recognized_idx(rec: Recognizer, s: Seq<Face>, sets: Seq<CaseSet>)
    requires
        rec.wf(),
    ensures
        forall|k: int| 0 <= k < rec.recognize_spec(s, sets).len() ==> (
        #[trigger] rec.recognize_spec(s, sets)[k]).case_idx < rec.cases().len(),
{
    let ko = crate::cases::key_spec(crate::cases::RecogKind::Oll, s);
    let kp = crate::cases::key_spec(crate::cases::RecogKind::Pll, s);
    lemma_hit_idx(rec, rec.lookup(crate::cases::RecogKind::Oll, ko), sets, 0, crate::cases::RecogKind::Oll, ko);
    lemma_hit_idx(rec, rec.lookup(crate::cases::RecogKind::Pll, kp), sets, 0, crate::cases::RecogKind::Pll, kp);
    lemma_f2l_frames_idx(rec, s, sets, 4);
}

/// Children of a search node: every trained match at `state` (the node's
/// state, or it after one setup move), executed as face moves, within the
/// move budget.
#[verifier::spinoff_prover]
#[verifier::rlimit(100)]
fn consider(
    node: &Node,
    prev_last: Option<Move>,
    setup: Option<Move>,
    state: &FaceletCube,
    trained: &[u16],
    rec: &Recognizer,
    budget: usize,
    children: &mut Vec<Node>,
)
    requires
        rec.wf(),
        budget <= 1000,
        node_ok(*node, trained@, budget as nat),
        node.trained_used < 3,
        setup matches Some(mv) ==> is_face_move(mv),
        state@ == (match setup {
            Some(mv) => apply_move(node.state@, mv),
            None => node.state@,
        }),
        all_nodes_ok(old(children)@, trained@, budget as nat),
        forall|k: int| 0 <= k < old(children)@.len() ==> (#[trigger] old(children)@[k]).origin@ == node.origin@,
        forall|k: int| 0 <= k < old(children)@.len() ==> (#[trigger] old(children)@[k]).trained_used == node.trained_used + 1,
    ensures
        all_nodes_ok(final(children)@, trained@, budget as nat),
        forall|k: int| 0 <= k < final(children)@.len() ==> (#[trigger] final(children)@[k]).trained_used == node.trained_used + 1,
        forall|k: int| 0 <= k < final(children)@.len() ==> (#[trigger] final(children)@[k]).origin@ == node.origin@,
        final(children)@.len() >= old(children)@.len(),
        forall|j: int| 0 <= j < old(children)@.len() ==> #[trigger] final(children)@[j] == old(children)@[j],
        (setup is None && node.used_htm == 0 && direct_short(*rec, state@, trained@, budget as nat))
            ==> final(children)@.len() > old(children)@.len(),
        (node.used_htm == 0 && centers_home(state@)) ==> forall|j: int|
            old(children)@.len() <= j < final(children)@.len() ==> #[trigger] chain_child(
                *rec,
                node.state@,
                trained@,
                setup,
                final(children)@[j],
            ),
{
    let ms = trained_matches(state, trained, rec);
    proof {
        let all = rec.recognize_spec(state@, all_sets());
        lemma_recognized_idx(*rec, state@, all_sets());
        lemma_keep_trained_members(all, trained@, all.len());
    }
    let mut i: usize = 0;
    while i < ms.len()
        invariant
            0 <= i <= ms@.len(),
            rec.wf(),
            budget <= 1000,
            node_ok(*node, trained@, budget as nat),
            node.trained_used < 3,
            setup matches Some(mv) ==> is_face_move(mv),
            state@ == (match setup {
                Some(mv) => apply_move(node.state@, mv),
                None => node.state@,
            }),
            all_nodes_ok(children@, trained@, budget as nat),
            forall|k: int| 0 <= k < children@.len() ==> (#[trigger] children@[k]).origin@ == node.origin@,
            forall|k: int| 0 <= k < children@.len() ==> (#[trigger] children@[k]).trained_used == node.trained_used + 1,
            forall|k: int|
                0 <= k < ms@.len() ==> trained@.contains((#[trigger] ms@[k]).case_idx)
                    && ms@[k].case_idx < rec.cases().len(),
            ms@ == trained_matches_spec(*rec, state@, trained@),
            children@.len() >= old(children)@.len(),
            forall|j: int| 0 <= j < old(children)@.len() ==> #[trigger] children@[j] == old(children)@[j],
            (setup is None && node.used_htm == 0 && exists|k: int|
                0 <= k < i && 2 * exec_moves(*rec, #[trigger] ms@[k]).len() + 1 <= budget)
                ==> children@.len() > old(children)@.len(),
            (node.used_htm == 0 && centers_home(state@)) ==> forall|j: int|
                old(children)@.len() <= j < children@.len() ==> #[trigger] chain_child(
                    *rec,
                    node.state@,
                    trained@,
                    setup,
                    children@[j],
                ),
        decreases ms@.len() - i,
    {
        let m = ms[i];
        i += 1;
        let exec_full = rec.execution_alg(m);
        assert(exec_full@ == exec_moves(*rec, m));
        let exec = exec_full.face_moves_only();
        if exec.0.len() > budget {
            continue;
        }
        let cost = exec.0.len() + if setup.is_some() {
            1
        } else {
            0
        };
        if node.used_htm + cost > budget {
            continue;
        }
        let setup_ergo: i64 = match setup {
            Some(mv) => {
                let one = single_move_alg(mv);
                let c = filler_ergo(&one);
                proof {
                    lemma_ergo_bound(one@);
                }
                c as i64
            },
            None => 0,
        };
        let first_exec = if exec.0.len() > 0 {
            Some(exec.0[0])
        } else {
            None
        };
        let seam_before_exec = match setup {
            Some(mv) => junction_cost(prev_last, Some(mv)) + junction_cost(Some(mv), first_exec),
            None => junction_cost(prev_last, first_exec),
        };
        let mut pre_exec_ergo = node.ergo as i64 + setup_ergo + seam_before_exec;
        if pre_exec_ergo < 0 {
            pre_exec_ergo = 0;
        }
        let exec_ergo = ergonomic_cost(&exec) as i64 + frame_regrip_cost(m.y_frame) as i64
            + RECOGNITION_PAUSE;
        assert(setup_ergo <= 30);
        assert(exec_ergo <= 24 * budget + 56);
        let child_state = state.applied_alg(&exec).normalize_orientation();
        proof {
            if centers_home(state@) {
                let g = choose|g: crate::moves::Rot3|
                    #[trigger] crate::turning::proper(g) && forall|t: Seq<Face>|
                        t.len() == 54 ==> #[trigger] apply_moves(t, exec_full@) == crate::turning::turned(
                            apply_moves(t, exec@),
                            g,
                        );
                crate::practice::lemma_face_moves_same_normalized(state@, exec_full@, exec@, g);
                assert(child_state@ == normalize_spec(apply_moves(state@, exec_moves(*rec, m))));
            }
        }
        let mut segments = copy_segments(&node.segments);
        proof {
            lemma_same_segments(segments@, node.segments@);
        }
        let ghost before = segments@;
        if let Some(mv) = setup {
            segments.push(Segment::Raw(single_move_alg(mv)));
        }
        let ghost mid = segments@;
        segments.push(Segment::Trained { case_idx: m.case_idx, execution: exec });
        let mut ergo = pre_exec_ergo + exec_ergo;
        if ergo < 0 {
            ergo = 0;
        }
        let first_trained_ergo = match node.first_trained_ergo {
            Some(f) => Some(f),
            None => {
                let mut f = node.ergo as i64 + setup_ergo;
                if f < 0 {
                    f = 0;
                }
                Some(f as u32)
            },
        };
        proof {
            assert(segments@.drop_last() == mid);
            if setup is Some {
                assert(mid.drop_last() == before);
                assert(seg_alg(mid.last()).len() == 1);
            } else {
                assert(mid == before);
            }
            assert forall|k: int| 0 <= k < segments@.len() implies face_only(
                seg_alg(#[trigger] segments@[k]),
            ) && (seg_case(segments@[k]) matches Some(c) ==> trained@.contains(c)) by {
                if k < before.len() {
                    assert(segments@[k] == before[k]);
                    assert(seg_alg(before[k]) == seg_alg(node.segments@[k]));
                    assert(seg_case(before[k]) == seg_case(node.segments@[k]));
                } else if k == segments@.len() - 1 {
                } else {
                    assert(segments@[k] == mid[k]);
                }
            }
        }
        proof {
            assert(segs_len(segments@) == segs_len(mid) + exec@.len());
            assert(trained_count(segments@) == trained_count(mid) + 1);
            if setup is Some {
                assert(segs_len(mid) == segs_len(before) + 1);
                assert(trained_count(mid) == trained_count(before));
            }
        }
        let child = Node {
            origin: node.origin,
            state: child_state,
            segments,
            used_htm: node.used_htm + cost,
            ergo: ergo as u32,
            first_trained_ergo,
            trained_used: node.trained_used + 1,
        };
        assert(child.used_htm == segs_len(child.segments@));
        assert(child.trained_used == trained_count(child.segments@));
        assert(child.ergo <= 24100 * child.trained_used);
        proof {
            lemma_child_tracks(node.origin@, node.state@, node.segments@, before, mid, segments@, setup, exec@, state@);
        }
        let ghost pre_children = children@;
        children.push(child);
        proof {
            if node.used_htm == 0 && centers_home(state@) {
                let x = after_setup(node.state@, setup);
                assert(x == state@);
                assert(ms@[i - 1] == trained_matches_spec(*rec, x, trained@)[i - 1]);
                assert(chain_child(*rec, node.state@, trained@, setup, child));
                assert forall|j: int| old(children)@.len() <= j < children@.len() implies #[trigger] chain_child(
                    *rec,
                    node.state@,
                    trained@,
                    setup,
                    children@[j],
                ) by {
                    if j < pre_children.len() {
                        assert(children@[j] == pre_children[j]);
                    }
                }
            }
        }
    }
}

proof fn lemma_child_tracks(
    o: Seq<Face>,
    ns: Seq<Face>,
    nsegs: Seq<Segment>,
    before: Seq<Segment>,
    mid: Seq<Segment>,
    segs: Seq<Segment>,
    setup: Option<Move>,
    exec: Seq<Move>,
    st: Seq<Face>,
)
    requires
        o.len() == 54,
        centers_home(o) ==> (ns == apply_moves(o, seg_moves(nsegs)) && centers_home(ns)),
        seg_moves(before) == seg_moves(nsegs),
        setup matches Some(mv) ==> (is_face_move(mv) && mid.len() == before.len() + 1 && mid.drop_last()
            == before && seg_alg(mid.last()) == seq![mv]),
        setup is None ==> mid == before,
        segs.drop_last() == mid,
        segs.len() > 0,
        seg_alg(segs.last()) == exec,
        face_only(exec),
        st == (match setup {
            Some(mv) => apply_move(ns, mv),
            None => ns,
        }),
    ensures
        centers_home(o) ==> (normalize_spec(apply_moves(st, exec)) == apply_moves(o, seg_moves(segs))
            && centers_home(apply_moves(st, exec))),
{
    if centers_home(o) {
        crate::facelet::lemma_apply_moves_len(o, seg_moves(nsegs));
        let pre: Seq<Move> = match setup {
            Some(mv) => seq![mv],
            None => seq![],
        };
        assert(seg_moves(mid) == seg_moves(nsegs) + pre) by {
            if setup is Some {
                assert(seg_moves(mid) == seg_moves(mid.drop_last()) + seg_alg(mid.last()));
                assert(seg_moves(before) + seq![setup->0] =~= seg_moves(nsegs) + pre);
            } else {
                assert(seg_moves(nsegs) + pre =~= seg_moves(nsegs));
            }
        }
        assert(st == apply_moves(ns, pre)) by {
            crate::facelet::lemma_apply_moves_short(ns, setup.unwrap_or(Move::Face(Face::U, Turns::Cw)), Move::Face(Face::U, Turns::Cw));
        }
        crate::facelet::lemma_apply_moves_append(o, seg_moves(nsegs), pre);
        crate::facelet::lemma_apply_moves_append(o, seg_moves(nsegs) + pre, exec);
        assert(seg_moves(segs) == seg_moves(nsegs) + pre + exec);
        crate::facelet::lemma_apply_moves_len(ns, pre);
        crate::turning::lemma_face_moves_keep_centers(ns, pre);
        crate::turning::lemma_face_moves_keep_centers(st, exec);
        crate::facelet::lemma_apply_moves_len(st, exec);
        let x = apply_moves(st, exec);
        assert(centers_home(x)) by {
            assert forall|f: int| 0 <= f < 6 implies #[trigger] x[9 * f + 4] == Face::from_ord(f) by {
                assert(x[9 * f + 4] == st[9 * f + 4]);
                assert(st[9 * f + 4] == ns[9 * f + 4]);
            }
        }
    }
}

/// Stable sort of nodes by ergonomic cost; what holds of every node still
/// holds of every node.
fn sort_nodes(v: Vec<Node>, Ghost(p): Ghost<spec_fn(Node) -> bool>) -> (r: Vec<Node>)
    requires
        forall|k: int| 0 <= k < v@.len() ==> p(#[trigger] v@[k]),
    ensures
        forall|k: int| 0 <= k < r@.len() ==> p(#[trigger] r@[k]),
        r@.len() == v@.len(),
        forall|a: int, b: int| 0 <= a < b < r@.len() ==> r@[a].ergo <= r@[b].ergo,
{
    let mut input = v;
    let mut out: Vec<Node> = Vec::new();
    let ghost n = input@.len();
    while input.len() > 0
        invariant
            forall|k: int| 0 <= k < input@.len() ==> p(#[trigger] input@[k]),
            forall|k: int| 0 <= k < out@.len() ==> p(#[trigger] out@[k]),
            out@.len() + input@.len() == n,
            forall|a: int, b: int| 0 <= a < b < out@.len() ==> out@[a].ergo <= out@[b].ergo,
        decreases input@.len(),
    {
        let ghost old_input = input@;
        let node = input.remove(0);
        assert(p(old_input[0]));
        assert forall|k: int| 0 <= k < input@.len() implies p(#[trigger] input@[k]) by {
            assert(input@[k] == old_input[k + 1]);
        }
        let mut pos = out.len();
        while pos > 0 && out[pos - 1].ergo > node.ergo
            invariant
                0 <= pos <= out@.len(),
                forall|k: int| pos <= k < out@.len() ==> out@[k].ergo > node.ergo,
            decreases pos,
        {
            pos -= 1;
        }
        let ghost old_out = out@;
        out.insert(pos, node);
        proof {
            assert forall|k: int| 0 <= k < out@.len() implies p(#[trigger] out@[k]) by {
                if k < pos {
                    assert(out@[k] == old_out[k]);
                } else if k > pos {
                    assert(out@[k] == old_out[k - 1]);
                }
            }
            assert forall|a: int, b: int| 0 <= a < b < out@.len() implies out@[a].ergo <= out@[b].ergo by {
                if b < pos {
                    assert(out@[a] == old_out[a] && out@[b] == old_out[b]);
                } else if b == pos {
                    assert(out@[a] == old_out[a]);
                } else if a < pos {
                    assert(out@[a] == old_out[a] && out@[b] == old_out[b - 1]);
                    if pos > 0 {
                        assert(old_out[pos - 1].ergo <= node.ergo);
                    }
                } else if a == pos {
                    assert(out@[b] == old_out[b - 1]);
                } else {
                    assert(out@[a] == old_out[a - 1] && out@[b] == old_out[b - 1]);
                }
            }
        }
    }
    out
}

/// A node at search depth `d` (with `d` trained segments).
spec fn node_at(n: Node, trained: Seq<u16>, budget: nat, d: nat) -> bool {
    node_ok(n, trained, budget) && n.trained_used == d
}

/// Memoized tail solves: (state, bound tried, solution found).
spec fn memo_ok(memo: Seq<(FaceletCube, usize, Option<Alg>)>) -> bool {
    forall|j: int|
        0 <= j < memo.len() ==> ((#[trigger] memo[j]).2 matches Some(a) ==> (face_only(a@) && a@.len()
            <= memo[j].1 && memo[j].1 <= 23 && (centers_home(memo[j].0@) ==> is_solved_spec(
            apply_moves(memo[j].0@, a@),
        ))))
}

/// The moves performed for a match (`Recognizer::execution_alg`).
pub open spec fn exec_moves(rec: Recognizer, m: Match) -> Seq<Move> {
    crate::moves::relabel_y_moves(
        crate::cases::pre_auf_moves(m.pre_auf as int % 4) + crate::moves::relabel_y_moves(
            rec.cases()[m.case_idx as int].alg@,
            rec.frame_fixes()[m.case_idx as int] as int % 4,
        ),
        m.y_frame as int % 4,
    )
}

/// A trained case is recognized on `s` itself whose execution, in face
/// moves (at most twice as many), fits the budget.
pub open spec fn direct_short(rec: Recognizer, s: Seq<Face>, trained: Seq<u16>, budget: nat) -> bool {
    exists|k: int|
        0 <= k < trained_matches_spec(rec, s, trained).len() && 2 * exec_moves(
            rec,
            #[trigger] trained_matches_spec(rec, s, trained)[k],
        ).len() + 1 <= budget
}

/// The cube after an optional setup move.
pub open spec fn after_setup(s: Seq<Face>, setup: Option<Move>) -> Seq<Face> {
    match setup {
        Some(mv) => apply_move(s, mv),
        None => s,
    }
}

/// One move for a setup, none without.
pub open spec fn setup_len(setup: Option<Move>) -> int {
    if setup is Some {
        1
    } else {
        0
    }
}

/// The setups the guided search tries: none, or one face move off the U
/// face.
pub open spec fn ok_setup(setup: Option<Move>) -> bool {
    setup matches Some(mv) ==> (mv is Face && !(mv matches Move::Face(Face::U, _)))
}

/// A node made of one trained match `k` on the cube after `setup`: its cube
/// is the orientation-normalized result of the match's execution, and it
/// used at most twice the execution's moves plus the setup.
spec fn chain_child(rec: Recognizer, s: Seq<Face>, tr: Seq<u16>, setup: Option<Move>, c: Node) -> bool {
    let x = after_setup(s, setup);
    exists|k: int|
        0 <= k < trained_matches_spec(rec, x, tr).len() && c.state@ == normalize_spec(
            apply_moves(x, exec_moves(rec, #[trigger] trained_matches_spec(rec, x, tr)[k])),
        ) && c.used_htm <= 2 * exec_moves(rec, trained_matches_spec(rec, x, tr)[k]).len() + setup_len(
            setup,
        )
}

/// A node made of one trained match after one of the search's setups.
spec fn depth0_child(rec: Recognizer, s: Seq<Face>, tr: Seq<u16>, c: Node) -> bool {
    exists|setup: Option<Move>| ok_setup(setup) && #[trigger] chain_child(rec, s, tr, setup, c)
}

/// The chain of setup `setup` and trained match `k` leaves a cube that is
/// not solved and gets no tail: its moves may use up the budget, or the
/// solver finds nothing for it within some bound.
pub open spec fn first_chain_fails(
    table: Option<crate::table_pack::TableView>,
    rec: Recognizer,
    s: Seq<Face>,
    tr: Seq<u16>,
    budget: nat,
    setup: Option<Move>,
    k: int,
) -> bool {
    let x = after_setup(s, setup);
    let ms = trained_matches_spec(rec, x, tr);
    &&& ok_setup(setup)
    &&& 0 <= k < ms.len()
    &&& !is_solved_spec(normalize_spec(apply_moves(x, exec_moves(rec, ms[k]))))
    &&& (2 * exec_moves(rec, ms[k]).len() + setup_len(setup) >= budget || exists|b: u8|
        bounded_outcome(
            table,
            normalize_spec(apply_moves(x, exec_moves(rec, ms[k]))),
            b,
            Err(SolveError::NoSolution),
        ))
}

/// The solver found nothing for a memoized state without a solution.
spec fn memo_none_ok(
    memo: Seq<(FaceletCube, usize, Option<Alg>)>,
    table: Option<crate::table_pack::TableView>,
) -> bool {
    forall|j: int|
        0 <= j < memo.len() ==> ((#[trigger] memo[j]).2 is None ==> exists|b: u8|
            bounded_outcome(table, memo[j].0@, b, Err(SolveError::NoSolution)))
}

/// Lexicographic preference: more trained algorithms, then knowledge shown
/// earlier, then a smoother path.
pub open spec fn better(c: GuidedSolution, b: GuidedSolution) -> bool {
    ||| c.trained_used > b.trained_used
    ||| c.trained_used == b.trained_used && c.first_trained_ergo < b.first_trained_ergo
    ||| c.trained_used == b.trained_used && c.first_trained_ergo == b.first_trained_ergo
        && c.ergo_cost < b.ergo_cost
}

/// `g` is among `cands`, and no candidate there uses more trained
/// algorithms; among those using as many, none spends less ergonomic cost
/// before its first trained segment, and among those, none has a smaller
/// total ergonomic cost.
pub open spec fn best_among(g: GuidedSolution, cands: Seq<GuidedSolution>) -> bool {
    &&& cands.contains(g)
    &&& forall|i: int|
        0 <= i < cands.len() ==> {
            &&& (#[trigger] cands[i]).trained_used <= g.trained_used
            &&& cands[i].trained_used == g.trained_used ==> cands[i].first_trained_ergo
                >= g.first_trained_ergo
            &&& (cands[i].trained_used == g.trained_used && cands[i].first_trained_ergo
                == g.first_trained_ergo) ==> cands[i].ergo_cost >= g.ergo_cost
        }
}

/// Every candidate of `cands` is a guided solution within `budget` that
/// solves `s`.
pub open spec fn all_guided(cands: Seq<GuidedSolution>, trained: Seq<u16>, budget: nat, s: Seq<Face>) -> bool {
    forall|i: int|
        0 <= i < cands.len() ==> guided_ok(#[trigger] cands[i], trained, budget) && guided_solves(
            cands[i],
            s,
        )
}

/// Index of the preferred guided solution among `cands` by `better`: no
/// candidate is better than it, and it is better than every candidate
/// before it (the first of the equally preferred ones). `None` exactly when
/// there is no candidate.
pub fn preferred(cands: &Vec<GuidedSolution>) -> (r: Option<usize>)
    ensures
        r is None <==> cands@.len() == 0,
        r matches Some(i) ==> i < cands@.len() && best_among(cands@[i as int], cands@),
        r matches Some(i) ==> forall|j: int| 0 <= j < i ==> better(cands@[i as int], #[trigger] cands@[j]),
{
    if cands.len() == 0 {
        return None;
    }
    let mut bi: usize = 0;
    let mut k: usize = 1;
    while k < cands.len()
        invariant
            1 <= k <= cands@.len(),
            bi < k,
            forall|j: int| 0 <= j < k ==> !better(#[trigger] cands@[j], cands@[bi as int]),
            forall|j: int| 0 <= j < bi ==> better(cands@[bi as int], #[trigger] cands@[j]),
        decreases cands@.len() - k,
    {
        let c = &cands[k];
        let b = &cands[bi];
        let replace = c.trained_used > b.trained_used || (c.trained_used == b.trained_used && (
        c.first_trained_ergo < b.first_trained_ergo || (c.first_trained_ergo == b.first_trained_ergo
            && c.ergo_cost < b.ergo_cost)));
        if replace {
            assert(better(cands@[k as int], cands@[bi as int]));
            assert forall|j: int| 0 <= j < k implies better(cands@[k as int], #[trigger] cands@[j]) by {
                assert(!better(cands@[j], cands@[bi as int]));
            }
            bi = k;
        }
        k += 1;
    }
    assert(cands@[bi as int] == cands@[bi as int]);
    Some(bi)
}

proof fn lemma_kewb_face_only(ms: Seq<Seq<char>>)
    ensures
        face_only(ms.map_values(|t: Seq<char>| crate::solve::kewb_move_spec(t))),
{
}

/// The tail after a node: empty when solved, else a memoized or fresh
/// bounded solver run (`None` when nothing fits).
fn tail_for(
    table: Option<&SolverTable>,
    state: &FaceletCube,
    remaining: usize,
    memo: &mut Vec<(FaceletCube, usize, Option<Alg>)>,
) -> (r: Result<Option<Alg>, SolveError>)
    requires
        memo_ok(old(memo)@),
        memo_none_ok(old(memo)@, table_contents(table)),
    ensures
        memo_ok(final(memo)@),
        memo_none_ok(final(memo)@, table_contents(table)),
        r matches Ok(None) ==> !is_solved_spec(state@) && (remaining == 0 || exists|b: u8|
            bounded_outcome(table_contents(table), state@, b, Err(SolveError::NoSolution))),
        r matches Ok(Some(a)) ==> face_only(a@) && a@.len() <= remaining,
        r matches Ok(Some(a)) ==> (centers_home(state@) ==> is_solved_spec(apply_moves(state@, a@))),
        r matches Err(e) ==> (e is TableNotLoaded && table is None) || e is Invalid,
        r matches Err(e) ==> (e is Invalid ==> !crate::solve::kewb_accepts(
            crate::facelet::facelet_string(normalize_spec(state@)),
        )),
{
    if state.is_solved() {
        let none = Alg::new(Vec::new());
        assert(apply_moves(state@, none@) == state@);
        return Ok(Some(none));
    }
    if remaining == 0 {
        return Ok(None);
    }
    let bound = if remaining < 23 {
        remaining
    } else {
        23
    };
    let mut j: usize = 0;
    while j < memo.len()
        invariant
            0 <= j <= memo@.len(),
        ensures
            0 <= j <= memo@.len(),
            j < memo@.len() ==> memo@[j as int].0@ == state@,
        decreases memo@.len() - j,
    {
        if memo[j].0 == *state {
            break;
        }
        j += 1;
    }
    if j < memo.len() {
        match &memo[j].2 {
            Some(a) => {
                if a.0.len() <= remaining {
                    assert(memo_ok(memo@));
                    assert(face_only(a@));
                    return Ok(Some(copy_alg(a)));
                }
            },
            None => {
                if bound <= memo[j].1 {
                    assert(memo@[j as int].2 is None);
                    return Ok(None);
                }
            },
        }
    }
    let solved = match solve_bounded(table, state, bound as u8) {
        Ok(a) => {
            proof {
                if centers_home(state@) {
                    assert(normalize_spec(state@) == state@);
                }
                let f = crate::facelet::facelet_string(crate::facelet::normalize_spec(state@));
                let ms = crate::solve::kewb_solution(table_contents(table)->0, f, bound as u8)->0;
                lemma_kewb_face_only(ms);
            }
            Some(a)
        },
        Err(SolveError::NoSolution) => None,
        Err(e) => {
            return Err(e);
        },
    };
    let ghost old_len = memo@.len();
    let ghost pre = memo@;
    assert(pre == old(memo)@);
    let stored = match &solved {
        Some(a) => Some(copy_alg(a)),
        None => None,
    };
    if j < memo.len() {
        memo.set(j, (*state, bound, stored));
    } else {
        memo.push((*state, bound, stored));
    }
    proof {
        assert forall|i: int| 0 <= i < memo@.len() implies ((#[trigger] memo@[i]).2 is None ==> exists|b: u8|
            bounded_outcome(table_contents(table), memo@[i].0@, b, Err(SolveError::NoSolution))) by {
            if i == j {
                if memo@[i].2 is None {
                    assert(solved is None);
                    assert(memo@[i].0@ == state@);
                    assert(bounded_outcome(table_contents(table), state@, bound as u8, Err(SolveError::NoSolution)));
                }
            } else {
                assert(i < old_len);
                assert(memo@[i] == pre[i]);
                assert(pre[i] == old(memo)@[i]);
            }
        }
        assert forall|i: int| 0 <= i < memo@.len() implies ((#[trigger] memo@[i]).2 matches Some(a)
            ==> (face_only(a@) && a@.len() <= memo@[i].1 && memo@[i].1 <= 23 && (centers_home(
            memo@[i].0@) ==> is_solved_spec(apply_moves(memo@[i].0@, a@))))) by {
            if i != j {
            }
        }
    }
    Ok(solved)
}

/// Chains of up to three trained algorithms (each directly or after one
/// setup move), scored by ergonomic cost, finished by the solver: the best
/// chain by `better`. On a cube with its centers home where a trained case
/// is recognized directly within the budget, no chain is returned only
/// when one of the first chains the search evaluates (one trained case,
/// directly or after a setup move) leaves an unsolved cube whose tail does
/// not fit or that the solver finds nothing for.
#[verifier::rlimit(60)]
fn guided_solution(
    table: Option<&SolverTable>,
    s: &FaceletCube,
    base: &Alg,
    trained: &[u16],
    rec: &Recognizer,
) -> (r: Result<Option<GuidedSolution>, SolveError>)
    requires
        rec.wf(),
        base@.len() <= 100,
    ensures
        trained@.len() == 0 ==> r matches Ok(None),
        r matches Ok(Some(g)) ==> guided_ok(g, trained@, guided_budget(base@)),
        r matches Ok(Some(g)) ==> guided_solves(g, s@),
        r matches Ok(Some(g)) ==> exists|cands: Seq<GuidedSolution>|
            #[trigger] best_among(g, cands) && all_guided(cands, trained@, guided_budget(base@), s@),
        r matches Err(e) ==> (e is TableNotLoaded && table is None) || (e is Invalid && (centers_home(s@)
            ==> reaches_refused(s@))),
        r matches Ok(None) ==> {
            ||| trained@.len() == 0
            ||| !centers_home(s@)
            ||| !direct_short(*rec, s@, trained@, guided_budget(base@))
            ||| exists|setup: Option<Move>, k: int|
                #[trigger] first_chain_fails(table_contents(table), *rec, s@, trained@, guided_budget(base@), setup, k)
        },
{
    if trained.len() == 0 {
        return Ok(None);
    }
    let htm = base.len_htm();
    proof {
        crate::moves::lemma_htm_len_bound(base@);
    }
    let budget: usize = if htm + 6 >= 24 {
        htm + 6
    } else {
        24
    };
    let ghost tr = trained@;
    let ghost bud = budget as nat;
    let mut memo: Vec<(FaceletCube, usize, Option<Alg>)> = Vec::new();
    let mut frontier: Vec<Node> = Vec::new();
    frontier.push(
        Node {
            origin: Ghost(s@),
            state: *s,
            segments: Vec::new(),
            used_htm: 0,
            ergo: 0,
            first_trained_ergo: None,
            trained_used: 0,
        },
    );
    let mut found: Vec<GuidedSolution> = Vec::new();
    let mut depth: usize = 0;
    while depth < 3
        invariant
            0 <= depth <= 3,
            rec.wf(),
            budget <= 206,
            bud == budget as nat,
            tr == trained@,
            bud == guided_budget(base@),
            forall|k: int| 0 <= k < frontier@.len() ==> node_at(#[trigger] frontier@[k], tr, bud, depth as nat),
            forall|k: int| 0 <= k < frontier@.len() ==> (#[trigger] frontier@[k]).origin@ == s@,
            memo_ok(memo@),
            memo_none_ok(memo@, table_contents(table)),
            all_guided(found@, tr, bud, s@),
            trained@.len() > 0,
            depth == 0 ==> (frontier@.len() == 1 && frontier@[0].state@ == s@ && frontier@[0].used_htm
                == 0),
            (depth > 0 && found@.len() == 0 && centers_home(s@)) ==> exists|setup: Option<Move>, k: int|
                #[trigger] first_chain_fails(table_contents(table), *rec, s@, tr, bud, setup, k),
        ensures
            found@.len() == 0 ==> {
                ||| !centers_home(s@)
                ||| !direct_short(*rec, s@, tr, bud)
                ||| exists|setup: Option<Move>, k: int| #[trigger] first_chain_fails(table_contents(table), *rec, s@, tr, bud, setup, k)
            },
            all_guided(found@, tr, bud, s@),
        decreases 3 - depth,
    {
        let mut next: Vec<Node> = Vec::new();
        let mut f: usize = 0;
        while f < frontier.len()
            invariant
                0 <= f <= frontier@.len(),
                depth < 3,
                rec.wf(),
                budget <= 206,
                bud == budget as nat,
                tr == trained@,
                forall|k: int| 0 <= k < frontier@.len() ==> node_at(#[trigger] frontier@[k], tr, bud, depth as nat),
                forall|k: int| 0 <= k < next@.len() ==> node_at(#[trigger] next@[k], tr, bud, (depth + 1) as nat),
                forall|k: int| 0 <= k < frontier@.len() ==> (#[trigger] frontier@[k]).origin@ == s@,
                forall|k: int| 0 <= k < next@.len() ==> (#[trigger] next@[k]).origin@ == s@,
                depth == 0 ==> (frontier@.len() == 1 && frontier@[0].state@ == s@ && frontier@[0].used_htm
                    == 0),
                (depth == 0 && f > 0 && direct_short(*rec, s@, tr, bud)) ==> next@.len() > 0,
                (depth == 0 && centers_home(s@)) ==> forall|k: int|
                    0 <= k < next@.len() ==> depth0_child(*rec, s@, tr, #[trigger] next@[k]),
            decreases frontier@.len() - f,
        {
            let node = &frontier[f];
            assert(node_at(*node, tr, bud, depth as nat));
            let prev_last = match node.segments.last() {
                Some(seg) => {
                    let a = seg.alg();
                    if a.0.len() > 0 {
                        Some(a.0[a.0.len() - 1])
                    } else {
                        None
                    }
                },
                None => None,
            };
            let mut children: Vec<Node> = Vec::new();
            consider(node, prev_last, None, &node.state, trained, rec, budget, &mut children);
            let ghost c0 = children@.len();
            assert((depth == 0 && f == 0 && direct_short(*rec, s@, tr, bud)) ==> c0 > 0);
            proof {
                if depth == 0 && centers_home(s@) {
                    assert forall|k: int| 0 <= k < children@.len() implies depth0_child(
                        *rec,
                        s@,
                        tr,
                        #[trigger] children@[k],
                    ) by {
                        assert(chain_child(*rec, node.state@, trained@, None, children@[k]));
                        assert(ok_setup(None::<Move>));
                    }
                }
            }
            let mut mv_idx: usize = 0;
            while mv_idx < 18
                invariant
                    children@.len() >= c0,
                    depth == 0 ==> (node.state@ == s@ && node.used_htm == 0),
                    (depth == 0 && centers_home(s@)) ==> forall|k: int|
                        0 <= k < children@.len() ==> depth0_child(*rec, s@, tr, #[trigger] children@[k]),
                    0 <= mv_idx <= 18,
                    rec.wf(),
                    budget <= 206,
                    node_at(*node, tr, bud, depth as nat),
                    depth < 3,
                    tr == trained@,
                    bud == budget as nat,
                    all_nodes_ok(children@, tr, bud),
                    forall|k: int| 0 <= k < children@.len() ==> (#[trigger] children@[k]).trained_used == depth + 1,
                    forall|k: int| 0 <= k < children@.len() ==> (#[trigger] children@[k]).origin@ == node.origin@,
                decreases 18 - mv_idx,
            {
                let mv = Move::from_index(mv_idx);
                mv_idx += 1;
                if let Move::Face(Face::U, _) = mv {
                    continue;
                }
                let st = node.state.applied(mv);
                let ghost pre_children = children@;
                consider(node, prev_last, Some(mv), &st, trained, rec, budget, &mut children);
                proof {
                    if depth == 0 && centers_home(s@) {
                        assert(ok_setup(Some(mv)));
                        assert forall|k: int| 0 <= k < children@.len() implies depth0_child(
                            *rec,
                            s@,
                            tr,
                            #[trigger] children@[k],
                        ) by {
                            if k < pre_children.len() {
                                assert(children@[k] == pre_children[k]);
                            } else {
                                assert(chain_child(*rec, node.state@, trained@, Some(mv), children@[k]));
                            }
                        }
                    }
                }
            }
            let ghost so = s@;
            let ghost rr = *rec;
            let ghost d0 = depth == 0 && centers_home(s@);
            assert(node.origin@ == so);
            let mut children = sort_nodes(
                children,
                Ghost(|n: Node| node_at(n, tr, bud, (depth + 1) as nat) && n.origin@ == so && (d0 ==> depth0_child(rr, so, tr, n))),
            );
            let ghost cl0 = children@.len();
            children.truncate(6);
            assert(cl0 > 0 ==> children@.len() > 0);
            let ghost n0 = next@.len();
            let ghost ch0 = children@.len();
            let mut c: usize = 0;
            while c < children.len()
                invariant
                    next@.len() + children@.len() == n0 + ch0,
                    rr == *rec,
                    so == s@,
                    d0 == (depth == 0 && centers_home(s@)),
                    0 <= c <= children@.len(),
                    forall|k: int| 0 <= k < children@.len() ==> node_at(#[trigger] children@[k], tr, bud, (depth + 1) as nat) && children@[k].origin@ == s@ && (d0 ==> depth0_child(rr, so, tr, children@[k])),
                    forall|k: int| 0 <= k < next@.len() ==> node_at(#[trigger] next@[k], tr, bud, (depth + 1) as nat) && next@[k].origin@ == s@ && (d0 ==> depth0_child(rr, so, tr, next@[k])),
                decreases children@.len() - c,
            {
                let ghost before = next@;
                let ghost old_children = children@;
                let child = children.remove(0);
                assert(node_at(child, tr, bud, (depth + 1) as nat));
                next.push(child);
                proof {
                    assert forall|k: int| 0 <= k < next@.len() implies node_at(#[trigger] next@[k], tr, bud, (depth + 1) as nat) && next@[k].origin@ == s@ && (d0 ==> depth0_child(rr, so, tr, next@[k])) by {
                        if k < before.len() {
                            assert(next@[k] == before[k]);
                        } else {
                            assert(next@[k] == old_children[0]);
                        }
                    }
                    assert forall|k: int| 0 <= k < children@.len() implies node_at(#[trigger] children@[k], tr, bud, (depth + 1) as nat) && children@[k].origin@ == s@ && (d0 ==> depth0_child(rr, so, tr, children@[k])) by {
                        assert(children@[k] == old_children[k + 1]);
                    }
                }
            }
            f += 1;
        }
        if next.len() == 0 {
            break;
        }
        let ghost so = s@;
        let ghost rr = *rec;
        let ghost d0 = depth == 0 && centers_home(s@);
        let mut next = sort_nodes(
            next,
            Ghost(|n: Node| node_at(n, tr, bud, (depth + 1) as nat) && n.origin@ == so && (d0 ==> depth0_child(rr, so, tr, n))),
        );
        next.truncate(12);
        let mut k: usize = 0;
        while k < next.len()
            invariant
                0 <= k <= next@.len(),
                budget <= 206,
                bud == budget as nat,
                tr == trained@,
                forall|i: int| 0 <= i < next@.len() ==> node_at(#[trigger] next@[i], tr, bud, (depth + 1) as nat) && next@[i].origin@ == s@,
                memo_ok(memo@),
                memo_none_ok(memo@, table_contents(table)),
                all_guided(found@, tr, bud, s@),
                trained@.len() > 0,
                ((depth > 0 || k > 0) && found@.len() == 0 && centers_home(s@)) ==> exists|setup: Option<Move>, j: int|
                    #[trigger] first_chain_fails(table_contents(table), *rec, s@, tr, bud, setup, j),
                (depth == 0 && centers_home(s@)) ==> forall|i: int|
                    0 <= i < next@.len() ==> depth0_child(*rec, s@, tr, #[trigger] next@[i]),
            decreases next@.len() - k,
        {
            let node = &next[k];
            k += 1;
            assert(node_at(*node, tr, bud, (depth + 1) as nat));
            let remaining = budget - node.used_htm;
            let tail = match tail_for(table, &node.state, remaining, &mut memo) {
                Ok(Some(t)) => t,
                Ok(None) => {
                    proof {
                        if depth == 0 && centers_home(s@) {
                            assert(depth0_child(*rec, s@, tr, *node));
                            let setup = choose|setup: Option<Move>| ok_setup(setup) && #[trigger] chain_child(*rec, s@, tr, setup, *node);
                            let x = after_setup(s@, setup);
                            let j = choose|j: int|
                                0 <= j < trained_matches_spec(*rec, x, tr).len() && node.state@ == normalize_spec(
                                    apply_moves(x, exec_moves(*rec, #[trigger] trained_matches_spec(*rec, x, tr)[j])),
                                ) && node.used_htm <= 2 * exec_moves(*rec, trained_matches_spec(*rec, x, tr)[j]).len()
                                    + setup_len(setup);
                            assert(first_chain_fails(table_contents(table), *rec, s@, tr, bud, setup, j));
                        }
                    }
                    continue;
                },
                Err(e) => {
                    proof {
                        if centers_home(s@) && e is Invalid {
                            let ms = seg_moves(node.segments@);
                            lemma_seg_moves_face_only(node.segments@, tr);
                            assert(node.state@ == apply_moves(s@, ms));
                        }
                    }
                    return Err(e);
                },
            };
            proof {
                lemma_face_only_htm(tail@);
            }
            let total = node.used_htm + tail.len_htm();
            let prev_last = match node.segments.last() {
                Some(seg) => {
                    let a = seg.alg();
                    if a.0.len() > 0 {
                        Some(a.0[a.0.len() - 1])
                    } else {
                        None
                    }
                },
                None => None,
            };
            let first_tail = if tail.0.len() > 0 {
                Some(tail.0[0])
            } else {
                None
            };
            let tail_seam = junction_cost(prev_last, first_tail);
            let fill = filler_ergo(&tail);
            proof {
                lemma_ergo_bound(tail@);
            }
            let mut ergo_cost = node.ergo as i64 + fill as i64 + tail_seam;
            if ergo_cost < 0 {
                ergo_cost = 0;
            }
            let mut segments = copy_segments(&node.segments);
            proof {
                lemma_same_segments(segments@, node.segments@);
            }
            let ghost before = segments@;
            let tail_len = tail.0.len();
            if tail_len > 0 {
                segments.push(Segment::Raw(tail));
            }
            proof {
                if tail_len > 0 {
                    assert(segments@.drop_last() == before);
                }
                assert forall|i: int| 0 <= i < segments@.len() implies face_only(
                    seg_alg(#[trigger] segments@[i]),
                ) && (seg_case(segments@[i]) matches Some(c) ==> tr.contains(c)) by {
                    if i < before.len() {
                        assert(segments@[i] == before[i]);
                        assert(seg_alg(before[i]) == seg_alg(node.segments@[i]));
                        assert(seg_case(before[i]) == seg_case(node.segments@[i]));
                    }
                }
            }
            let candidate = GuidedSolution {
                total_htm: total,
                trained_used: node.trained_used,
                ergo_cost: ergo_cost as u32,
                first_trained_ergo: match node.first_trained_ergo {
                    Some(v) => v,
                    None => node.ergo,
                },
                segments,
            };
            assert(guided_ok(candidate, tr, bud));
            proof {
                if centers_home(s@) {
                    let o = s@;
                    assert(node.origin@ == o);
                    let nm = seg_moves(node.segments@);
                    assert(seg_moves(before) == nm);
                    if tail_len > 0 {
                        assert(candidate.segments@.drop_last() == before);
                        assert(seg_moves(candidate.segments@) == nm + tail@);
                        crate::facelet::lemma_apply_moves_append(o, nm, tail@);
                    } else {
                        assert(tail@ =~= Seq::<Move>::empty());
                        assert(apply_moves(node.state@, tail@) == node.state@);
                    }
                }
            }
            let ghost old_found = found@;
            found.push(candidate);
            proof {
                assert forall|i: int| 0 <= i < found@.len() implies guided_ok(#[trigger] found@[i], tr, bud)
                    && guided_solves(found@[i], s@) by {
                    if i < old_found.len() {
                        assert(found@[i] == old_found[i]);
                    }
                }
            }
        }
        frontier = next;
        depth += 1;
    }
    match preferred(&found) {
        None => Ok(None),
        Some(i) => {
            let ghost all = found@;
            let g = found.remove(i);
            assert(all[i as int] == g);
            assert(guided_ok(all[i as int], tr, bud) && guided_solves(all[i as int], s@));
            assert(best_among(g, all) && all_guided(all, trained@, guided_budget(base@), s@));
            let res: Result<Option<GuidedSolution>, SolveError> = Ok(Some(g));
            assert(res->Ok_0 == Some(g));
            assert(res->Ok_0->Some_0 == g);
            assert(best_among(res->Ok_0->Some_0, all));
            assert(res matches Ok(Some(gg)) ==> exists|cands: Seq<GuidedSolution>|
                #[trigger] best_among(gg, cands) && all_guided(cands, trained@, guided_budget(base@), s@));
            res
        },
    }
}

/// Solve, then flag trained cases along the solution and look for a
/// guided solution that weaves trained algorithms in.
pub fn solve_with_hints(
    table: Option<&SolverTable>,
    s: &FaceletCube,
    trained: &[u16],
    rec: &Recognizer,
) -> (r: Result<SolveOutput, SolveError>)
    requires
        rec.wf(),
    ensures
        match r {
            Ok(out) => {
                &&& solve_outcome(table_contents(table), s@, Ok(out.base))
                &&& out.inline_hints@ == inline_hints_spec(
                    *rec,
                    s@,
                    out.base@,
                    trained@,
                    (out.base@.len() + 1) as nat,
                )
                &&& out.guided matches Some(g) ==> guided_ok(g, trained@, guided_budget(out.base@))
                &&& out.guided matches Some(g) ==> guided_solves(g, s@)
                &&& out.guided matches Some(g) ==> exists|cands: Seq<GuidedSolution>|
                    #[trigger] best_among(g, cands) && all_guided(cands, trained@, guided_budget(out.base@), s@)
                &&& trained@.len() == 0 ==> out.guided is None
                &&& out.guided is None ==> {
                    ||| trained@.len() == 0
                    ||| !centers_home(s@)
                    ||| !direct_short(*rec, s@, trained@, guided_budget(out.base@))
                    ||| exists|setup: Option<Move>, k: int|
                        #[trigger] first_chain_fails(
                            table_contents(table),
                            *rec,
                            s@,
                            trained@,
                            guided_budget(out.base@),
                            setup,
                            k,
                        )
                }
            },
            Err(e) => solve_outcome(table_contents(table), s@, Err(e)) || (e is Invalid && (centers_home(s@)
                ==> reaches_refused(s@))),
        },
{
    let base = match solve(table, s) {
        Ok(b) => b,
        Err(e) => {
            return Err(e);
        },
    };
    let inline_hints = collect_inline_hints(s, &base, trained, rec);
    let guided = match guided_solution(table, s, &base, trained, rec) {
        Ok(g) => g,
        Err(e) => {
            return Err(e);
        },
    };
    Ok(SolveOutput { base, inline_hints, guided })
}

} // verus!
