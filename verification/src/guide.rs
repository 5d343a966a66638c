//! The step-by-step solve guide: a solution flattened into moves, each
//! with the trained algorithm it belongs to (its name, shown as a chip)
//! and, in practice-stop mode, the segment that gates stepping until the
//! user asks to see it.

use vstd::prelude::*;
use crate::cases::{CaseDef, Recognizer};
use crate::facelet::FaceletCube;
use crate::hints::{seg_alg, seg_case, GuidedSolution, Segment, SolveOutput};
use crate::moves::{Alg, Move};
use crate::my_way::{MySeg, MyWayPlan};
use std::collections::HashSet;

verus! {

broadcast use vstd::std_specs::hash::group_hash_axioms;

/// One part of a solution: its moves, the trained case it executes (if
/// any) and how many leading moves are alignment, never gated.
pub type Part = (Seq<Move>, Option<u16>, nat);

/// Number of parts that execute a trained case.
pub open spec fn named_count(parts: Seq<Part>) -> nat
    decreases parts.len(),
{
    if parts.len() == 0 {
        0
    } else {
        named_count(parts.drop_last()) + if parts.last().1 is Some {
            1nat
        } else {
            0nat
        }
    }
}

/// All moves, part after part.
pub open spec fn track_moves(parts: Seq<Part>) -> Seq<Move>
    decreases parts.len(),
{
    if parts.len() == 0 {
        seq![]
    } else {
        track_moves(parts.drop_last()) + parts.last().0
    }
}

/// Per move: the name of the trained case its part executes.
pub open spec fn track_labels(parts: Seq<Part>, cases: Seq<CaseDef>) -> Seq<Option<Seq<char>>>
    decreases parts.len(),
{
    if parts.len() == 0 {
        seq![]
    } else {
        let p = parts.last();
        track_labels(parts.drop_last(), cases) + Seq::new(
            p.0.len(),
            |i: int|
                match p.1 {
                    Some(c) => Some(cases[c as int].name@),
                    None => None,
                },
        )
    }
}

/// Per move: the index among the trained parts of the part it belongs to,
/// except for the part's leading alignment moves.
pub open spec fn track_gates(parts: Seq<Part>) -> Seq<Option<u16>>
    decreases parts.len(),
{
    if parts.len() == 0 {
        seq![]
    } else {
        let p = parts.last();
        let k = named_count(parts.drop_last());
        track_gates(parts.drop_last()) + Seq::new(
            p.0.len(),
            |i: int|
                if p.1 is Some && i >= p.2 {
                    Some(k as u16)
                } else {
                    None
                },
        )
    }
}

/// The parts of a guided solution (no alignment prefix).
pub open spec fn guided_parts(segs: Seq<Segment>) -> Seq<Part> {
    segs.map_values(|s: Segment| (seg_alg(s), seg_case(s), 0nat))
}

/// The parts of a macro plan.
pub open spec fn plan_parts(segs: Seq<MySeg>) -> Seq<Part> {
    segs.map_values(|s: MySeg| (s.alg@, s.case_idx, s.auf_len as nat))
}

/// A label as a value.
pub open spec fn label_view(o: Option<String>) -> Option<Seq<char>> {
    match o {
        Some(s) => Some(s@),
        None => None,
    }
}

/// Every trained part names a case of the recognizer.
pub open spec fn parts_known(parts: Seq<Part>, cases: Seq<CaseDef>) -> bool {
    forall|j: int| 0 <= j < parts.len() ==> ((#[trigger] parts[j]).1 matches Some(c) ==> c < cases.len())
}

/// The segment that blocks stepping at `cursor`.
pub open spec fn gate_spec(practice: bool, cursor: int, seg_id: Seq<Option<u16>>, revealed: Set<u16>) -> Option<
    u16,
> {
    if practice && 0 <= cursor < seg_id.len() {
        match seg_id[cursor] {
            Some(k) => if revealed.contains(k) {
                None
            } else {
                Some(k)
            },
            None => None,
        }
    } else {
        None
    }
}

/// The guide through a solution.
pub struct GuideState {
    pub solution: Alg,
    /// Per move: the trained algorithm's name while inside a trained
    /// segment.
    pub labels: Vec<Option<String>>,
    /// Moves of `solution` already applied.
    pub cursor: usize,
    pub playing: bool,
    /// The state the guide started from.
    pub origin: FaceletCube,
    /// Per move: the trained segment the move belongs to (its own
    /// algorithm moves only), counted among the trained segments.
    pub seg_id: Vec<Option<u16>>,
    /// Practice-stop mode, captured when the guide was built.
    pub practice: bool,
    /// Gated segments whose moves the user asked to see.
    pub revealed: HashSet<u16>,
    /// Predicted total time for a macro plan, ms.
    pub est_ms: Option<u32>,
}

impl GuideState {
    /// A guide that is a flattening of `parts` with nothing applied yet.
    pub open spec fn tracks(&self, parts: Seq<Part>, cases: Seq<CaseDef>) -> bool {
        &&& self.solution@ == track_moves(parts)
        &&& self.labels@.map_values(|o: Option<String>| label_view(o)) == track_labels(parts, cases)
        &&& self.seg_id@ == track_gates(parts)
        &&& self.cursor == 0
        &&& !self.playing
        &&& self.revealed@ == Set::<u16>::empty()
    }

    /// A plain solution: no labels, nothing gated.
    pub fn plain(solution: Alg, origin: FaceletCube) -> (g: GuideState)
        ensures
            g.solution == solution,
            g.origin == origin,
            g.labels@.len() == solution@.len(),
            forall|i: int| 0 <= i < g.labels@.len() ==> g.labels@[i] is None,
            g.seg_id@ == Seq::new(solution@.len(), |i: int| None::<u16>),
            g.cursor == 0,
            !g.playing,
            !g.practice,
            g.revealed@ == Set::<u16>::empty(),
            g.est_ms is None,
    {
        let len = solution.len();
        let mut labels: Vec<Option<String>> = Vec::new();
        let mut seg_id: Vec<Option<u16>> = Vec::new();
        let mut i: usize = 0;
        while i < len
            invariant
                0 <= i <= len,
                labels@.len() == i,
                seg_id@.len() == i,
                forall|j: int| 0 <= j < i ==> labels@[j] is None,
                forall|j: int| 0 <= j < i ==> seg_id@[j] is None,
            decreases len - i,
        {
            labels.push(None);
            seg_id.push(None);
            i += 1;
        }
        assert(seg_id@ =~= Seq::new(solution@.len(), |i: int| None::<u16>));
        GuideState {
            solution,
            labels,
            cursor: 0,
            playing: false,
            origin,
            seg_id,
            practice: false,
            revealed: HashSet::new(),
            est_ms: None,
        }
    }

    /// From the hint engine's output: the guided solution (trained
    /// algorithms woven in) when there is one, else the plain solution.
    pub fn from_output(out: SolveOutput, rec: &Recognizer, origin: FaceletCube, practice: bool) -> (g:
        GuideState)
        requires
            out.guided matches Some(gs) ==> parts_known(guided_parts(gs.segments@), rec.cases())
                && named_count(guided_parts(gs.segments@)) <= u16::MAX,
        ensures
            g.origin == origin,
            g.est_ms is None,
            match out.guided {
                None => {
                    &&& g.solution == out.base
                    &&& !g.practice
                    &&& g.labels@.len() == out.base@.len()
                    &&& forall|i: int| 0 <= i < g.labels@.len() ==> g.labels@[i] is None
                    &&& g.seg_id@ == Seq::new(out.base@.len(), |i: int| None::<u16>)
                    &&& g.cursor == 0
                    &&& !g.playing
                    &&& g.revealed@ == Set::<u16>::empty()
                },
                Some(gs) => g.tracks(guided_parts(gs.segments@), rec.cases()) && g.practice
                    == practice,
            },
    {
        match out.guided {
            None => GuideState::plain(out.base, origin),
            Some(guided) => {
                let ghost parts = guided_parts(guided.segments@);
                let mut t = Track::new(Ghost(rec.cases()));
                let mut j: usize = 0;
                assert(parts.take(0) =~= Seq::<Part>::empty());
                while j < guided.segments.len()
                    invariant
                        parts == guided_parts(guided.segments@),
                        parts_known(parts, rec.cases()),
                        named_count(parts) <= u16::MAX,
                        0 <= j <= parts.len(),
                        t.holds(parts.take(j as int), rec.cases()),
                    decreases parts.len() - j,
                {
                    let seg = &guided.segments[j];
                    let (alg, case) = match seg {
                        Segment::Raw(a) => (a, None),
                        Segment::Trained { case_idx, execution } => (execution, Some(*case_idx)),
                    };
                    proof {
                        assert(parts[j as int] == (alg@, case, 0nat));
                        lemma_named_count_prefix(parts, j as int);
                    }
                    t.push_part(alg, case, 0, rec, Ghost(parts.take(j as int)));
                    proof {
                        assert(parts.take(j + 1) =~= parts.take(j as int).push(parts[j as int]));
                    }
                    j += 1;
                }
                assert(parts.take(parts.len() as int) =~= parts);
                t.into_guide(origin, practice, None)
            },
        }
    }

    /// From a guided solution computed by the caller.
    pub fn from_guided(guided: GuidedSolution, rec: &Recognizer, origin: FaceletCube, practice: bool) -> (g:
        GuideState)
        requires
            parts_known(guided_parts(guided.segments@), rec.cases()),
            named_count(guided_parts(guided.segments@)) <= u16::MAX,
        ensures
            g.origin == origin,
            g.tracks(guided_parts(guided.segments@), rec.cases()),
            g.practice == practice,
            g.est_ms is None,
    {
        let ghost segs = guided.segments@;
        GuideState::from_output(
            SolveOutput { base: Alg::new(Vec::new()), inline_hints: Vec::new(), guided: Some(guided) },
            rec,
            origin,
            practice,
        )
    }

    /// From a macro plan: every named segment carries its algorithm's name
    /// and gates (after its alignment moves) like a trained segment.
    pub fn from_my_way(plan: MyWayPlan, rec: &Recognizer, origin: FaceletCube, practice: bool) -> (g:
        GuideState)
        requires
            parts_known(plan_parts(plan.segments@), rec.cases()),
            named_count(plan_parts(plan.segments@)) <= u16::MAX,
        ensures
            g.origin == origin,
            g.tracks(plan_parts(plan.segments@), rec.cases()),
            g.practice == practice,
            g.est_ms == Some(plan.total_ms),
    {
        let ghost parts = plan_parts(plan.segments@);
        let mut t = Track::new(Ghost(rec.cases()));
        let mut j: usize = 0;
        assert(parts.take(0) =~= Seq::<Part>::empty());
        while j < plan.segments.len()
            invariant
                parts == plan_parts(plan.segments@),
                parts_known(parts, rec.cases()),
                named_count(parts) <= u16::MAX,
                0 <= j <= parts.len(),
                t.holds(parts.take(j as int), rec.cases()),
            decreases parts.len() - j,
        {
            let seg = &plan.segments[j];
            proof {
                assert(parts[j as int] == (seg.alg@, seg.case_idx, seg.auf_len as nat));
                lemma_named_count_prefix(parts, j as int);
            }
            t.push_part(&seg.alg, seg.case_idx, seg.auf_len as usize, rec, Ghost(parts.take(j as int)));
            proof {
                assert(parts.take(j + 1) =~= parts.take(j as int).push(parts[j as int]));
            }
            j += 1;
        }
        assert(parts.take(parts.len() as int) =~= parts);
        t.into_guide(origin, practice, Some(plan.total_ms))
    }

    /// The trained segment that blocks stepping at the cursor: only in
    /// practice-stop mode, and only until the user revealed it.
    pub fn gate(&self) -> (r: Option<u16>)
        ensures
            r == gate_spec(self.practice, self.cursor as int, self.seg_id@, self.revealed@),
    {
        if !self.practice {
            return None;
        }
        if self.cursor >= self.seg_id.len() {
            return None;
        }
        match self.seg_id[self.cursor] {
            Some(k) => {
                if self.revealed.contains(&k) {
                    None
                } else {
                    Some(k)
                }
            },
            None => None,
        }
    }

    /// One past the last move of segment `k`, scanning from the cursor.
    pub fn seg_end(&self, k: u16) -> (r: usize)
        ensures
            self.cursor <= r,
            r <= self.seg_id@.len() || r == self.cursor,
            forall|i: int| self.cursor <= i < r ==> self.seg_id@[i] == Some(k),
            r < self.seg_id@.len() ==> self.seg_id@[r as int] != Some(k),
    {
        let mut i = self.cursor;
        while i < self.seg_id.len() && self.seg_id[i] == Some(k)
            invariant
                self.cursor <= i,
                i <= self.seg_id@.len() || i == self.cursor,
                forall|j: int| self.cursor <= j < i ==> self.seg_id@[j] == Some(k),
            decreases self.seg_id@.len() - i,
        {
            i += 1;
        }
        i
    }
}

/// What the user does on the guide screen.
#[derive(Clone, Copy, Debug, PartialEq, Eq)]
pub enum GuideEvent {
    /// The big "next" button (or the checkmark once done).
    Next,
    /// "I did it" on a gated segment: the physical cube is already there.
    DidIt,
    /// "Show me" on a gated segment.
    ShowMe,
}

/// What the screen does after an event.
#[derive(Clone, Debug)]
pub enum GuideAction {
    Nothing,
    /// Animate this move.
    Animate(Move),
    /// Apply these moves at once (a segment the user did by heart).
    Apply(Alg),
    /// Leave the guide (solved).
    Finish,
}

impl GuideState {
    /// The guide's reaction to an event while no move is animating: step to
    /// the next move, or at a gated trained segment, jump over it ("I did
    /// it") or reveal it ("show me"); once every move is done, finish.
    pub fn apply_event(&mut self, ev: GuideEvent) -> (a: GuideAction)
        ensures
            final(self).solution == old(self).solution,
            final(self).labels == old(self).labels,
            final(self).seg_id == old(self).seg_id,
            final(self).practice == old(self).practice,
            final(self).origin == old(self).origin,
            final(self).est_ms == old(self).est_ms,
            final(self).playing == old(self).playing,
            ({
                let done = old(self).cursor >= old(self).solution@.len();
                let gate = if done {
                    None
                } else {
                    gate_spec(old(self).practice, old(self).cursor as int, old(self).seg_id@, old(self).revealed@)
                };
                match gate {
                    Some(k) => match ev {
                        GuideEvent::DidIt => {
                            let c = final(self).cursor;
                            &&& old(self).cursor <= c
                            &&& c <= old(self).seg_id@.len()
                            &&& forall|i: int| old(self).cursor <= i < c ==> old(self).seg_id@[i] == Some(k)
                            &&& c < old(self).seg_id@.len() ==> old(self).seg_id@[c as int] != Some(k)
                            &&& c <= old(self).solution@.len() ==> (a matches GuideAction::Apply(m) && m@
                                == old(self).solution@.subrange(old(self).cursor as int, c as int))
                            &&& c > old(self).solution@.len() ==> a is Nothing
                            &&& final(self).revealed@ == old(self).revealed@
                        },
                        GuideEvent::ShowMe => {
                            &&& a is Nothing
                            &&& final(self).cursor == old(self).cursor
                            &&& final(self).revealed@ == old(self).revealed@.insert(k)
                        },
                        GuideEvent::Next => {
                            &&& a is Nothing
                            &&& final(self).cursor == old(self).cursor
                            &&& final(self).revealed@ == old(self).revealed@
                        },
                    },
                    None => {
                        &&& final(self).revealed@ == old(self).revealed@
                        &&& match ev {
                            GuideEvent::Next => if done {
                                a is Finish && final(self).cursor == old(self).cursor
                            } else {
                                a == GuideAction::Animate(old(self).solution@[old(self).cursor as int])
                                    && final(self).cursor == old(self).cursor + 1
                            },
                            _ => a is Nothing && final(self).cursor == old(self).cursor,
                        }
                    },
                }
            }),
    {
        let done = self.cursor >= self.solution.0.len();
        let gate = if done {
            None
        } else {
            self.gate()
        };
        match gate {
            Some(k) => match ev {
                GuideEvent::DidIt => {
                    let end = self.seg_end(k);
                    assert(end <= self.seg_id@.len()) by {
                        assert(self.seg_id@[self.cursor as int] == Some(k));
                    }
                    if end <= self.solution.0.len() {
                        let mut moves: Vec<Move> = Vec::new();
                        let mut i = self.cursor;
                        while i < end
                            invariant
                                self.cursor <= i <= end,
                                end <= self.solution@.len(),
                                moves@ == self.solution@.subrange(self.cursor as int, i as int),
                            decreases end - i,
                        {
                            moves.push(self.solution.0[i]);
                            proof {
                                assert(self.solution@.subrange(self.cursor as int, i + 1)
                                    =~= self.solution@.subrange(self.cursor as int, i as int).push(self.solution@[i as int]));
                            }
                            i += 1;
                        }
                        self.cursor = end;
                        GuideAction::Apply(Alg::new(moves))
                    } else {
                        self.cursor = end;
                        GuideAction::Nothing
                    }
                },
                GuideEvent::ShowMe => {
                    self.revealed.insert(k);
                    GuideAction::Nothing
                },
                GuideEvent::Next => GuideAction::Nothing,
            },
            None => match ev {
                GuideEvent::Next => {
                    if done {
                        GuideAction::Finish
                    } else {
                        let m = self.solution.0[self.cursor];
                        self.cursor = self.cursor + 1;
                        GuideAction::Animate(m)
                    }
                },
                _ => GuideAction::Nothing,
            },
        }
    }
}

/// The per-move labels and segment marks run parallel to the moves.
pub proof fn lemma_track_parallel(parts: Seq<Part>, cases: Seq<CaseDef>)
    ensures
        track_labels(parts, cases).len() == track_moves(parts).len(),
        track_gates(parts).len() == track_moves(parts).len(),
    decreases parts.len(),
{
    if parts.len() > 0 {
        lemma_track_parallel(parts.drop_last(), cases);
    }
}

proof fn lemma_named_count_prefix(parts: Seq<Part>, j: int)
    requires
        0 <= j < parts.len(),
    ensures
        named_count(parts.take(j + 1)) <= named_count(parts),
        named_count(parts.take(j + 1)) == named_count(parts.take(j)) + if parts[j].1 is Some {
            1nat
        } else {
            0nat
        },
    decreases parts.len(),
{
    assert(parts.take(j + 1).drop_last() =~= parts.take(j));
    if j + 1 < parts.len() {
        lemma_named_count_prefix(parts.drop_last(), j);
        assert(parts.drop_last().take(j + 1) =~= parts.take(j + 1));
        assert(parts.drop_last().take(j) =~= parts.take(j));
    } else {
        assert(parts.take(j + 1) =~= parts);
    }
}

/// A guide under construction.
struct Track {
    moves: Vec<Move>,
    labels: Vec<Option<String>>,
    seg_id: Vec<Option<u16>>,
    named: u16,
}

impl Track {
    spec fn holds(&self, parts: Seq<Part>, cases: Seq<CaseDef>) -> bool {
        &&& self.moves@ == track_moves(parts)
        &&& self.labels@.map_values(|o: Option<String>| label_view(o)) == track_labels(parts, cases)
        &&& self.seg_id@ == track_gates(parts)
        &&& self.named == named_count(parts)
    }

    fn new(Ghost(cases): Ghost<Seq<CaseDef>>) -> (t: Track)
        ensures
            t.holds(seq![], cases),
    {
        let t = Track { moves: Vec::new(), labels: Vec::new(), seg_id: Vec::new(), named: 0 };
        assert(t.labels@.map_values(|o: Option<String>| label_view(o)) =~= Seq::<
            Option<Seq<char>>,
        >::empty());
        assert(t.moves@ =~= track_moves(seq![]));
        assert(t.seg_id@ =~= track_gates(seq![]));
        t
    }

    fn push_part(
        &mut self,
        alg: &Alg,
        case: Option<u16>,
        lead: usize,
        rec: &Recognizer,
        Ghost(done): Ghost<Seq<Part>>,
    )
        requires
            old(self).holds(done, rec.cases()),
            case matches Some(c) ==> c < rec.cases().len(),
            case is Some ==> named_count(done) < u16::MAX,
        ensures
            final(self).holds(done.push((alg@, case, lead as nat)), rec.cases()),
    {
        let ghost part: Part = (alg@, case, lead as nat);
        let ghost all = done.push(part);
        assert(all.drop_last() =~= done);
        let ghost lv0 = self.labels@.map_values(|o: Option<String>| label_view(o));
        let ghost g0 = self.seg_id@;
        let ghost m0 = self.moves@;
        let k = self.named;
        let n = alg.len();
        let mut i: usize = 0;
        while i < n
            invariant
                n == alg@.len(),
                0 <= i <= n,
                self.named == k,
                k == named_count(done),
                case matches Some(c) ==> c < rec.cases().len(),
                self.moves@ == m0 + alg@.take(i as int),
                self.labels@.map_values(|o: Option<String>| label_view(o)) == lv0 + Seq::new(
                    i as nat,
                    |q: int|
                        match case {
                            Some(c) => Some(rec.cases()[c as int].name@),
                            None => None,
                        },
                ),
                self.seg_id@ == g0 + Seq::new(
                    i as nat,
                    |q: int|
                        if case is Some && q >= lead {
                            Some(k)
                        } else {
                            None
                        },
                ),
            decreases n - i,
        {
            self.moves.push(alg.0[i]);
            let label = match case {
                Some(c) => Some(copy_string(&rec.case(c).name)),
                None => None,
            };
            let ghost lab = label_view(label);
            let ghost lvb = self.labels@.map_values(|o: Option<String>| label_view(o));
            assert(lab == match case {
                Some(c) => Some(rec.cases()[c as int].name@),
                None => None,
            });
            self.labels.push(label);
            assert(self.labels@.map_values(|o: Option<String>| label_view(o)) =~= lvb.push(lab));
            let gate = if case.is_some() && i >= lead {
                Some(k)
            } else {
                None
            };
            self.seg_id.push(gate);
            i += 1;
            proof {
                assert(self.moves@ =~= m0 + alg@.take(i as int));
                assert(self.labels@.map_values(|o: Option<String>| label_view(o)) =~= lv0 + Seq::new(
                    i as nat,
                    |q: int|
                        match case {
                            Some(c) => Some(rec.cases()[c as int].name@),
                            None => None,
                        },
                ));
                assert(self.seg_id@ =~= g0 + Seq::new(
                    i as nat,
                    |q: int|
                        if case is Some && q >= lead {
                            Some(k)
                        } else {
                            None
                        },
                ));
            }
        }
        if case.is_some() {
            self.named = self.named + 1;
        }
        proof {
            assert(alg@.take(n as int) =~= alg@);
            assert(self.seg_id@ =~= track_gates(all));
            assert(self.labels@.map_values(|o: Option<String>| label_view(o)) =~= track_labels(
                all,
                rec.cases(),
            ));
        }
    }

    fn into_guide(self, origin: FaceletCube, practice: bool, est_ms: Option<u32>) -> (g: GuideState)
        ensures
            g.solution@ == self.moves@,
            g.labels == self.labels,
            g.seg_id == self.seg_id,
            g.cursor == 0,
            !g.playing,
            g.origin == origin,
            g.practice == practice,
            g.revealed@ == Set::<u16>::empty(),
            g.est_ms == est_ms,
    {
        GuideState {
            solution: Alg::new(self.moves),
            labels: self.labels,
            cursor: 0,
            playing: false,
            origin,
            seg_id: self.seg_id,
            practice,
            revealed: HashSet::new(),
            est_ms,
        }
    }
}

/// A copy of a string.
fn copy_string(s: &String) -> (r: String)
    ensures
        r@ == s@,
{
    s.clone()
}

} // verus!
