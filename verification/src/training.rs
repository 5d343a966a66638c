//! Rules of the training screen: a case's timing statistics and how far
//! the learner has followed the case's recipe on the cube.

use vstd::prelude::*;
use crate::cases::{Match, Recognizer};
use crate::facelet::{apply_move, apply_moves, FaceletCube};
use crate::moves::{relabel_y_moves, Alg, Move};
use crate::ui::Attempt;

verus! {

/// The times of the successful attempts, in order.
pub open spec fn successes(atts: Seq<Attempt>) -> Seq<u64>
    decreases atts.len(),
{
    if atts.len() == 0 {
        seq![]
    } else if atts.last().success {
        successes(atts.drop_last()).push(atts.last().ms)
    } else {
        successes(atts.drop_last())
    }
}

/// The sum of a sequence of times.
pub open spec fn sum_ms(xs: Seq<u64>) -> int
    decreases xs.len(),
{
    if xs.len() == 0 {
        0
    } else {
        sum_ms(xs.drop_last()) + xs.last()
    }
}

/// The last (up to) five of a sequence.
pub open spec fn last5(xs: Seq<u64>) -> Seq<u64> {
    if xs.len() <= 5 {
        xs
    } else {
        xs.skip(xs.len() - 5)
    }
}

/// Best time: the fastest successful attempt, if there is one.
pub fn best_ms(atts: &[Attempt]) -> (r: Option<u64>)
    ensures
        r is None <==> successes(atts@).len() == 0,
        r matches Some(b) ==> successes(atts@).contains(b) && forall|i: int|
            0 <= i < successes(atts@).len() ==> b <= #[trigger] successes(atts@)[i],
{
    let mut best: Option<u64> = None;
    let mut i: usize = 0;
    while i < atts.len()
        invariant
            0 <= i <= atts@.len(),
            best is None <==> successes(atts@.take(i as int)).len() == 0,
            best matches Some(b) ==> successes(atts@.take(i as int)).contains(b) && forall|k: int|
                0 <= k < successes(atts@.take(i as int)).len() ==> b <= #[trigger] successes(
                    atts@.take(i as int),
                )[k],
        decreases atts@.len() - i,
    {
        let a = atts[i];
        let ghost before = successes(atts@.take(i as int));
        proof {
            assert(atts@.take(i as int + 1).drop_last() =~= atts@.take(i as int));
            assert(atts@.take(i as int + 1).last() == a);
        }
        if a.success {
            let ghost now = before.push(a.ms);
            assert(successes(atts@.take(i as int + 1)) == now);
            match best {
                Some(b) => {
                    if a.ms < b {
                        best = Some(a.ms);
                    }
                    proof {
                        let c = best->0;
                        assert(now[now.len() - 1] == a.ms);
                        assert forall|k: int| 0 <= k < now.len() implies c <= #[trigger] now[k] by {
                            if k < before.len() {
                                assert(now[k] == before[k]);
                            }
                        }
                        if c == b {
                            let j = choose|j: int| 0 <= j < before.len() && before[j] == b;
                            assert(now[j] == b);
                        }
                    }
                },
                None => {
                    best = Some(a.ms);
                    proof {
                        assert(now[now.len() - 1] == a.ms);
                        assert(before.len() == 0);
                    }
                },
            }
        } else {
            assert(successes(atts@.take(i as int + 1)) == before);
        }
        i += 1;
    }
    proof {
        assert(atts@.take(atts@.len() as int) =~= atts@);
    }
    best
}

/// The average of the last five successful times (truncated), if any.
pub fn average5_ms(atts: &[Attempt]) -> (r: Option<u64>)
    requires
        sum_ms(last5(successes(atts@))) <= u64::MAX,
    ensures
        r is None <==> successes(atts@).len() == 0,
        r matches Some(v) ==> v == sum_ms(last5(successes(atts@))) / last5(successes(atts@)).len() as int,
{
    let mut ok: Vec<u64> = Vec::new();
    let mut i: usize = 0;
    while i < atts.len()
        invariant
            0 <= i <= atts@.len(),
            ok@ == successes(atts@.take(i as int)),
        decreases atts@.len() - i,
    {
        proof {
            assert(atts@.take(i as int + 1).drop_last() =~= atts@.take(i as int));
            assert(atts@.take(i as int + 1).last() == atts@[i as int]);
        }
        if atts[i].success {
            ok.push(atts[i].ms);
        }
        i += 1;
    }
    proof {
        assert(atts@.take(atts@.len() as int) =~= atts@);
    }
    if ok.len() == 0 {
        return None;
    }
    let start: usize = if ok.len() > 5 {
        ok.len() - 5
    } else {
        0
    };
    let ghost tail = last5(ok@);
    assert(tail =~= ok@.skip(start as int));
    let mut sum: u64 = 0;
    let mut j: usize = start;
    while j < ok.len()
        invariant
            start <= j <= ok@.len(),
            tail == ok@.skip(start as int),
            sum_ms(tail) <= u64::MAX,
            sum as int == sum_ms(ok@.subrange(start as int, j as int)),
        decreases ok@.len() - j,
    {
        proof {
            let s = ok@.subrange(start as int, j as int + 1);
            assert(s.drop_last() =~= ok@.subrange(start as int, j as int));
            assert(s.last() == ok@[j as int]);
            lemma_sum_prefix_bound(tail, (j - start) as int + 1);
            assert(tail.take((j - start) as int + 1) =~= s);
        }
        sum = sum + ok[j];
        j += 1;
    }
    assert(ok@.subrange(start as int, ok@.len() as int) =~= tail);
    let n: u64 = (ok.len() - start) as u64;
    Some(sum / n)
}

/// A prefix of times sums to no more than the whole.
proof fn lemma_sum_prefix_bound(xs: Seq<u64>, k: int)
    requires
        0 <= k <= xs.len(),
    ensures
        sum_ms(xs.take(k)) <= sum_ms(xs),
    decreases xs.len(),
{
    if k < xs.len() {
        assert(xs.drop_last().take(k) =~= xs.take(k));
        lemma_sum_prefix_bound(xs.drop_last(), k);
    } else {
        assert(xs.take(k) =~= xs);
    }
}

/// The state after the first `k` moves of the recipe.
pub open spec fn recipe_state(example: FaceletCube, exec: Seq<Move>, k: int) -> Seq<crate::facelet::Face> {
    apply_moves(example@, exec.take(k))
}

/// Recipe progress: the first `k` (0 to the recipe's length) at which the
/// cube shows the example after `k` recipe moves; 0 when the cube is off
/// the recipe's path.
pub open spec fn recipe_progress_spec(example: FaceletCube, exec: Seq<Move>, cube: FaceletCube) -> int {
    if exists|k: int| 0 <= k <= exec.len() && #[trigger] recipe_state(example, exec, k) == cube@ {
        choose|k: int|
            0 <= k <= exec.len() && #[trigger] recipe_state(example, exec, k) == cube@ && forall|j: int|
                0 <= j < k ==> #[trigger] recipe_state(example, exec, j) != cube@
    } else {
        0
    }
}

proof fn lemma_recipe_step(example: FaceletCube, exec: Seq<Move>, k: int)
    requires
        0 <= k < exec.len(),
    ensures
        recipe_state(example, exec, k + 1) == apply_move(recipe_state(example, exec, k), exec[k]),
{
    assert(exec.take(k + 1).drop_last() =~= exec.take(k));
    assert(exec.take(k + 1).last() == exec[k]);
}

/// How many recipe moves the learner has performed: the first prefix of
/// the recipe, applied to the example, that the cube shows (0 when the
/// cube is off the recipe's path).
pub fn recipe_progress(example: FaceletCube, exec: &Alg, cube: &FaceletCube) -> (r: usize)
    ensures
        r as int == recipe_progress_spec(example, exec@, *cube),
        r <= exec@.len(),
{
    let mut probe = example;
    let mut k: usize = 0;
    proof {
        assert(exec@.take(0) =~= Seq::<Move>::empty());
    }
    while k < exec.0.len()
        invariant
            0 <= k <= exec@.len(),
            probe@ == recipe_state(example, exec@, k as int),
            forall|j: int| 0 <= j < k ==> #[trigger] recipe_state(example, exec@, j) != cube@,
        decreases exec@.len() - k,
    {
        if probe == *cube {
            proof {
                lemma_progress_is(example, exec@, *cube, k as int);
            }
            return k;
        }
        proof {
            lemma_recipe_step(example, exec@, k as int);
        }
        probe.apply(exec.0[k]);
        k += 1;
    }
    if probe == *cube {
        proof {
            lemma_progress_is(example, exec@, *cube, k as int);
        }
        k
    } else {
        proof {
            assert forall|j: int| 0 <= j <= exec@.len() implies #[trigger] recipe_state(example, exec@, j)
                != cube@ by {
                if j == exec@.len() {
                    assert(j == k);
                }
            }
        }
        0
    }
}

proof fn lemma_progress_is(example: FaceletCube, exec: Seq<Move>, cube: FaceletCube, k: int)
    requires
        0 <= k <= exec.len(),
        recipe_state(example, exec, k) == cube@,
        forall|j: int| 0 <= j < k ==> #[trigger] recipe_state(example, exec, j) != cube@,
    ensures
        recipe_progress_spec(example, exec, cube) == k,
{
    let c = choose|c: int|
        0 <= c <= exec.len() && #[trigger] recipe_state(example, exec, c) == cube@ && forall|j: int|
            0 <= j < c ==> #[trigger] recipe_state(example, exec, j) != cube@;
    if c < k {
        assert(recipe_state(example, exec, c) != cube@);
    } else if c > k {
        assert(recipe_state(example, exec, k) != cube@);
    }
}

/// The recipe move the learner is on: the move after the first recipe
/// prefix (short of the whole recipe) that the cube shows.
pub fn recipe_next_move(example: FaceletCube, exec: &Alg, cube: &FaceletCube) -> (r: Option<Move>)
    ensures
        match r {
            Some(m) => exists|k: int|
                0 <= k < exec@.len() && #[trigger] recipe_state(example, exec@, k) == cube@ && m == exec@[k]
                    && forall|j: int| 0 <= j < k ==> #[trigger] recipe_state(example, exec@, j) != cube@,
            None => forall|k: int| 0 <= k < exec@.len() ==> #[trigger] recipe_state(example, exec@, k) != cube@,
        },
{
    let mut probe = example;
    let mut k: usize = 0;
    proof {
        assert(exec@.take(0) =~= Seq::<Move>::empty());
    }
    while k < exec.0.len()
        invariant
            0 <= k <= exec@.len(),
            probe@ == recipe_state(example, exec@, k as int),
            forall|j: int| 0 <= j < k ==> #[trigger] recipe_state(example, exec@, j) != cube@,
        decreases exec@.len() - k,
    {
        if probe == *cube {
            return Some(exec.0[k]);
        }
        proof {
            lemma_recipe_step(example, exec@, k as int);
        }
        probe.apply(exec.0[k]);
        k += 1;
    }
    None
}

/// The match a case is demonstrated with from a state: the recognized one,
/// or the algorithm as written when the state does not show the case.
pub open spec fn demo_match(rec: Recognizer, case_idx: u16, s: Seq<crate::facelet::Face>) -> Match {
    match rec.recognize_case_spec(s, case_idx) {
        Some(m) => m,
        None => Match { case_idx, pre_auf: 0, y_frame: 0 },
    }
}

proof fn lemma_f2l_match_is(rec: Recognizer, s: Seq<crate::facelet::Face>, idx: u16, j: int)
    ensures
        rec.f2l_case_from(s, idx, j) matches Some(m) ==> m.case_idx == idx,
    decreases 4 - j,
{
    if 0 <= j < 4 {
        lemma_f2l_match_is(rec, s, idx, j + 1);
    }
}

/// The execution that demonstrates a case from a state (recognized AUF
/// and frame included; the algorithm as written when not recognized).
pub fn demo_exec(rec: &Recognizer, case_idx: u16, state: &FaceletCube) -> (r: Alg)
    requires
        rec.wf(),
        case_idx < rec.cases().len(),
    ensures
        ({
            let m = demo_match(*rec, case_idx, state@);
            r@ == relabel_y_moves(
                crate::cases::pre_auf_moves(m.pre_auf as int % 4) + relabel_y_moves(
                    rec.cases()[m.case_idx as int].alg@,
                    rec.frame_fixes()[m.case_idx as int] as int % 4,
                ),
                m.y_frame as int % 4,
            )
        }),
{
    proof {
        lemma_f2l_match_is(*rec, state@, case_idx, 0);
    }
    let m = match rec.recognize_case(state, case_idx) {
        Some(m) => m,
        None => Match { case_idx, pre_auf: 0, y_frame: 0 },
    };
    rec.execution_alg(m)
}

/// Where a drill session is. The demo's moves and starting cube stay with
/// the screen; the phase keeps the demo's cursor and length.
#[derive(Clone, Copy, Debug, PartialEq, Eq, Structural)]
pub enum SessionPhase {
    /// A steppable demo of the algorithm: `cursor` of `len` moves applied.
    Watch { cursor: usize, len: usize, playing: bool },
    /// Waiting for "GO".
    Ready,
    /// The clock runs since `start_ms`.
    Timing { start_ms: u64 },
    /// A stopped attempt, before and after its verdict.
    Result { ms: u64, success: Option<bool> },
}

/// What happens on the training screen.
#[derive(Clone, Copy, Debug, PartialEq, Eq, Structural)]
pub enum SessionEvent {
    /// A frame passed.
    Tick,
    StepBack,
    PlayPause,
    StepForward,
    /// From the demo into the drill.
    Practice,
    Go,
    /// Show the demo on the current example; `demo_len` moves.
    ShowMe { demo_len: usize },
    /// A fresh example.
    Shuffle,
    Stop,
    /// The learner's verdict on the stopped attempt.
    Verdict(bool),
}

/// What the screen does.
#[derive(Clone, Copy, Debug, PartialEq, Eq, Structural)]
pub enum SessionAction {
    Nothing,
    /// Animate demo move `i`.
    Animate(usize),
    /// Animate the inverse of demo move `i`.
    AnimateInverse(usize),
    /// Put the cube back at the demo's start.
    ResetToOrigin,
    /// Set up a fresh example of the case.
    NewExample,
    /// Open the demo on the current example (the screen resets an
    /// unrecognized cube to the case's canonical state first).
    OpenDemo,
    /// Record an attempt.
    Record { ms: u64, success: bool },
}

/// The session's rule: the next phase and action for an event, given
/// whether the cube is idle (no move animating) and the time in ms.
pub open spec fn session_step_spec(phase: SessionPhase, ev: SessionEvent, idle: bool, now_ms: u64) -> (
    SessionPhase,
    SessionAction,
) {
    match phase {
        SessionPhase::Watch { cursor, len, playing } => match ev {
            SessionEvent::Tick => if playing && cursor < len && idle {
                (SessionPhase::Watch { cursor: (cursor + 1) as usize, len, playing }, SessionAction::Animate(cursor))
            } else if playing && cursor >= len && idle {
                (SessionPhase::Watch { cursor, len, playing: false }, SessionAction::Nothing)
            } else {
                (phase, SessionAction::Nothing)
            },
            SessionEvent::StepBack => if cursor > 0 && idle {
                (
                    SessionPhase::Watch { cursor: (cursor - 1) as usize, len, playing: false },
                    SessionAction::AnimateInverse((cursor - 1) as usize),
                )
            } else {
                (phase, SessionAction::Nothing)
            },
            SessionEvent::PlayPause => if playing {
                (SessionPhase::Watch { cursor, len, playing: false }, SessionAction::Nothing)
            } else if cursor >= len && idle {
                (SessionPhase::Watch { cursor: 0, len, playing: true }, SessionAction::ResetToOrigin)
            } else {
                (SessionPhase::Watch { cursor, len, playing: true }, SessionAction::Nothing)
            },
            SessionEvent::StepForward => if cursor < len && idle {
                (
                    SessionPhase::Watch { cursor: (cursor + 1) as usize, len, playing: false },
                    SessionAction::Animate(cursor),
                )
            } else {
                (phase, SessionAction::Nothing)
            },
            SessionEvent::Practice => (SessionPhase::Ready, SessionAction::NewExample),
            _ => (phase, SessionAction::Nothing),
        },
        SessionPhase::Ready => match ev {
            SessionEvent::Go => (SessionPhase::Timing { start_ms: now_ms }, SessionAction::Nothing),
            SessionEvent::ShowMe { demo_len } => if idle {
                (SessionPhase::Watch { cursor: 0, len: demo_len, playing: true }, SessionAction::OpenDemo)
            } else {
                (phase, SessionAction::Nothing)
            },
            SessionEvent::Shuffle => (phase, SessionAction::NewExample),
            _ => (phase, SessionAction::Nothing),
        },
        SessionPhase::Timing { start_ms } => match ev {
            SessionEvent::Stop => (
                SessionPhase::Result {
                    ms: if now_ms >= start_ms {
                        (now_ms - start_ms) as u64
                    } else {
                        0
                    },
                    success: None,
                },
                SessionAction::Nothing,
            ),
            _ => (phase, SessionAction::Nothing),
        },
        SessionPhase::Result { ms, success } => match success {
            None => match ev {
                SessionEvent::Verdict(ok) => (
                    SessionPhase::Result { ms, success: Some(ok) },
                    SessionAction::Record { ms, success: ok },
                ),
                _ => (phase, SessionAction::Nothing),
            },
            Some(_) => match ev {
                SessionEvent::Go => (SessionPhase::Ready, SessionAction::NewExample),
                _ => (phase, SessionAction::Nothing),
            },
        },
    }
}

/// One step of the drill session: watch the demo (step, play, replay),
/// ready, timing, then the verdict that records the attempt.
pub fn session_step(phase: SessionPhase, ev: SessionEvent, idle: bool, now_ms: u64) -> (r: (
    SessionPhase,
    SessionAction,
))
    ensures
        r == session_step_spec(phase, ev, idle, now_ms),
{
    match phase {
        SessionPhase::Watch { cursor, len, playing } => match ev {
            SessionEvent::Tick => if playing && cursor < len && idle {
                (SessionPhase::Watch { cursor: cursor + 1, len, playing }, SessionAction::Animate(cursor))
            } else if playing && cursor >= len && idle {
                (SessionPhase::Watch { cursor, len, playing: false }, SessionAction::Nothing)
            } else {
                (phase, SessionAction::Nothing)
            },
            SessionEvent::StepBack => if cursor > 0 && idle {
                (SessionPhase::Watch { cursor: cursor - 1, len, playing: false }, SessionAction::AnimateInverse(cursor - 1))
            } else {
                (phase, SessionAction::Nothing)
            },
            SessionEvent::PlayPause => if playing {
                (SessionPhase::Watch { cursor, len, playing: false }, SessionAction::Nothing)
            } else if cursor >= len && idle {
                (SessionPhase::Watch { cursor: 0, len, playing: true }, SessionAction::ResetToOrigin)
            } else {
                (SessionPhase::Watch { cursor, len, playing: true }, SessionAction::Nothing)
            },
            SessionEvent::StepForward => if cursor < len && idle {
                (SessionPhase::Watch { cursor: cursor + 1, len, playing: false }, SessionAction::Animate(cursor))
            } else {
                (phase, SessionAction::Nothing)
            },
            SessionEvent::Practice => (SessionPhase::Ready, SessionAction::NewExample),
            _ => (phase, SessionAction::Nothing),
        },
        SessionPhase::Ready => match ev {
            SessionEvent::Go => (SessionPhase::Timing { start_ms: now_ms }, SessionAction::Nothing),
            SessionEvent::ShowMe { demo_len } => if idle {
                (SessionPhase::Watch { cursor: 0, len: demo_len, playing: true }, SessionAction::OpenDemo)
            } else {
                (phase, SessionAction::Nothing)
            },
            SessionEvent::Shuffle => (phase, SessionAction::NewExample),
            _ => (phase, SessionAction::Nothing),
        },
        SessionPhase::Timing { start_ms } => match ev {
            SessionEvent::Stop => (
                SessionPhase::Result {
                    ms: if now_ms >= start_ms {
                        now_ms - start_ms
                    } else {
                        0
                    },
                    success: None,
                },
                SessionAction::Nothing,
            ),
            _ => (phase, SessionAction::Nothing),
        },
        SessionPhase::Result { ms, success } => match success {
            None => match ev {
                SessionEvent::Verdict(ok) => (
                    SessionPhase::Result { ms, success: Some(ok) },
                    SessionAction::Record { ms, success: ok },
                ),
                _ => (phase, SessionAction::Nothing),
            },
            Some(_) => match ev {
                SessionEvent::Go => (SessionPhase::Ready, SessionAction::NewExample),
                _ => (phase, SessionAction::Nothing),
            },
        },
    }
}

/// Law: a stopped attempt is recorded exactly once, with the time the
/// clock showed: the verdict records it, and after the verdict no event
/// records anything until "GO" starts a fresh example.
pub proof fn lemma_attempt_recorded_once(start_ms: u64, now_ms: u64, ok: bool, ev: SessionEvent, idle: bool, later: u64)
    requires
        start_ms <= now_ms,
    ensures
        ({
            let (p1, a1) = session_step_spec(SessionPhase::Timing { start_ms }, SessionEvent::Stop, idle, now_ms);
            let (p2, a2) = session_step_spec(p1, SessionEvent::Verdict(ok), idle, later);
            let (p3, a3) = session_step_spec(p2, ev, idle, later);
            &&& a1 == SessionAction::Nothing
            &&& a2 == (SessionAction::Record { ms: (now_ms - start_ms) as u64, success: ok })
            &&& !(a3 is Record)
            &&& ev != SessionEvent::Go ==> p3 == p2
        }),
{
}

} // verus!
