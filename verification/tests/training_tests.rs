//! Training-screen rules: timing statistics, recipe progress and the
//! demonstrated execution of a case.

use cube_core::training::{
    average5_ms, best_ms, demo_exec, recipe_next_move, recipe_progress, session_step, SessionAction, SessionEvent,
    SessionPhase,
};
use cube_core::ui::Attempt;
use cube_core::{Alg, CaseDef, CaseSet, FaceletCube, Move, RecogKind, Recognizer};

fn att(ms: u64, success: bool) -> Attempt {
    Attempt { ms, success }
}

#[test]
fn best_time_is_the_fastest_success() {
    assert_eq!(best_ms(&[]), None);
    assert_eq!(best_ms(&[att(700, false)]), None);
    assert_eq!(best_ms(&[att(1500, true), att(900, false), att(1200, true)]), Some(1200));
    assert_eq!(best_ms(&[att(800, true), att(1200, true)]), Some(800));
}

#[test]
fn average_is_over_the_last_five_successes() {
    assert_eq!(average5_ms(&[att(100, false)]), None);
    assert_eq!(average5_ms(&[att(1000, true), att(2001, true)]), Some(1500));
    let runs = [
        att(1000, true),
        att(2000, true),
        att(50, false),
        att(3000, true),
        att(4000, true),
        att(5000, true),
        att(6000, true),
    ];
    assert_eq!(average5_ms(&runs), Some(4000));
}

#[test]
fn recipe_progress_follows_the_cube() {
    let example = FaceletCube::solved().applied_alg(&Alg::parse("F R").unwrap());
    let exec = Alg::parse("R U R'").unwrap();
    let step = |k: usize| {
        let mut c = example;
        for m in &exec.0[..k] {
            c.apply(*m);
        }
        c
    };
    for k in 0..=3 {
        assert_eq!(recipe_progress(example, &exec, &step(k)), k);
    }
    assert_eq!(recipe_next_move(example, &exec, &step(0)), Some(exec.0[0]));
    assert_eq!(recipe_next_move(example, &exec, &step(2)), Some(exec.0[2]));
    assert_eq!(recipe_next_move(example, &exec, &step(3)), None);
    let off = FaceletCube::solved().applied_alg(&Alg::parse("L2 D").unwrap());
    assert_eq!(recipe_progress(example, &exec, &off), 0);
    assert_eq!(recipe_next_move(example, &exec, &off), None);
    let m: Move = exec.0[1];
    assert_eq!(recipe_next_move(example, &exec, &step(1)), Some(m));
}

#[test]
fn demonstration_uses_the_recognized_auf() {
    let sune = Alg::parse("R U R' U R U2 R'").unwrap();
    let rec = Recognizer::new(vec![CaseDef {
        id: "oll-27".into(),
        set: CaseSet::Oll,
        name: "Sune".into(),
        group: "ocll".into(),
        alg: sune.clone(),
        recognition: RecogKind::Oll,
    }])
    .unwrap();
    // Not the case: the algorithm as written.
    assert_eq!(demo_exec(&rec, 0, &FaceletCube::solved()), sune);
    // The case from any AUF: the demonstration orients the last layer.
    for k in 0..4u8 {
        let s = rec.canonical_state(0).rotate_u(k);
        let done = s.applied_alg(&demo_exec(&rec, 0, &s));
        assert!(done.is_f2l_solved() && done.is_oll_done(), "auf {k}");
    }
}

#[test]
fn session_runs_watch_ready_timing_result() {
    let w = SessionPhase::Watch { cursor: 0, len: 2, playing: true };
    let (w, a) = session_step(w, SessionEvent::Tick, true, 0);
    assert_eq!(a, SessionAction::Animate(0));
    assert_eq!(w, SessionPhase::Watch { cursor: 1, len: 2, playing: true });
    let (w, a) = session_step(w, SessionEvent::Tick, false, 0);
    assert_eq!(a, SessionAction::Nothing);
    let (w, a) = session_step(w, SessionEvent::StepBack, true, 0);
    assert_eq!(a, SessionAction::AnimateInverse(0));
    assert_eq!(w, SessionPhase::Watch { cursor: 0, len: 2, playing: false });
    let end = SessionPhase::Watch { cursor: 2, len: 2, playing: false };
    let (w2, a) = session_step(end, SessionEvent::PlayPause, true, 0);
    assert_eq!(a, SessionAction::ResetToOrigin);
    assert_eq!(w2, SessionPhase::Watch { cursor: 0, len: 2, playing: true });
    let (r, a) = session_step(w, SessionEvent::Practice, true, 0);
    assert_eq!((r, a), (SessionPhase::Ready, SessionAction::NewExample));
    let (t, _) = session_step(r, SessionEvent::Go, true, 1000);
    assert_eq!(t, SessionPhase::Timing { start_ms: 1000 });
    let (res, _) = session_step(t, SessionEvent::Stop, true, 3450);
    assert_eq!(res, SessionPhase::Result { ms: 2450, success: None });
    let (done, a) = session_step(res, SessionEvent::Verdict(true), true, 4000);
    assert_eq!(a, SessionAction::Record { ms: 2450, success: true });
    let (_, a) = session_step(done, SessionEvent::Verdict(false), true, 4000);
    assert_eq!(a, SessionAction::Nothing);
    let (again, a) = session_step(done, SessionEvent::Go, true, 5000);
    assert_eq!((again, a), (SessionPhase::Ready, SessionAction::NewExample));
    let (demo, a) = session_step(SessionPhase::Ready, SessionEvent::ShowMe { demo_len: 7 }, true, 0);
    assert_eq!(a, SessionAction::OpenDemo);
    assert_eq!(demo, SessionPhase::Watch { cursor: 0, len: 7, playing: true });
}
