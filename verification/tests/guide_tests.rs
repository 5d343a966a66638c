//! The step-by-step guide built from solver output.

use cube_core::guide::{GuideAction, GuideEvent, GuideState};
use cube_core::hints::{GuidedSolution, Segment, SolveOutput};
use cube_core::my_way::{MySeg, MyWayPlan};
use cube_core::{Alg, CaseDef, CaseSet, Face, FaceletCube, Move, RecogKind, Recognizer, Turns};

fn alg(s: &str) -> Alg {
    Alg::parse(s).unwrap()
}

fn rec() -> Recognizer {
    Recognizer::new(vec![
        CaseDef {
            id: "oll-27".into(),
            set: CaseSet::Oll,
            name: "Sune".into(),
            group: "ocll".into(),
            alg: alg("R U R' U R U2 R'"),
            recognition: RecogKind::Oll,
        },
        CaseDef {
            id: "pll-t".into(),
            set: CaseSet::Pll,
            name: "T-Perm".into(),
            group: "adjacent".into(),
            alg: alg("R U R' U' R' F R2 U' R' U' R U R' F'"),
            recognition: RecogKind::Pll,
        },
    ])
    .unwrap()
}

#[test]
fn plain_guide_has_no_labels_or_gates() {
    let g = GuideState::plain(alg("R U F"), FaceletCube::solved());
    assert_eq!(g.labels, vec![None, None, None]);
    assert_eq!(g.seg_id, vec![None, None, None]);
    assert_eq!(g.cursor, 0);
    assert_eq!(g.gate(), None);
}

#[test]
fn guided_output_labels_trained_segments() {
    let r = rec();
    let out = SolveOutput {
        base: alg("R"),
        inline_hints: Vec::new(),
        guided: Some(GuidedSolution {
            segments: vec![
                Segment::Raw(alg("F D")),
                Segment::Trained { case_idx: 1, execution: alg("U R") },
                Segment::Trained { case_idx: 0, execution: alg("L") },
            ],
            total_htm: 5,
            trained_used: 2,
            ergo_cost: 0,
            first_trained_ergo: 0,
        }),
    };
    let g = GuideState::from_output(out, &r, FaceletCube::solved(), true);
    assert_eq!(g.solution, alg("F D U R L"));
    assert_eq!(
        g.labels,
        vec![None, None, Some("T-Perm".to_string()), Some("T-Perm".to_string()), Some("Sune".to_string())]
    );
    assert_eq!(g.seg_id, vec![None, None, Some(0), Some(0), Some(1)]);
    assert_eq!(g.est_ms, None);
}

#[test]
fn output_without_guided_solution_is_plain() {
    let out = SolveOutput { base: alg("R U"), inline_hints: Vec::new(), guided: None };
    let g = GuideState::from_output(out, &rec(), FaceletCube::solved(), true);
    assert_eq!(g.solution, alg("R U"));
    assert!(!g.practice);
    assert_eq!(g.seg_id, vec![None, None]);
}

#[test]
fn plan_alignment_moves_are_never_gated() {
    let plan = MyWayPlan {
        segments: vec![
            MySeg { case_idx: None, auf_len: 0, alg: alg("F2"), est_ms: 100 },
            MySeg { case_idx: Some(0), auf_len: 1, alg: alg("U R U R'"), est_ms: 900 },
        ],
        total_ms: 1000,
    };
    let mut g = GuideState::from_my_way(plan, &rec(), FaceletCube::solved(), true);
    assert_eq!(g.seg_id, vec![None, None, Some(0), Some(0), Some(0)]);
    assert_eq!(g.labels[1].as_deref(), Some("Sune"));
    assert_eq!(g.est_ms, Some(1000));
    // Practice-stop: the cursor on an algorithm move is gated until revealed.
    g.cursor = 1;
    assert_eq!(g.gate(), None);
    g.cursor = 2;
    assert_eq!(g.gate(), Some(0));
    assert_eq!(g.seg_end(0), 5);
    g.revealed.insert(0);
    assert_eq!(g.gate(), None);
    g.practice = false;
    g.revealed.clear();
    assert_eq!(g.gate(), None);
}

#[test]
fn seg_end_stops_at_the_next_segment() {
    let r = rec();
    let guided = GuidedSolution {
        segments: vec![
            Segment::Trained { case_idx: 0, execution: alg("R U") },
            Segment::Trained { case_idx: 0, execution: alg("F") },
        ],
        total_htm: 3,
        trained_used: 2,
        ergo_cost: 0,
        first_trained_ergo: 0,
    };
    let g = GuideState::from_guided(guided, &r, FaceletCube::solved(), true);
    assert_eq!(g.seg_id, vec![Some(0), Some(0), Some(1)]);
    assert_eq!(g.seg_end(0), 2);
    assert_eq!(g.seg_end(1), 0);
}

#[test]
fn guide_events_step_jump_and_reveal() {
    let mut g = GuideState::plain(Alg::parse("R U F").unwrap(), FaceletCube::solved());
    match g.apply_event(GuideEvent::Next) {
        GuideAction::Animate(m) => assert_eq!(m, Move::Face(Face::R, Turns::Cw)),
        _ => panic!("expected a move"),
    }
    assert_eq!(g.cursor, 1);
    assert!(matches!(g.apply_event(GuideEvent::DidIt), GuideAction::Nothing));
    g.cursor = 3;
    assert!(matches!(g.apply_event(GuideEvent::Next), GuideAction::Finish));

    let mut p = GuideState::plain(Alg::parse("R U F").unwrap(), FaceletCube::solved());
    p.practice = true;
    p.seg_id = vec![Some(0), Some(0), None];
    assert!(matches!(p.apply_event(GuideEvent::Next), GuideAction::Nothing));
    assert_eq!(p.cursor, 0);
    match p.apply_event(GuideEvent::DidIt) {
        GuideAction::Apply(a) => assert_eq!(a, Alg::parse("R U").unwrap()),
        _ => panic!("expected the segment"),
    }
    assert_eq!(p.cursor, 2);

    let mut q = GuideState::plain(Alg::parse("R U F").unwrap(), FaceletCube::solved());
    q.practice = true;
    q.seg_id = vec![Some(4), None, None];
    assert!(matches!(q.apply_event(GuideEvent::ShowMe), GuideAction::Nothing));
    assert!(q.revealed.contains(&4));
    assert!(matches!(q.apply_event(GuideEvent::Next), GuideAction::Animate(_)));
}
