//! Practice scrambles: measuring a guided solution, building states
//! backwards, and the cases that can be drilled.

use cube_core::hints::{GuidedSolution, Segment};
use cube_core::practice_scramble::{build_backwards, measure, practice_scramble, Mode};
use cube_core::{Alg, CaseDef, CaseSet, Face, FaceletCube, RecogKind, Recognizer, SplitMix64};

fn alg(s: &str) -> Alg {
    Alg::parse(s).unwrap()
}

fn case(id: &str, set: CaseSet, moves: &str, recognition: RecogKind) -> CaseDef {
    CaseDef {
        id: id.into(),
        set,
        name: id.into(),
        group: String::new(),
        alg: alg(moves),
        recognition,
    }
}

fn solution() -> GuidedSolution {
    GuidedSolution {
        segments: vec![
            Segment::Trained { case_idx: 3, execution: alg("R U") },
            Segment::Raw(alg("F")),
            Segment::Trained { case_idx: 3, execution: alg("R U R'") },
            Segment::Trained { case_idx: 5, execution: alg("L") },
        ],
        total_htm: 7,
        trained_used: 3,
        ergo_cost: 0,
        first_trained_ergo: 0,
    }
}

#[test]
fn measure_counts_the_chosen_cases_and_their_moves() {
    let ps = measure(FaceletCube::solved(), solution(), &[3], 2, Mode::Built).unwrap();
    assert_eq!(ps.counts, vec![(3, 2)]);
    assert_eq!(ps.alg_moves, 5);
    assert_eq!(ps.total_moves, 7);
    assert_eq!(ps.mode, Mode::Built);
    let both = measure(FaceletCube::solved(), solution(), &[5, 3], 1, Mode::Random).unwrap();
    assert_eq!(both.counts, vec![(3, 2), (5, 1)]);
    assert_eq!(both.alg_moves, 6);
    assert!(measure(FaceletCube::solved(), solution(), &[3], 3, Mode::Built).is_none());
    assert!(measure(FaceletCube::solved(), solution(), &[9], 1, Mode::Built).is_none());
}

#[test]
fn built_states_keep_the_centers_home() {
    let rec = Recognizer::new(vec![case("f2l-01", CaseSet::F2l, "U R U' R'", RecogKind::F2l)]).unwrap();
    let mut rng = SplitMix64::new(3);
    for count in 1..4 {
        let s = build_backwards(&mut rng, &rec, &[0], count);
        for f in [Face::U, Face::R, Face::F, Face::D, Face::L, Face::B] {
            assert_eq!(s.center(f), f);
        }
    }
}

#[test]
fn no_recognizable_case_gives_no_scramble() {
    let rec = Recognizer::new(vec![case("lbl-sune", CaseSet::Lbl, "R U R' U R U2 R'", RecogKind::Manual)]).unwrap();
    let mut rng = SplitMix64::new(1);
    assert!(practice_scramble(None, &mut rng, &rec, &[0], 2, Mode::Built).is_none());
    assert!(practice_scramble(None, &mut rng, &rec, &[], 2, Mode::Auto).is_none());
}
