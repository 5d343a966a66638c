//! Cross micro-solver, hint costs and scan relabeling.

use cube_core::cross::solve_cross;
use cube_core::hints::{ergonomic_cost, filler_ergo, frame_regrip_cost, junction_cost};
use cube_core::resolve::{relabel_to_standard, search, MAX_CHECKS};
use cube_core::{random_state, validate, Alg, Face, FaceletCube, Move, SplitMix64, Turns};

#[test]
fn cross_solves_random_scrambles_short() {
    let mut rng = SplitMix64::new(9);
    for round in 0..40 {
        let mut s = FaceletCube::solved();
        for _ in 0..20 {
            s.apply(Move::from_index(rng.below(18) as usize));
        }
        let alg = solve_cross(&s).unwrap_or_else(|| panic!("round {round}: no cross"));
        assert!(alg.0.len() <= 9, "round {round}: {} moves", alg.0.len());
        let done = s.applied_alg(&alg);
        // All four cross edges home, oriented.
        for f in [Face::F, Face::R, Face::B, Face::L] {
            let pair = [done.center(Face::D), done.center(f)];
            let (slot, ori) = done.locate_edge(pair).unwrap();
            let home = FaceletCube::solved().locate_edge([Face::D, f]).unwrap();
            assert_eq!((slot, ori), home, "round {round}: {f:?} edge");
        }
    }
}

#[test]
fn ergonomic_cost_orders_paths_like_a_hand_would() {
    let cost = |s: &str| ergonomic_cost(&Alg::parse(s).unwrap());
    // Same move count, different hands: R/U flow beats B/D grinding.
    assert!(cost("R U R' U'") < cost("B D B' D'"));
    // Half turns cost more than quarters, less than two moves.
    assert!(cost("R2") > cost("R") && cost("R2") < cost("R R"));
    // A rotation costs something (regrip) even though no pieces move.
    assert!(cost("y") > 0);
    // Filler weighting: identical moves cost more as unpracticed filler.
    let alg = Alg::parse("R U R' U'").unwrap();
    assert!(filler_ergo(&alg) > ergonomic_cost(&alg));
    // Off-frame matches cost a regrip, symmetric around the cube.
    assert_eq!(frame_regrip_cost(0), 0);
    assert_eq!(frame_regrip_cost(1), frame_regrip_cost(3));
    assert!(frame_regrip_cost(2) > frame_regrip_cost(1));
}

#[test]
fn junction_costs_model_seams_hints() {
    let m = |f, t| Move::Face(f, t);
    // Full cancellation (R' | R): strongly negative, both moves vanish.
    let cancel = junction_cost(Some(m(Face::R, Turns::Ccw)), Some(m(Face::R, Turns::Cw)));
    assert!(cancel < -15, "full cancel should refund both moves, got {cancel}");
    // Merge (R | R -> R2): refunds part of the pair.
    let merge = junction_cost(Some(m(Face::R, Turns::Cw)), Some(m(Face::R, Turns::Cw)));
    assert!(merge < 0 && merge > cancel, "merge refunds less than full cancel");
    // B at the seam is a regrip; R->U flows free.
    assert!(junction_cost(Some(m(Face::F, Turns::Cw)), Some(m(Face::B, Turns::Cw))) > 0);
    assert_eq!(junction_cost(Some(m(Face::R, Turns::Cw)), Some(m(Face::U, Turns::Cw))), 0);
    // Open seams cost nothing.
    assert_eq!(junction_cost(None, Some(m(Face::R, Turns::Cw))), 0);
}

#[test]
fn exact_costs_of_single_moves() {
    assert_eq!(ergonomic_cost(&Alg::parse("R").unwrap()), 10);
    assert_eq!(ergonomic_cost(&Alg::parse("B2").unwrap()), 24);
    assert_eq!(ergonomic_cost(&Alg::parse("M").unwrap()), 15);
    assert_eq!(filler_ergo(&Alg::parse("R U").unwrap()), 25);
    // R' | R: merged 0 minus 10 + 10.
    assert_eq!(junction_cost(Some(Move::Face(Face::R, Turns::Ccw)), Some(Move::Face(Face::R, Turns::Cw))), -20);
    // D after F: wrist turn.
    assert_eq!(junction_cost(Some(Move::Face(Face::F, Turns::Cw)), Some(Move::Face(Face::D, Turns::Cw))), 3);
}

#[test]
fn relabel_puts_every_class_on_its_standard_face() {
    // Physical mapping from a real scan: capture-order faces carry classes
    // F=red R=green B=orange D=white L=blue U=yellow.
    let class_of_face = [1usize, 4, 2, 0, 5, 3]; // indexed U R F D L B
    // A scrambled cube in capture-order labels.
    let cube = FaceletCube::solved().applied_alg(&Alg::parse("R U F2 L' D B U2 R' F D2 L").unwrap());
    let std = relabel_to_standard(&cube, &class_of_face).expect("standard scheme");
    // Centers canonical and each face now carries its standard class.
    for f in 0..6 {
        assert_eq!(std.0[f * 9 + 4].index(), f, "center {f}");
    }
    assert!(validate(&std).is_ok(), "relabeling must stay legal");
    // Identity mapping: nothing to do, cube unchanged.
    let identity = [0usize, 2, 4, 1, 3, 5];
    assert_eq!(relabel_to_standard(&cube, &identity), Some(cube));
}

#[test]
fn mirrored_schemes_are_not_relabeled() {
    // Two faces claiming the same class: no rotation can make it standard.
    let class_of_face = [0usize, 0, 4, 1, 3, 5];
    assert_eq!(relabel_to_standard(&FaceletCube::solved(), &class_of_face), None);
}

#[test]
fn random_states_are_valid_with_centers_home() {
    for round in 0..20 {
        let s = random_state();
        for f in [Face::U, Face::R, Face::F, Face::D, Face::L, Face::B] {
            assert_eq!(s.center(f), f, "round {round}");
        }
        assert_eq!(validate(&s), Ok(()), "round {round}");
    }
}

#[test]
fn cross_already_home_needs_no_moves() {
    // Only the upper layers are disturbed: the cross is home, the answer empty.
    let home = FaceletCube::solved().applied_alg(&Alg::parse("R U R' U' U").unwrap());
    assert_eq!(solve_cross(&home), Some(Alg::new(Vec::new())));
    assert_eq!(solve_cross(&FaceletCube::solved()), Some(Alg::new(Vec::new())));
}

#[test]
fn cross_one_turn_from_home_is_undone_by_one_turn() {
    let s = FaceletCube::solved().applied(Move::Face(Face::F, Turns::Cw));
    assert_eq!(solve_cross(&s), Some(Alg::new(vec![Move::Face(Face::F, Turns::Ccw)])));
}

#[test]
fn moves_keep_every_color_count() {
    let mut rng = SplitMix64::new(21);
    let mut s = FaceletCube::solved();
    for _ in 0..30 {
        s.apply(Move::from_index(rng.below(18) as usize));
        for c in [Face::U, Face::R, Face::F, Face::D, Face::L, Face::B] {
            assert_eq!(s.0.iter().filter(|&&x| x == c).count(), 9);
        }
    }
    let t = s.applied_alg(&Alg::parse("Rw M' x y2 E S z'").unwrap());
    for c in [Face::U, Face::R, Face::F, Face::D, Face::L, Face::B] {
        assert_eq!(t.0.iter().filter(|&&x| x == c).count(), 9);
    }
}

#[test]
fn resolver_search_completes_or_proves_nothing_fits() {
    let base = FaceletCube::solved();
    let mut ranked: Vec<Vec<Face>> = vec![Vec::new(); 54];
    ranked[0] = vec![Face::R];
    let widths = [2usize; 54];
    let mut checks = 0usize;
    // Only a wrong color is offered for the free cell: nothing fits.
    assert_eq!(search(&base, &[0], &ranked, &widths, &mut checks), None);
    assert!(checks < MAX_CHECKS);
    // With the right color second in line the solved cube comes back.
    ranked[0] = vec![Face::R, Face::U];
    let mut checks = 0usize;
    assert_eq!(search(&base, &[0], &ranked, &widths, &mut checks), Some(base));
}
