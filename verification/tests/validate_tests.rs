//! Validation of scanned cubes: scan mistakes against impossible cubes.

use cube_core::{validate, Alg, FaceletCube, Move, RotAxis, SolveError, Turns, ValidationError};

#[test]
fn solved_and_scrambled_are_valid() {
    assert_eq!(validate(&FaceletCube::solved()), Ok(()));
    let s = FaceletCube::solved().applied_alg(&Alg::parse("R U F' L2 D B'").unwrap());
    assert_eq!(validate(&s), Ok(()));
}

#[test]
fn single_sticker_swap_is_caught() {
    // Swapping two stickers of different colors breaks color counts or
    // solvability, never passes.
    let mut s = FaceletCube::solved();
    s.0.swap(0, 9); // a U sticker with an R sticker
    assert!(validate(&s).is_err());
}

#[test]
fn flipped_edge_is_unsolvable() {
    // Swap the two stickers of the UF edge (U8 = index 7, F2 = index 19):
    // every piece still exists, but the flip sum breaks.
    let mut flipped = FaceletCube::solved();
    flipped.0.swap(7, 19);
    assert_eq!(validate(&flipped), Err(ValidationError::Unsolvable));
}

#[test]
fn missing_piece_is_impossible() {
    // Swap the R sticker of the URF corner (R1 = index 9) with the L sticker
    // of the ULB corner (L1 = index 36): color counts stay 9 each, but the
    // {U,R,F} piece no longer exists anywhere.
    let mut s = FaceletCube::solved();
    s.0.swap(9, 36);
    assert_eq!(validate(&s), Err(ValidationError::ImpossiblePiece));
}

#[test]
fn rotated_solved_cube_validates() {
    let s = FaceletCube::solved().applied(Move::Rot(RotAxis::X, Turns::Cw));
    assert_eq!(validate(&s), Ok(()));
}

#[test]
fn wrong_color_counts_are_reported_with_the_counts() {
    let mut s = FaceletCube::solved();
    s.0[0] = cube_core::Face::R; // one U sticker painted red
    assert_eq!(validate(&s), Err(ValidationError::ColorCounts([8, 10, 9, 9, 9, 9])));
}

#[test]
fn duplicate_centers_are_reported() {
    let mut s = FaceletCube::solved();
    // Swap the U center with an R edge sticker, then the R center with a U
    // edge sticker: counts stay nine each but two centers share a color.
    s.0.swap(4, 10);
    assert_eq!(validate(&s), Err(ValidationError::CentersNotDistinct));
}

#[test]
fn error_texts_match_their_descriptions() {
    let counts = cube_core::ValidationError::ColorCounts([8, 9, 10, 9, 9, 9]);
    assert_eq!(counts.to_string(), "wrong sticker counts: [8, 9, 10, 9, 9, 9]");
    assert_eq!(
        SolveError::Invalid(cube_core::ValidationError::Unsolvable).to_string(),
        "invalid cube: cube is unsolvable (twisted corner / flipped edge?)"
    );
    assert_eq!(SolveError::TableNotLoaded.to_string(), "solver table not loaded yet");
    assert_eq!(SolveError::NoSolution.to_string(), "no solution found within the move bound");
    assert_eq!(SolveError::Table("x".to_string()).to_string(), "solver table failed to decode: x");
}
