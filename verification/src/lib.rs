//! Verified Rubik's cube model: facelet state, geometrically derived move
//! permutations, move notation, case recognition and the solving helpers
//! built on top of them.

pub mod capture;
pub mod cases;
pub mod cross;
pub mod csv;
pub mod cubie;
pub mod dump;
pub mod facelet;
pub mod frames;
pub mod guide;
pub mod geometry;
pub mod hints;
pub mod lang;
pub mod library;
pub mod moves;
pub mod my_way;
pub mod notation;
pub mod practice;
pub mod practice_scramble;
pub mod render;
pub mod resolve;
pub mod rng;
pub mod solve;
pub mod store;
pub mod table_bytes;
pub mod table_pack;
pub mod table_shape;
pub mod text;
pub mod training;
pub mod turning;
pub mod ui;

pub use cases::{CaseDef, CaseSet, LibraryError, Match, RecogKind, Recognizer};
pub use facelet::{face_of, sticker_index, Color, Face, FaceletCube, ParseStateError};
pub use moves::{Alg, Move, RotAxis, SliceKind, Turns};
pub use notation::ParseError;
pub use rng::SplitMix64;
pub use solve::{
    install_table, random_state, scramble_for, solve, table_ready, validate, SolveError,
    SolverTable, ValidationError,
};
pub use hints::{solve_with_hints, GuidedSolution, HintAt, Segment, SolveOutput};
