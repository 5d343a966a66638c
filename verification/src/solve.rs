//! Solver integration (kewb two-phase) and friendly validation of scanned
//! cubes: fixable scan mistakes (wrong color counts) are told apart from
//! physically impossible cubes.
//!
//! The move/pruning table is decoded once from bytes (`install_table`); the
//! caller keeps it and hands it to the solving functions.

use vstd::prelude::*;
use crate::cubie::{corner_colors_spec, corner_location, edge_colors_spec, edge_location};
use crate::facelet::{
    apply_moves, center_index, centers_home, facelet_string, is_solved_spec, orientation_moves, lemma_facelet_string_round_trip, lemma_trim_without_whitespace, normalize_spec, solved_spec,
    trim_spec, Face, FaceletCube,
};
use crate::moves::{inverse_moves, Alg, Move, Turns};
use crate::table_pack::{decode_spec, try_decode_packed, TableData, TableView};
use crate::table_bytes::{prefixes_fit, table_prefixes_fit};
use crate::table_shape::{kewb_shaped, table_shaped};
use crate::text::{decimal, push_decimal, push_str, white_space};

verus! {

#[verifier::external_type_specification]
#[verifier::external_body]
pub struct ExDataTable(kewb::DataTable);

#[verifier::external_type_specification]
#[verifier::external_body]
pub struct ExCubieCube(kewb::CubieCube);

/// Why a cube description is not a solvable cube.
#[derive(Clone, Debug, PartialEq, Eq)]
pub enum ValidationError {
    /// Not a parseable cube at all (internal).
    BadFaceletString,
    /// Wrong number of stickers per color (a scan mistake): counts in
    /// U R F D L B order, each must be 9.
    ColorCounts([u8; 6]),
    /// The six centers are not six distinct colors.
    CentersNotDistinct,
    /// Some corner/edge has a sticker combination that no real piece has
    /// (e.g. two identical colors on one piece, or opposite colors).
    ImpossiblePiece,
    /// All pieces exist but the cube is unsolvable (twisted corner,
    /// flipped edge or swapped pieces, usually one misread sticker).
    Unsolvable,
}

#[derive(Clone, Debug)]
pub enum SolveError {
    TableNotLoaded,
    Table(String),
    Invalid(ValidationError),
    /// Should not happen for a valid cube: the solver found nothing within
    /// the move bound even at the fallback depth.
    NoSolution,
}

/// Six counts as `[a, b, c, d, e, f]`.
pub open spec fn counts_text(c: Seq<u8>) -> Seq<char> {
    "["@ + decimal(c[0] as nat) + ", "@ + decimal(c[1] as nat) + ", "@ + decimal(c[2] as nat) + ", "@
        + decimal(c[3] as nat) + ", "@ + decimal(c[4] as nat) + ", "@ + decimal(c[5] as nat) + "]"@
}

impl ValidationError {
    /// The human-readable description.
    pub open spec fn text(&self) -> Seq<char> {
        match self {
            ValidationError::BadFaceletString => "not a valid cube description"@,
            ValidationError::ColorCounts(c) => "wrong sticker counts: "@ + counts_text(c@),
            ValidationError::CentersNotDistinct => "center stickers must be 6 colors"@,
            ValidationError::ImpossiblePiece => "a piece has an impossible color combination"@,
            ValidationError::Unsolvable => "cube is unsolvable (twisted corner / flipped edge?)"@,
        }
    }

    /// Human-readable description of the error.
    pub fn to_string(&self) -> (r: String)
        ensures
            r@ == self.text(),
    {
        let mut out = String::new();
        match self {
            ValidationError::BadFaceletString => push_str(&mut out, "not a valid cube description"),
            ValidationError::ColorCounts(c) => {
                push_str(&mut out, "wrong sticker counts: ");
                let t = counts_string(c);
                push_str(&mut out, t.as_str());
            },
            ValidationError::CentersNotDistinct => push_str(&mut out, "center stickers must be 6 colors"),
            ValidationError::ImpossiblePiece => push_str(
                &mut out,
                "a piece has an impossible color combination",
            ),
            ValidationError::Unsolvable => push_str(
                &mut out,
                "cube is unsolvable (twisted corner / flipped edge?)",
            ),
        }
        assert(out@ =~= self.text());
        out
    }
}

/// Six counts as `[a, b, c, d, e, f]`.
fn counts_string(c: &[u8; 6]) -> (r: String)
    ensures
        r@ == counts_text(c@),
{
    let mut out = String::new();
    push_str(&mut out, "[");
    let mut i: usize = 0;
    while i < 6
        invariant
            0 <= i <= 6,
            out@ == "["@ + counts_prefix(c@, i as int),
        decreases 6 - i,
    {
        if i > 0 {
            push_str(&mut out, ", ");
        }
        push_decimal(&mut out, c[i] as u64);
        i += 1;
    }
    push_str(&mut out, "]");
    proof {
        reveal_strlit("[");
        reveal_strlit("]");
        reveal_strlit(", ");
        reveal_with_fuel(counts_prefix, 7);
        assert(out@ =~= counts_text(c@));
    }
    out
}

/// The first `i` counts, separated by `, `.
pub open spec fn counts_prefix(c: Seq<u8>, i: int) -> Seq<char>
    decreases i,
{
    if i <= 0 {
        seq![]
    } else if i == 1 {
        decimal(c[0] as nat)
    } else {
        counts_prefix(c, i - 1) + ", "@ + decimal(c[i - 1] as nat)
    }
}

impl SolveError {
    /// The human-readable description.
    pub open spec fn text(&self) -> Seq<char> {
        match self {
            SolveError::TableNotLoaded => "solver table not loaded yet"@,
            SolveError::Table(e) => "solver table failed to decode: "@ + e@,
            SolveError::Invalid(v) => "invalid cube: "@ + v.text(),
            SolveError::NoSolution => "no solution found within the move bound"@,
        }
    }

    /// Human-readable description of the error.
    pub fn to_string(&self) -> (r: String)
        ensures
            r@ == self.text(),
    {
        let mut out = String::new();
        match self {
            SolveError::TableNotLoaded => push_str(&mut out, "solver table not loaded yet"),
            SolveError::Table(e) => {
                push_str(&mut out, "solver table failed to decode: ");
                push_str(&mut out, e.as_str());
            },
            SolveError::Invalid(v) => {
                push_str(&mut out, "invalid cube: ");
                let t = v.to_string();
                push_str(&mut out, t.as_str());
            },
            SolveError::NoSolution => push_str(&mut out, "no solution found within the move bound"),
        }
        assert(out@ =~= self.text());
        out
    }
}

/// A solver table ready for the search, with the tables it holds.
pub struct SolverTable {
    data: kewb::DataTable,
    contents: Ghost<TableView>,
}

impl SolverTable {
    /// The move and pruning tables the search runs on.
    pub closed spec fn contents(&self) -> TableView {
        self.contents@
    }

    /// The tables have the dimensions the search indexes them with.
    #[verifier::type_invariant]
    closed spec fn shaped(self) -> bool {
        kewb_shaped(self.contents@)
    }
}

/// A cube in the solver's piece representation, with the facelet string
/// it was built from.
pub struct KewbCube {
    cubie: kewb::CubieCube,
    facelets: Ghost<Seq<char>>,
}

impl KewbCube {
    pub closed spec fn facelets(&self) -> Seq<char> {
        self.facelets@
    }
}

/// Name for what `kewb::fs::decode_table` gives for these bytes: the
/// tables, or the error's text.
pub uninterp spec fn bincode_table(bytes: Seq<u8>) -> Result<TableView, Seq<char>>;

/// `kewb::fs::decode_table`: decodes a bincode solver table; its fields are
/// moved into the library's table type and an error is given as its text.
/// Claimed: the result is `bincode_table` of the bytes. Unsaid: which bytes
/// decode and to what. Required: every length prefix fits in the bytes
/// after it, so the decoder never tries to reserve room for more elements
/// than there are bytes (a prefix near `u64::MAX` makes it panic).
#[verifier::external_body]
fn decode_table(bytes: &[u8]) -> (r: Result<TableData, String>)
    requires
        prefixes_fit(bytes@),
    ensures
        r is Ok <==> bincode_table(bytes@) is Ok,
        r matches Ok(t) ==> bincode_table(bytes@)->Ok_0 == t.view_pair() && t.move_tables@.len() == 6
            && t.pruning_tables@.len() == 4,
        r matches Err(e) ==> bincode_table(bytes@)->Err_0 == e@,
{
    let t = kewb::fs::decode_table(bytes).map_err(|e| e.to_string())?;
    let (m, p) = (t.move_table, t.pruning_table);
    Ok(TableData {
        move_tables: vec![m.co, m.eo, m.e_combo, m.cp, m.ep, m.e_ep],
        pruning_tables: vec![p.co_e, p.eo_e, p.cp_e, p.ep_e],
    })
}

/// Builds a `kewb::DataTable` from the tables, each vector moved into the
/// field of the same name (co, eo, e_combo, cp, ep, e_ep; co_e, eo_e, cp_e,
/// ep_e). Claimed: nothing; the value is opaque.
#[verifier::external_body]
fn kewb_data_table(t: TableData) -> (r: kewb::DataTable)
    requires
        t.move_tables@.len() == 6,
        t.pruning_tables@.len() == 4,
{
    let mut m = t.move_tables.into_iter();
    let mut p = t.pruning_tables.into_iter();
    let move_table = kewb::move_table::MoveTable {
        co: m.next().unwrap(), eo: m.next().unwrap(), e_combo: m.next().unwrap(),
        cp: m.next().unwrap(), ep: m.next().unwrap(), e_ep: m.next().unwrap(),
    };
    let pruning_table = kewb::pruning_table::PruningTable {
        co_e: p.next().unwrap(), eo_e: p.next().unwrap(),
        cp_e: p.next().unwrap(), ep_e: p.next().unwrap(),
    };
    kewb::DataTable { move_table, pruning_table }
}

/// The table the search runs on, built from its move and pruning tables.
fn from_tables(t: TableData) -> (r: SolverTable)
    requires
        kewb_shaped(t.view_pair()),
    ensures
        r.contents() == t.view_pair(),
{
    let contents = Ghost(t.view_pair());
    SolverTable { data: kewb_data_table(t), contents }
}

/// Name for whether kewb accepts a facelet string as a cube
/// (`FaceCube::try_from` then `CubieCube::try_from`).
pub uninterp spec fn kewb_accepts(facelets: Seq<char>) -> bool;

/// Every character is one of the six face letters.
pub open spec fn all_face_letters(t: Seq<char>) -> bool {
    forall|i: int| 0 <= i < t.len() ==> (#[trigger] Face::from_letter_spec(t[i])) is Some
}

/// `kewb::FaceCube::try_from(&str)` followed by
/// `kewb::CubieCube::try_from(&FaceCube)`. Claimed: a cube comes back
/// exactly when `kewb_accepts` holds of the string, and kewb accepts only
/// 54 face letters (the first conversion refuses anything else). Unsaid:
/// which letter strings kewb's piece check accepts.
#[verifier::external_body]
fn kewb_cubie(facelets: &str) -> (r: Option<kewb::CubieCube>)
    ensures
        r is Some <==> kewb_accepts(facelets@),
        r is Some ==> facelets@.len() == 54 && all_face_letters(facelets@),
{
    let face = kewb::FaceCube::try_from(facelets).ok()?;
    kewb::CubieCube::try_from(&face).ok()
}

/// One of kewb's move notations: a face letter alone, or followed by `2`
/// or `'`.
pub open spec fn kewb_notation(t: Seq<char>) -> bool {
    &&& 1 <= t.len() <= 2
    &&& Face::from_letter_spec(t[0]) is Some
    &&& t.len() == 2 ==> (t[1] == '2' || t[1] == '\'')
}

/// Name for the move list kewb's two-phase search returns for a table (by
/// its move and pruning tables), a cube (by its facelet string) and a move
/// bound.
pub uninterp spec fn kewb_solution(table: TableView, facelets: Seq<char>, max_length: u8) -> Option<
    Seq<Seq<char>>,
>;

/// `kewb::Solver::new(table, max_length, None)` and `Solver::solve`, with
/// the solution's moves (`Solution::get_all_moves`) as notation. Claimed:
/// the result is `kewb_solution` of the table's contents, the cube's facelets
/// and the bound; a solution has at most `max_length` moves, each in
/// kewb's notation. Unsaid: whether a solution is found, which, and whether
/// it solves the cube (that holds only with kewb's own generated tables and
/// a cube whose centers are home, which the caller checks for itself).
/// Required: the tables have the dimensions the search indexes them with.
#[verifier::external_body]
fn two_phase_solve(table: &SolverTable, state: &KewbCube, max_length: u8) -> (r: Option<
    Vec<String>,
>)
    requires
        kewb_shaped(table.contents()),
    ensures
        match r {
            Some(v) => kewb_solution(table.contents(), state.facelets(), max_length) == Some(
                v@.map_values(|t: String| t@),
            ) && v@.len() <= max_length && forall|i: int|
                0 <= i < v@.len() ==> kewb_notation(#[trigger] v@[i]@),
            None => kewb_solution(table.contents(), state.facelets(), max_length) is None,
        },
{
    let mut solver = kewb::Solver::new(&table.data, max_length, None);
    solver.solve(state.cubie).map(|s| s.get_all_moves().iter().map(|m| m.to_string()).collect())
}

/// `kewb::generators::generate_random_state`, as a facelet string
/// (`FaceCube::try_from(&CubieCube)` and its `Display`). Claimed: 54 face
/// letters; the centers are those of kewb's solved facelet cube, which the
/// conversion starts from and only overwrites at corner and edge facelets;
/// and kewb accepts the string again (the generated state is solvable, and
/// the conversion back recovers it). Unsaid: which state (it is random).
#[verifier::external_body]
fn random_facelets() -> (r: String)
    ensures
        r@.len() == 54,
        all_face_letters(r@),
        r@[4] == 'U' && r@[13] == 'R' && r@[22] == 'F',
        r@[31] == 'D' && r@[40] == 'L' && r@[49] == 'B',
        kewb_accepts(r@),
{
    let cubie = kewb::generators::generate_random_state();
    kewb::FaceCube::try_from(&cubie).expect("generated states are solvable").to_string()
}

/// The faces named by a string of face letters.
pub open spec fn letter_faces(t: Seq<char>) -> Seq<Face> {
    Seq::new(t.len(), |i: int| Face::from_letter_spec(t[i])->0)
}

/// The text given when a length prefix claims more than the bytes hold.
pub open spec fn overlong_text() -> Seq<char> {
    "table length prefix exceeds the data"@
}

/// The text given when the tables do not have the search's dimensions.
pub open spec fn misshaped_text() -> Seq<char> {
    "table dimensions do not match the solver"@
}

/// Decode the solver table (bincode) from bytes. Refused before decoding
/// when a length prefix claims more elements than bytes remain, and after
/// it when the tables do not have the dimensions the search indexes them
/// with.
pub fn install_table(bytes: &[u8]) -> (r: Result<SolverTable, SolveError>)
    ensures
        r is Ok <==> (prefixes_fit(bytes@) && (bincode_table(bytes@) matches Ok(t) && kewb_shaped(t))),
        r matches Ok(t) ==> t.contents() == bincode_table(bytes@)->Ok_0,
        r matches Err(e) ==> e matches SolveError::Table(m) && if !prefixes_fit(bytes@) {
            m@ == overlong_text()
        } else if bincode_table(bytes@) is Err {
            m@ == bincode_table(bytes@)->Err_0
        } else {
            m@ == misshaped_text()
        },
{
    if !table_prefixes_fit(bytes) {
        return Err(SolveError::Table(String::from_str("table length prefix exceeds the data")));
    }
    match decode_table(bytes) {
        Ok(t) => {
            if table_shaped(&t) {
                Ok(from_tables(t))
            } else {
                Err(SolveError::Table(String::from_str("table dimensions do not match the solver")))
            }
        },
        Err(e) => Err(SolveError::Table(e)),
    }
}

/// The text given when a packed table has a pruning section with rows but
/// no columns.
pub open spec fn empty_rows_text() -> Seq<char> {
    "pruning section with rows but no columns"@
}

/// Decode the solver table from the packed format.
pub fn install_packed_table(bytes: &[u8]) -> (r: Result<SolverTable, SolveError>)
    ensures
        r is Ok <==> (decode_spec(bytes@) matches Some(Ok(t)) && kewb_shaped(t)),
        r matches Ok(t) ==> decode_spec(bytes@) == Some(Ok::<TableView, Seq<char>>(t.contents())),
        r matches Err(e) ==> e matches SolveError::Table(m) && match decode_spec(bytes@) {
            Some(Err(text)) => m@ == text,
            None => m@ == empty_rows_text(),
            Some(Ok(_)) => m@ == misshaped_text(),
        },
{
    match try_decode_packed(bytes) {
        Some(Ok(t)) => {
            if table_shaped(&t) {
                Ok(from_tables(t))
            } else {
                Err(SolveError::Table(String::from_str("table dimensions do not match the solver")))
            }
        },
        Some(Err(e)) => Err(SolveError::Table(e)),
        None => Err(SolveError::Table(String::from_str("pruning section with rows but no columns"))),
    }
}

/// Is a solver table installed?
pub fn table_ready(table: Option<&SolverTable>) -> (r: bool)
    ensures
        r == table is Some,
{
    table.is_some()
}

// ------------------------------------------------------------ validation

/// Number of stickers among the first `n` showing color `c`.
pub open spec fn count_upto(s: Seq<Face>, c: Face, n: nat) -> nat
    decreases n,
{
    if n == 0 {
        0
    } else {
        count_upto(s, c, (n - 1) as nat) + if s[n - 1] == c {
            1nat
        } else {
            0nat
        }
    }
}

proof fn lemma_count_bound(s: Seq<Face>, c: Face, n: nat)
    ensures
        count_upto(s, c, n) <= n,
    decreases n,
{
    if n > 0 {
        lemma_count_bound(s, c, (n - 1) as nat);
    }
}

/// Every color shows on exactly nine stickers.
pub open spec fn counts_ok(s: Seq<Face>) -> bool {
    forall|k: int| 0 <= k < 6 ==> count_upto(s, #[trigger] Face::from_ord(k), 54) == 9
}

/// The six centers show six different colors.
pub open spec fn centers_distinct(s: Seq<Face>) -> bool {
    forall|a: int, b: int|
        0 <= a < b < 6 ==> s[9 * a + 4] != #[trigger] s[9 * b + 4] || #[trigger] Face::from_ord(a)
            == Face::from_ord(b)
}

/// Some piece of a solved cube cannot be found among the pieces of `s`.
pub open spec fn missing_piece(s: Seq<Face>) -> bool {
    ||| exists|slot: int|
        0 <= slot < 8 && corner_location(s, #[trigger] corner_colors_spec(solved_spec(), slot))
            is None
    ||| exists|slot: int|
        0 <= slot < 12 && edge_location(s, #[trigger] edge_colors_spec(solved_spec(), slot)) is None
}

/// Diagnosis when the solver rejects a cube's pieces: a missing piece, or
/// else an unsolvable arrangement.
pub open spec fn diagnosis_spec(s: Seq<Face>) -> ValidationError {
    if missing_piece(s) {
        ValidationError::ImpossiblePiece
    } else {
        ValidationError::Unsolvable
    }
}

/// The outcome of validation for a cube whose facelet string the solver
/// does or does not accept.
pub open spec fn validate_spec(s: Seq<Face>, accepted: bool) -> Result<(), ValidationError> {
    if !counts_ok(s) {
        Err(ValidationError::ColorCounts(counts_spec(s)))
    } else if !centers_distinct(s) {
        Err(ValidationError::CentersNotDistinct)
    } else if missing_piece(normalize_spec(s)) {
        Err(ValidationError::ImpossiblePiece)
    } else if accepted {
        Ok(())
    } else {
        Err(diagnosis_spec(normalize_spec(s)))
    }
}

/// Sticker counts per color in U R F D L B order.
pub open spec fn counts_spec(s: Seq<Face>) -> [u8; 6] {
    [
        count_upto(s, Face::U, 54) as u8,
        count_upto(s, Face::R, 54) as u8,
        count_upto(s, Face::F, 54) as u8,
        count_upto(s, Face::D, 54) as u8,
        count_upto(s, Face::L, 54) as u8,
        count_upto(s, Face::B, 54) as u8,
    ]
}

fn color_counts(s: &FaceletCube) -> (counts: [u8; 6])
    ensures
        counts == counts_spec(s@),
        forall|k: int| 0 <= k < 6 ==> #[trigger] counts[k] as nat == count_upto(s@, Face::from_ord(k), 54),
{
    let mut counts = [0u8; 6];
    let mut i: usize = 0;
    while i < 54
        invariant
            0 <= i <= 54,
            s@.len() == 54,
            forall|k: int|
                0 <= k < 6 ==> #[trigger] counts[k] as nat == count_upto(
                    s@,
                    Face::from_ord(k),
                    i as nat,
                ),
        decreases 54 - i,
    {
        let c = s.0[i];
        let k = c.index();
        proof {
            lemma_count_bound(s@, c, i as nat);
            assert(Face::from_ord(k as int) == c);
        }
        counts[k] = counts[k] + 1;
        i += 1;
        proof {
            lemma_count_bound(s@, c, i as nat);
            assert forall|k2: int| 0 <= k2 < 6 implies #[trigger] counts[k2] as nat == count_upto(
                s@,
                Face::from_ord(k2),
                i as nat,
            ) by {
                if k2 != k as int {
                    assert(Face::from_ord(k2) != c);
                }
            }
        }
    }
    proof {
        assert(counts@ =~= counts_spec(s@)@) by {
            assert(counts[0] as nat == count_upto(s@, Face::from_ord(0), 54));
            assert(counts[1] as nat == count_upto(s@, Face::from_ord(1), 54));
            assert(counts[2] as nat == count_upto(s@, Face::from_ord(2), 54));
            assert(counts[3] as nat == count_upto(s@, Face::from_ord(3), 54));
            assert(counts[4] as nat == count_upto(s@, Face::from_ord(4), 54));
            assert(counts[5] as nat == count_upto(s@, Face::from_ord(5), 54));
            lemma_count_bound(s@, Face::U, 54);
            lemma_count_bound(s@, Face::R, 54);
            lemma_count_bound(s@, Face::F, 54);
            lemma_count_bound(s@, Face::D, 54);
            lemma_count_bound(s@, Face::L, 54);
            lemma_count_bound(s@, Face::B, 54);
        }
    }
    counts
}

fn centers_all_distinct(s: &FaceletCube) -> (b: bool)
    ensures
        b == centers_distinct(s@),
{
    let mut a: usize = 0;
    while a < 6
        invariant
            0 <= a <= 6,
            s@.len() == 54,
            forall|x: int, y: int|
                0 <= x < a && x < y < 6 ==> s@[9 * x + 4] != #[trigger] s@[9 * y + 4]
                    || #[trigger] Face::from_ord(x) == Face::from_ord(y),
        decreases 6 - a,
    {
        let mut b: usize = a + 1;
        while b < 6
            invariant
                a < 6,
                a + 1 <= b <= 6,
                s@.len() == 54,
                forall|x: int, y: int|
                    0 <= x < a && x < y < 6 ==> s@[9 * x + 4] != #[trigger] s@[9 * y + 4]
                        || #[trigger] Face::from_ord(x) == Face::from_ord(y),
                forall|y: int|
                    a < y < b ==> s@[9 * a + 4] != #[trigger] s@[9 * y + 4],
            decreases 6 - b,
        {
            if s.0[9 * a + 4] == s.0[9 * b + 4] {
                proof {
                    assert(Face::from_ord(a as int) != Face::from_ord(b as int));
                    assert(!centers_distinct(s@));
                }
                return false;
            }
            b += 1;
        }
        a += 1;
    }
    true
}

/// When the solver rejects the piece structure: check whether every real
/// piece can be located, to give a more precise message.
pub fn piece_level_diagnosis(s: &FaceletCube) -> (e: ValidationError)
    ensures
        e == diagnosis_spec(s@),
{
    let solved = FaceletCube::solved();
    let mut slot: u8 = 0;
    while slot < 8
        invariant
            0 <= slot <= 8,
            solved@ == solved_spec(),
            forall|j: int|
                0 <= j < slot ==> corner_location(s@, #[trigger] corner_colors_spec(solved_spec(), j))
                    is Some,
        decreases 8 - slot,
    {
        let expected = solved.corner_colors(slot);
        if s.locate_corner(expected).is_none() {
            assert(missing_piece(s@));
            return ValidationError::ImpossiblePiece;
        }
        slot += 1;
    }
    let mut slot: u8 = 0;
    while slot < 12
        invariant
            0 <= slot <= 12,
            solved@ == solved_spec(),
            forall|j: int|
                0 <= j < 8 ==> corner_location(s@, #[trigger] corner_colors_spec(solved_spec(), j))
                    is Some,
            forall|j: int|
                0 <= j < slot ==> edge_location(s@, #[trigger] edge_colors_spec(solved_spec(), j))
                    is Some,
        decreases 12 - slot,
    {
        let expected = solved.edge_colors(slot);
        if s.locate_edge(expected).is_none() {
            assert(missing_piece(s@));
            return ValidationError::ImpossiblePiece;
        }
        slot += 1;
    }
    ValidationError::Unsolvable
}

/// Diagnose a cube: color counts, distinct centers and piece existence are
/// checked here (the solver's own piece conversion does not reject a
/// piece with impossible colors), then the solver's acceptance decides
/// between a valid and an unsolvable cube.
pub fn validate(s: &FaceletCube) -> (r: Result<(), ValidationError>)
    ensures
        r == validate_spec(s@, kewb_accepts(facelet_string(normalize_spec(s@)))),
{
    let counts = color_counts(s);
    let mut k: usize = 0;
    while k < 6
        invariant
            0 <= k <= 6,
            counts == counts_spec(s@),
            forall|j: int| 0 <= j < 6 ==> #[trigger] counts[j] as nat == count_upto(s@, Face::from_ord(j), 54),
            forall|j: int| 0 <= j < k ==> count_upto(s@, #[trigger] Face::from_ord(j), 54) == 9,
        decreases 6 - k,
    {
        if counts[k] != 9 {
            proof {
                assert(counts[k as int] as nat == count_upto(s@, Face::from_ord(k as int), 54));
                assert(!counts_ok(s@));
            }
            return Err(ValidationError::ColorCounts(counts));
        }
        assert(counts[k as int] as nat == count_upto(s@, Face::from_ord(k as int), 54));
        k += 1;
    }
    if !centers_all_distinct(s) {
        return Err(ValidationError::CentersNotDistinct);
    }
    let normalized = s.normalize_orientation();
    let d = piece_level_diagnosis(&normalized);
    if let ValidationError::ImpossiblePiece = d {
        return Err(d);
    }
    match to_cubie(s) {
        Ok(_) => Ok(()),
        Err(SolveError::Invalid(e)) => Err(e),
        Err(_) => Err(ValidationError::BadFaceletString),
    }
}

/// The cube in the solver's representation, after bringing its centers
/// home (the solver expects the home orientation).
fn to_cubie(s: &FaceletCube) -> (r: Result<KewbCube, SolveError>)
    ensures
        r is Ok <==> kewb_accepts(facelet_string(normalize_spec(s@))),
        r matches Ok(k) ==> k.facelets() == facelet_string(normalize_spec(s@)),
        r matches Err(e) ==> e == SolveError::Invalid(diagnosis_spec(normalize_spec(s@))),
{
    let normalized = s.normalize_orientation();
    let text = normalized.to_facelet_string();
    match kewb_cubie(text.as_str()) {
        Some(cubie) => Ok(KewbCube { cubie, facelets: Ghost(text@) }),
        None => Err(SolveError::Invalid(piece_level_diagnosis(&normalized))),
    }
}

/// The move a kewb notation names.
pub open spec fn kewb_move_spec(t: Seq<char>) -> Move {
    let f = Face::from_letter_spec(t[0])->0;
    if t.len() == 1 {
        Move::Face(f, Turns::Cw)
    } else if t[1] == '2' {
        Move::Face(f, Turns::Half)
    } else {
        Move::Face(f, Turns::Ccw)
    }
}

/// Moves from kewb's notation: `None` when a token is not one of its
/// eighteen face-move notations.
pub fn alg_from_kewb(moves: &Vec<String>) -> (r: Option<Alg>)
    ensures
        match r {
            Some(a) => (forall|i: int| 0 <= i < moves@.len() ==> kewb_notation(#[trigger] moves@[i]@))
                && a@ == moves@.map_values(|t: String| kewb_move_spec(t@)),
            None => exists|i: int| 0 <= i < moves@.len() && !kewb_notation(#[trigger] moves@[i]@),
        },
{
    let mut out: Vec<Move> = Vec::new();
    let mut i: usize = 0;
    while i < moves.len()
        invariant
            0 <= i <= moves@.len(),
            out@.len() == i,
            forall|j: int| 0 <= j < i ==> kewb_notation(#[trigger] moves@[j]@),
            forall|j: int| 0 <= j < i ==> #[trigger] out@[j] == kewb_move_spec(moves@[j]@),
        decreases moves@.len() - i,
    {
        let t = crate::text::str_chars(moves[i].as_str());
        if t.len() < 1 || t.len() > 2 {
            return None;
        }
        let f = match Face::from_letter(t[0]) {
            Some(f) => f,
            None => {
                return None;
            },
        };
        let m = if t.len() == 1 {
            Move::Face(f, Turns::Cw)
        } else if t[1] == '2' {
            Move::Face(f, Turns::Half)
        } else if t[1] == '\'' {
            Move::Face(f, Turns::Ccw)
        } else {
            return None;
        };
        out.push(m);
        i += 1;
    }
    let a = Alg::new(out);
    assert(a@ =~= moves@.map_values(|t: String| kewb_move_spec(t@)));
    Some(a)
}

/// Outcome of one bounded solver run: the cube's facelet string after
/// orientation normalization decides acceptance, then the table and the
/// search.
pub open spec fn bounded_outcome(
    table: Option<TableView>,
    s: Seq<Face>,
    max_length: u8,
    r: Result<Alg, SolveError>,
) -> bool {
    let f = facelet_string(normalize_spec(s));
    match r {
        Ok(a) => {
            &&& kewb_accepts(f)
            &&& is_solved_spec(apply_moves(normalize_spec(s), a@))
            &&& table matches Some(b) && kewb_solution(b, f, max_length) matches Some(ms) && a@
                == ms.map_values(|t: Seq<char>| kewb_move_spec(t))
            &&& a@.len() <= max_length
        },
        Err(SolveError::Invalid(e)) => !kewb_accepts(f) && e == diagnosis_spec(normalize_spec(s)),
        Err(SolveError::TableNotLoaded) => kewb_accepts(f) && table is None,
        Err(SolveError::NoSolution) => {
            &&& kewb_accepts(f)
            &&& table matches Some(b) && match kewb_solution(b, f, max_length) {
                None => true,
                Some(ms) => !is_solved_spec(
                    apply_moves(normalize_spec(s), ms.map_values(|t: Seq<char>| kewb_move_spec(t))),
                ),
            }
        },
        Err(SolveError::Table(_)) => false,
    }
}

pub open spec fn table_contents(table: Option<&SolverTable>) -> Option<TableView> {
    match table {
        Some(t) => Some(t.contents()),
        None => None,
    }
}

proof fn lemma_normalized_len(s: Seq<Face>)
    requires
        s.len() == 54,
    ensures
        normalize_spec(s).len() == 54,
{
    assert forall|k: int| #[trigger] apply_moves(s, orientation_moves(k)).len() == 54 by {
        crate::facelet::lemma_apply_moves_len(s, orientation_moves(k));
    }
}

/// One solver run with a move bound. A move list that does not solve the
/// orientation-normalized cube (the search only promises solutions with its
/// own tables, and ignores centers) is no solution.
pub fn solve_bounded(table: Option<&SolverTable>, s: &FaceletCube, max_length: u8) -> (r: Result<
    Alg,
    SolveError,
>)
    ensures
        bounded_outcome(table_contents(table), s@, max_length, r),
{
    let state = match to_cubie(s) {
        Ok(k) => k,
        Err(e) => {
            return Err(e);
        },
    };
    let table = match table {
        Some(t) => t,
        None => {
            return Err(SolveError::TableNotLoaded);
        },
    };
    proof {
        use_type_invariant(table);
    }
    match two_phase_solve(table, &state, max_length) {
        None => Err(SolveError::NoSolution),
        Some(v) => match alg_from_kewb(&v) {
            Some(a) => {
                assert(v@.map_values(|t: String| t@).map_values(|t: Seq<char>| kewb_move_spec(t))
                    =~= v@.map_values(|t: String| kewb_move_spec(t@)));
                proof {
                    let n = normalize_spec(s@);
                    lemma_normalized_len(s@);
                    lemma_facelet_string_round_trip(n, n);
                    assert(letter_faces(facelet_string(n)) =~= n);
                }
                let normalized = s.normalize_orientation();
                if normalized.applied_alg(&a).is_solved() {
                    Ok(a)
                } else {
                    Err(SolveError::NoSolution)
                }
            },
            None => {
                assert(false);
                Err(SolveError::NoSolution)
            },
        },
    }
}

/// The outcome of `solve`: the 21-move run, or the 23-move run when the
/// 21-move run found nothing.
pub open spec fn solve_outcome(table: Option<TableView>, s: Seq<Face>, r: Result<Alg, SolveError>) -> bool {
    ||| bounded_outcome(table, s, 21, r) && !(r matches Err(SolveError::NoSolution))
    ||| bounded_outcome(table, s, 21, Err(SolveError::NoSolution)) && bounded_outcome(table, s, 23, r)
}

/// Solve within 21 moves (hard bound); falls back to 23 on the rare miss.
/// The solver runs without a timeout.
pub fn solve(table: Option<&SolverTable>, s: &FaceletCube) -> (r: Result<Alg, SolveError>)
    ensures
        solve_outcome(table_contents(table), s@, r),
        r matches Ok(a) ==> a@.len() <= 23,
{
    match solve_bounded(table, s, 21) {
        Err(SolveError::NoSolution) => solve_bounded(table, s, 23),
        other => other,
    }
}

/// A solved-looking cube whose centers are home is the solved cube.
proof fn lemma_solved_with_home_centers(x: Seq<Face>)
    requires
        x.len() == 54,
        is_solved_spec(x),
        centers_home(x),
    ensures
        x == crate::facelet::solved_spec(),
{
    assert forall|i: int| 0 <= i < 54 implies x[i] == #[trigger] crate::facelet::solved_spec()[i] by {
        let f = crate::facelet::face_of_spec(i);
        assert(x[i] == x[center_index(f)]);
        assert(0 <= f.ord() < 6);
        assert(x[9 * f.ord() + 4] == Face::from_ord(f.ord()));
        crate::facelet::lemma_letter_roundtrip(f);
    }
    assert(x =~= crate::facelet::solved_spec());
}

proof fn lemma_inverse_twice(ms: Seq<Move>)
    ensures
        inverse_moves(inverse_moves(ms)) == ms,
{
    assert forall|i: int| 0 <= i < ms.len() implies #[trigger] inverse_moves(inverse_moves(ms))[i] == ms[i] by {
        let m = ms[i];
        assert(m.inverse_spec().inverse_spec() == m);
    }
    assert(inverse_moves(inverse_moves(ms)) =~= ms);
}

/// A scramble sequence that produces `s` (orientation normalized) from a
/// solved cube: the inverse of a solution. When the normalized cube has
/// its centers home, the scramble applied to the solved cube gives it, and
/// undoing the scramble on it solves it.
pub fn scramble_for(table: Option<&SolverTable>, s: &FaceletCube) -> (r: Result<Alg, SolveError>)
    ensures
        match r {
            Ok(a) => exists|sol: Alg|
                #![trigger inverse_moves(sol@)]
                solve_outcome(table_contents(table), s@, Ok(sol)) && a@ == inverse_moves(sol@),
            Err(e) => solve_outcome(table_contents(table), s@, Err(e)),
        },
        r matches Ok(a) ==> (centers_home(normalize_spec(s@)) ==> {
            &&& apply_moves(crate::facelet::solved_spec(), a@) == normalize_spec(s@)
            &&& is_solved_spec(apply_moves(normalize_spec(s@), inverse_moves(a@)))
        }),
{
    let r = solve(table, s);
    match r {
        Ok(sol) => {
            let a = sol.inverse();
            proof {
                let n = normalize_spec(s@);
                lemma_normalized_len(s@);
                lemma_inverse_twice(sol@);
                if centers_home(n) {
                    let x = apply_moves(n, sol@);
                    crate::facelet::lemma_apply_moves_len(n, sol@);
                    crate::turning::lemma_face_moves_keep_centers(n, sol@);
                    assert(centers_home(x)) by {
                        assert forall|f: int| 0 <= f < 6 implies #[trigger] x[9 * f + 4] == Face::from_ord(f) by {
                            assert(x[9 * f + 4] == n[9 * f + 4]);
                        }
                    }
                    lemma_solved_with_home_centers(x);
                    crate::facelet::lemma_alg_then_inverse(n, sol@);
                }
            }
            Ok(a)
        },
        Err(e) => Err(e),
    }
}

/// A uniformly random solvable state (WCA-style random state).
pub fn random_state() -> (r: FaceletCube)
    ensures
        r@.len() == 54,
        centers_home(r@),
        kewb_accepts(facelet_string(normalize_spec(r@))),
{
    let text = random_facelets();
    proof {
        assert forall|i: int| 0 <= i < text@.len() implies !white_space(#[trigger] text@[i]) by {
            assert(Face::from_letter_spec(text@[i]) is Some);
        }
        lemma_trim_without_whitespace(text@);
    }
    match FaceletCube::from_facelet_string(text.as_str()) {
        Ok(c) => {
            proof {
                assert(trim_spec(text@) == text@);
                lemma_facelet_string_round_trip(c@, c@);
                assert forall|f: int| 0 <= f < 6 implies #[trigger] c@[9 * f + 4] == Face::from_ord(f) by {
                    assert(Face::from_letter_spec(facelet_string(c@)[9 * f + 4]) == Some(c@[9 * f + 4]));
                }
                assert(normalize_spec(c@) == c@);
            }
            c
        },
        Err(_) => {
            proof {
                assert(trim_spec(text@) == text@);
                let i = choose|i: int| 0 <= i < 54 && Face::from_letter_spec(#[trigger] text@[i]) is None;
                assert(Face::from_letter_spec(text@[i]) is Some);
            }
            FaceletCube::solved()
        },
    }
}

} // verus!
