//! Case recognition for algorithm training and hints.
//!
//! Each case is defined only by its algorithm: the recognition pattern is
//! derived at load time by applying the algorithm's inverse to a solved
//! cube. Bad data in the algorithm library therefore fails loudly here
//! (pattern collisions, wrong-stage algorithms) instead of silently
//! misrecognizing.
//!
//! Matching is invariant to AUF (U-face pre-rotation): all four U-shifted
//! patterns are pre-inserted. Where it applies it is also invariant to
//! whole-cube y rotation (PLL via a face-relative key, F2L by probing the
//! four y frames).

use vstd::prelude::*;
use std::collections::HashMap;
use crate::cubie::{corner_location, edge_location};
use crate::facelet::{
    apply_move, apply_moves, center_index, face_of, face_of_spec, is_f2l_minus_fr_solved_spec,
    is_f2l_solved_spec, is_oll_done_spec, is_solved_spec, normalize_spec, rotate_u_spec,
    rotate_y_spec, solved_spec, Face, FaceletCube,
};
use crate::moves::{inverse_moves, relabel_y_moves, Alg, Move, Turns};
use crate::rng::{mix64, SplitMix64, GOLDEN_GAMMA};
use crate::text::push_str;

verus! {

broadcast use vstd::std_specs::hash::group_hash_axioms;

#[derive(Clone, Copy, PartialEq, Eq, Structural, Hash, Debug)]
pub enum CaseSet {
    Pll,
    Oll,
    F2l,
    Lbl,
}

#[derive(Clone, Copy, PartialEq, Eq, Structural, Debug)]
pub enum RecogKind {
    Oll,
    Pll,
    F2l,
    /// Playback/drill only: no automatic recognition (some LBL steps).
    Manual,
}

#[derive(Clone, Debug)]
pub struct CaseDef {
    /// Stable id, e.g. "pll-t".
    pub id: String,
    pub set: CaseSet,
    /// Human name, e.g. "T-Perm".
    pub name: String,
    /// Grouping label for pickers, e.g. "adjacent swap".
    pub group: String,
    pub alg: Alg,
    pub recognition: RecogKind,
}

#[derive(Clone, Debug)]
pub enum LibraryError {
    /// The algorithm does not produce a state of the claimed kind
    /// (e.g. an "OLL" alg that scrambles F2L).
    BadAlg { id: String, reason: String },
    /// Two different cases produce the same recognition pattern.
    Collision { a: String, b: String },
}

impl LibraryError {
    /// Human-readable description of the error.
    pub fn to_string(&self) -> (r: String)
        ensures
            r@ == match self {
                LibraryError::BadAlg { id, reason } => "bad algorithm '"@ + id@ + "': "@
                    + reason@,
                LibraryError::Collision { a, b } => "cases '"@ + a@ + "' and '"@ + b@
                    + "' are indistinguishable"@,
            },
    {
        let mut out = String::new();
        match self {
            LibraryError::BadAlg { id, reason } => {
                push_str(&mut out, "bad algorithm '");
                push_str(&mut out, id.as_str());
                push_str(&mut out, "': ");
                push_str(&mut out, reason.as_str());
            },
            LibraryError::Collision { a, b } => {
                push_str(&mut out, "cases '");
                push_str(&mut out, a.as_str());
                push_str(&mut out, "' and '");
                push_str(&mut out, b.as_str());
                push_str(&mut out, "' are indistinguishable");
            },
        }
        out
    }
}

/// A recognized case at a concrete state.
#[derive(Clone, Copy, PartialEq, Eq, Structural, Debug)]
pub struct Match {
    /// Index into the `Recognizer`'s case list.
    pub case_idx: u16,
    /// Number of clockwise U quarter-turns to perform before the algorithm.
    pub pre_auf: u8,
    /// Whole-cube y frame the case was seen in (0..4). Execute with
    /// `Recognizer::execution_alg`, which folds this in.
    pub y_frame: u8,
}

/// The 21 last-layer sticker positions: U face, then the top rows of
/// F, R, B, L.
pub open spec fn ll21(k: int) -> int {
    if k < 9 {
        k
    } else if k < 12 {
        k + 9
    } else if k < 15 {
        k - 3
    } else if k < 18 {
        k + 30
    } else {
        k + 18
    }
}

fn ll21_exec(k: usize) -> (i: usize)
    requires
        k < 21,
    ensures
        i as int == ll21(k as int),
        i < 54,
{
    if k < 9 {
        k
    } else if k < 12 {
        k + 9
    } else if k < 15 {
        k - 3
    } else if k < 18 {
        k + 30
    } else {
        k + 18
    }
}

pub open spec fn p2(n: nat) -> nat
    decreases n,
{
    if n == 0 {
        1
    } else {
        2 * p2((n - 1) as nat)
    }
}

pub open spec fn p4(n: nat) -> nat
    decreases n,
{
    if n == 0 {
        1
    } else {
        4 * p4((n - 1) as nat)
    }
}

pub proof fn lemma_p2_mono(n: nat, m: nat)
    requires
        n <= m,
    ensures
        p2(n) <= p2(m),
    decreases m,
{
    if n < m {
        lemma_p2_mono(n, (m - 1) as nat);
    }
}

proof fn lemma_p4_mono(n: nat, m: nat)
    requires
        n <= m,
    ensures
        p4(n) <= p4(m),
    decreases m,
{
    if n < m {
        lemma_p4_mono(n, (m - 1) as nat);
    }
}

/// Bits of the first `n` last-layer positions showing the U center color.
pub open spec fn oll_bits(s: Seq<Face>, n: nat) -> nat
    decreases n,
{
    if n == 0 {
        0
    } else {
        oll_bits(s, (n - 1) as nat) + if s[ll21(n - 1)] == s[4] {
            p2((n - 1) as nat)
        } else {
            0
        }
    }
}

proof fn lemma_oll_bits_bound(s: Seq<Face>, n: nat)
    ensures
        oll_bits(s, n) < p2(n),
    decreases n,
{
    if n > 0 {
        lemma_oll_bits_bound(s, (n - 1) as nat);
    }
}

/// Orientation pattern of the last layer: bit `k` is set when last-layer
/// position `k` shows the U center's color.
pub open spec fn oll_pattern_spec(s: Seq<Face>) -> u32 {
    oll_bits(s, 21) as u32
}

fn oll_pattern(s: &FaceletCube) -> (r: u32)
    ensures
        r == oll_pattern_spec(s@),
        r as nat == oll_bits(s@, 21),
{
    let u = s.center(Face::U);
    let mut bits: u32 = 0;
    let mut bit: u32 = 1;
    let mut k: usize = 0;
    proof {
        assert(p2(21) == 2097152) by {
            reveal_with_fuel(p2, 22);
        }
    }
    while k < 21
        invariant
            0 <= k <= 21,
            u == s@[4],
            bits as nat == oll_bits(s@, k as nat),
            bit as nat == p2(k as nat),
            p2(21) == 2097152,
        decreases 21 - k,
    {
        proof {
            lemma_oll_bits_bound(s@, k as nat);
            lemma_p2_mono(k as nat + 1, 21);
        }
        if s.0[ll21_exec(k)] == u {
            bits = bits + bit;
        }
        bit = bit * 2;
        k += 1;
    }
    bits
}

/// Side order following the y cycle (F, L, B, R): used for the
/// y-invariant PLL key.
pub open spec fn side_idx_spec(f: Face) -> Option<int> {
    match f {
        Face::F => Some(0),
        Face::L => Some(1),
        Face::B => Some(2),
        Face::R => Some(3),
        _ => None,
    }
}

fn side_idx(f: Face) -> (r: Option<u32>)
    ensures
        match r {
            Some(v) => side_idx_spec(f) == Some(v as int) && v < 4,
            None => side_idx_spec(f) is None,
        },
{
    match f {
        Face::F => Some(0),
        Face::L => Some(1),
        Face::B => Some(2),
        Face::R => Some(3),
        _ => None,
    }
}

/// Facelet of the `k`-th side sticker of the last layer (0..12).
pub open spec fn pll_pos(k: int) -> int {
    ll21(9 + k)
}

/// Face-relative side digit of the `k`-th last-layer side sticker.
pub open spec fn pll_digit(s: Seq<Face>, k: int) -> int {
    let c = side_idx_spec(s[pll_pos(k)])->0;
    let f = side_idx_spec(face_of_spec(pll_pos(k)))->0;
    (c + 4 - f) % 4
}

pub open spec fn pll_sides(s: Seq<Face>, n: int) -> bool {
    forall|k: int| 0 <= k < n ==> (#[trigger] side_idx_spec(s[pll_pos(k)])) is Some
}

pub open spec fn pll_acc(s: Seq<Face>, n: nat) -> nat
    decreases n,
{
    if n == 0 {
        0
    } else {
        pll_acc(s, (n - 1) as nat) + (pll_digit(s, n - 1) as nat) * p4((n - 1) as nat)
    }
}

proof fn lemma_pll_acc_bound(s: Seq<Face>, n: nat)
    ensures
        pll_acc(s, n) < p4(n),
    decreases n,
{
    if n > 0 {
        lemma_pll_acc_bound(s, (n - 1) as nat);
        let d = pll_digit(s, n - 1) as nat;
        assert(d <= 3);
        assert(d * p4((n - 1) as nat) <= 3 * p4((n - 1) as nat)) by (nonlinear_arith)
            requires
                d <= 3,
        ;
    }
}

/// The 12 side stickers of the last layer as base-4 digits, each the
/// color's side index relative to the face it sits on. `None` when any of
/// them is not a side color (the last layer is not oriented).
pub open spec fn pll_key_spec(s: Seq<Face>) -> Option<u32> {
    if pll_sides(s, 12) {
        Some(pll_acc(s, 12) as u32)
    } else {
        None
    }
}

fn pll_key(s: &FaceletCube) -> (r: Option<u32>)
    ensures
        r == pll_key_spec(s@),
{
    let mut key: u32 = 0;
    let mut mult: u32 = 1;
    let mut k: usize = 0;
    proof {
        assert(p4(12) == 16777216) by {
            reveal_with_fuel(p4, 13);
        }
    }
    while k < 12
        invariant
            0 <= k <= 12,
            key as nat == pll_acc(s@, k as nat),
            mult as nat == p4(k as nat),
            pll_sides(s@, k as int),
            p4(12) == 16777216,
        decreases 12 - k,
    {
        proof {
            lemma_pll_acc_bound(s@, k as nat + 1);
            lemma_p4_mono(k as nat + 1, 12);
        }
        let i = ll21_exec(9 + k);
        match side_idx(s.0[i]) {
            None => {
                return None;
            },
            Some(color) => {
                let face = match side_idx(face_of(i)) {
                    Some(v) => v,
                    None => {
                        assert(false);
                        0
                    },
                };
                let digit = (color + 4 - face) % 4;
                assert(digit * mult <= 3 * mult) by (nonlinear_arith)
                    requires
                        digit <= 3,
                ;
                key = key + digit * mult;
                mult = mult * 4;
            },
        }
        k += 1;
    }
    Some(key)
}

/// Piece-level key for the FR-slot F2L pair in a y-normalized state:
/// locations and orientations of the corner with the D, F and R center
/// colors and the edge with the F and R center colors.
pub open spec fn f2l_key_spec(s: Seq<Face>) -> Option<u16> {
    let d = s[center_index(Face::D)];
    let f = s[center_index(Face::F)];
    let r = s[center_index(Face::R)];
    match (corner_location(s, seq![d, f, r]), edge_location(s, seq![f, r])) {
        (Some((cs, co)), Some((es, eo))) => Some((cs + co * 8 + es * 32 + eo * 512) as u16),
        _ => None,
    }
}

#[verifier::rlimit(40)]
fn f2l_key(s: &FaceletCube) -> (r: Option<u16>)
    ensures
        r == f2l_key_spec(s@),
{
    let d = s.center(Face::D);
    let f = s.center(Face::F);
    let r = s.center(Face::R);
    let corner = [d, f, r];
    let edge = [f, r];
    assert(corner@ =~= seq![d, f, r]);
    assert(edge@ =~= seq![f, r]);
    let (cs, co) = match s.locate_corner(corner) {
        Some(l) => l,
        None => {
            return None;
        },
    };
    let (es, eo) = match s.locate_edge(edge) {
        Some(l) => l,
        None => {
            return None;
        },
    };
    Some((cs as u16) + (co as u16) * 8 + (es as u16) * 32 + (eo as u16) * 512)
}

/// Net whole-cube rotation of an algorithm applied to a solved cube, when
/// it is a pure y rotation: the number of y quarter-turns the cube ends up
/// rotated by. `None` when the net rotation tilts the cube.
pub open spec fn net_y_spec(alg: Seq<Move>) -> Option<int> {
    let t = apply_moves(solved_spec(), alg);
    if t[center_index(Face::U)] != Face::U || t[center_index(Face::D)] != Face::D {
        None
    } else if t[center_index(Face::F)] == Face::F {
        Some(0)
    } else if t[center_index(Face::L)] == Face::F {
        Some(1)
    } else if t[center_index(Face::B)] == Face::F {
        Some(2)
    } else if t[center_index(Face::R)] == Face::F {
        Some(3)
    } else {
        None
    }
}

fn net_y_rotation(alg: &Alg) -> (r: Option<u8>)
    ensures
        match r {
            Some(k) => net_y_spec(alg@) == Some(k as int) && k < 4,
            None => net_y_spec(alg@) is None,
        },
{
    let t = FaceletCube::solved().applied_alg(alg);
    if t.center(Face::U) != Face::U || t.center(Face::D) != Face::D {
        return None;
    }
    if t.center(Face::F) == Face::F {
        Some(0)
    } else if t.center(Face::L) == Face::F {
        Some(1)
    } else if t.center(Face::B) == Face::F {
        Some(2)
    } else if t.center(Face::R) == Face::F {
        Some(3)
    } else {
        None
    }
}

/// `k` clockwise U quarter-turns applied one by one.
pub open spec fn u_cw_times(s: Seq<Face>, k: nat) -> Seq<Face>
    decreases k,
{
    if k == 0 {
        s
    } else {
        apply_move(u_cw_times(s, (k - 1) as nat), Move::Face(Face::U, Turns::Cw))
    }
}

/// A case's canonical state for final AUF `a`: the inverse algorithm
/// applied to a solved cube turned `a` times at U, centers brought home.
#[verifier::opaque]
pub open spec fn canonical_spec(alg: Seq<Move>, a: int) -> Seq<Face> {
    normalize_spec(apply_moves(rotate_u_spec(solved_spec(), a), inverse_moves(alg)))
}

/// The canonical state for final AUF `a`, seen after `k` U quarter-turns.
pub open spec fn shifted(alg: Seq<Move>, a: int, k: int) -> Seq<Face> {
    u_cw_times(canonical_spec(alg, a), k as nat)
}

/// The stage a canonical state must be in for the case's recognition kind.
pub open spec fn stage_ok(kind: RecogKind, c: Seq<Face>) -> bool {
    match kind {
        RecogKind::Oll => is_f2l_solved_spec(c) && !is_oll_done_spec(c),
        RecogKind::Pll => is_f2l_solved_spec(c) && is_oll_done_spec(c) && !is_solved_spec(c),
        RecogKind::F2l => is_f2l_minus_fr_solved_spec(c),
        RecogKind::Manual => true,
    }
}

/// Recognition key of a state for a recognition kind.
#[verifier::opaque]
pub open spec fn key_spec(kind: RecogKind, s: Seq<Face>) -> Option<int> {
    match kind {
        RecogKind::Oll => Some(oll_pattern_spec(s) as int),
        RecogKind::Pll => match pll_key_spec(s) {
            Some(k) => Some(k as int),
            None => None,
        },
        RecogKind::F2l => match f2l_key_spec(s) {
            Some(k) => Some(k as int),
            None => None,
        },
        RecogKind::Manual => None,
    }
}

/// Key of the canonical state for final AUF `a` seen after `k` U turns.
#[verifier::opaque]
pub open spec fn case_key(def: CaseDef, a: int, k: int) -> Option<int> {
    key_spec(def.recognition, shifted(def.alg@, a, k))
}

/// The library checks a case passes: its algorithm's net rotation is a y
/// rotation, every canonical state is at the right stage, and every
/// U-shifted canonical state has a recognition key.
pub open spec fn case_ok(def: CaseDef) -> bool {
    &&& net_y_spec(def.alg@) is Some
    &&& forall|a: int| 0 <= a < 4 ==> stage_ok(def.recognition, #[trigger] canonical_spec(def.alg@, a))
    &&& def.recognition != RecogKind::Manual ==> forall|a: int, k: int|
        0 <= a < 4 && 0 <= k < 4 ==> (#[trigger] case_key(def, a, k)) is Some
}

/// Two cases of the same recognition kind share a recognition key.
pub open spec fn cases_collide(d1: CaseDef, d2: CaseDef) -> bool {
    &&& d1.recognition == d2.recognition
    &&& d1.recognition != RecogKind::Manual
    &&& exists|a1: int, k1: int, a2: int, k2: int|
        0 <= a1 < 4 && 0 <= k1 < 4 && 0 <= a2 < 4 && 0 <= k2 < 4 && (#[trigger] case_key(d1, a1, k1))
            is Some && #[trigger] case_key(d1, a1, k1) == #[trigger] case_key(d2, a2, k2)
}

/// A library the recognizer accepts: every case passes its checks and no
/// two cases share a recognition key.
pub open spec fn library_ok(lib: Seq<CaseDef>) -> bool {
    &&& forall|i: int| 0 <= i < lib.len() ==> case_ok(#[trigger] lib[i])
    &&& forall|i: int, j: int|
        0 <= i < j < lib.len() ==> !cases_collide(#[trigger] lib[i], #[trigger] lib[j])
}

/// Case `n` is the first that the library cannot take: the cases before it
/// form an accepted library, and adding it breaks that.
pub open spec fn first_failure(lib: Seq<CaseDef>, n: int) -> bool {
    &&& 0 <= n < lib.len()
    &&& library_ok(lib.take(n))
    &&& !library_ok(lib.take(n + 1))
}

/// What the recognizer answers a library it refuses: the first case it
/// cannot take, as a bad algorithm or as a collision with an earlier case.
pub open spec fn reports(lib: Seq<CaseDef>, e: LibraryError) -> bool {
    match e {
        LibraryError::BadAlg { id, .. } => exists|n: int|
            first_failure(lib, n) && #[trigger] lib[n].id == id && !case_ok(lib[n]),
        LibraryError::Collision { a, b } => exists|i: int, n: int|
            first_failure(lib, n) && 0 <= i < n && #[trigger] lib[i].id == a && #[trigger] lib[n].id
                == b && cases_collide(lib[i], lib[n]),
    }
}

/// `p` clockwise U turns before the case's algorithm fit a state with this
/// key: some canonical state seen after `(4 - p) % 4` U turns has it.
pub open spec fn pre_auf_fits(def: CaseDef, key: int, p: int) -> bool {
    exists|a: int| 0 <= a < 4 && #[trigger] case_key(def, a, (4 - p) % 4) == Some(key)
}

/// Recognition key of a state, as the recognizer tables store it.
fn key_of(kind: RecogKind, s: &FaceletCube) -> (r: Option<u32>)
    ensures
        match r {
            Some(k) => key_spec(kind, s@) == Some(k as int),
            None => key_spec(kind, s@) is None,
        },
{
    proof {
        reveal(key_spec);
    }
    match kind {
        RecogKind::Oll => Some(oll_pattern(s)),
        RecogKind::Pll => pll_key(s),
        RecogKind::F2l => match f2l_key(s) {
            Some(k) => Some(k as u32),
            None => None,
        },
        RecogKind::Manual => None,
    }
}

/// Every entry of a recognition table points at a case of the table's
/// kind whose U-shifted canonical states have that key, with a pre-AUF
/// that fits it.
pub open spec fn table_sound(t: Map<u32, (u16, u8)>, defs: Seq<CaseDef>, kind: RecogKind) -> bool {
    forall|key: u32|
        #[trigger] t.contains_key(key) ==> {
            let (i, p) = t[key];
            &&& i < defs.len()
            &&& defs[i as int].recognition == kind
            &&& p < 4
            &&& pre_auf_fits(defs[i as int], key as int, p as int)
        }
}

/// Every key of the first `n` cases of the table's kind is in the table,
/// pointing at that case.
pub open spec fn table_complete(
    t: Map<u32, (u16, u8)>,
    defs: Seq<CaseDef>,
    n: int,
    kind: RecogKind,
) -> bool {
    forall|i: int, a: int, k: int|
        0 <= i < n && 0 <= a < 4 && 0 <= k < 4 && defs[i].recognition == kind && (
        #[trigger] case_key(defs[i], a, k)) is Some ==> {
            let key = case_key(defs[i], a, k)->0 as u32;
            &&& t.contains_key(key)
            &&& t[key].0 == i
        }
}

pub struct Recognizer {
    defs: Vec<CaseDef>,
    /// Per case: y-frame correction for execution. An algorithm with a net
    /// whole-cube y rotation solves its case in a rotated frame; canonical
    /// states are center-normalized, so the alg is conjugated back by this
    /// amount when executed.
    frame_fix: Vec<u8>,
    oll: HashMap<u32, (u16, u8)>,
    pll: HashMap<u32, (u16, u8)>,
    f2l: HashMap<u32, (u16, u8)>,
}

impl Recognizer {
    /// The cases, in library order.
    pub closed spec fn cases(self) -> Seq<CaseDef> {
        self.defs@
    }

    /// The y-frame correction of each case.
    pub closed spec fn frame_fixes(self) -> Seq<u8> {
        self.frame_fix@
    }

    /// The recognition table of a kind.
    pub closed spec fn table(self, kind: RecogKind) -> Map<u32, (u16, u8)> {
        match kind {
            RecogKind::Oll => self.oll@,
            RecogKind::Pll => self.pll@,
            RecogKind::F2l => self.f2l@,
            RecogKind::Manual => Map::empty(),
        }
    }

    /// Table entry for a key, if any.
    pub open spec fn lookup(self, kind: RecogKind, key: Option<int>) -> Option<(u16, u8)> {
        match key {
            Some(k) => if 0 <= k <= u32::MAX && self.table(kind).contains_key(k as u32) {
                Some(self.table(kind)[k as u32])
            } else {
                None
            },
            None => None,
        }
    }

    /// Well-formedness: the cases pass the library checks and do not
    /// collide, each frame correction undoes the case's net y rotation, and
    /// each table holds exactly the keys of its kind's cases.
    pub open spec fn wf(self) -> bool {
        let defs = self.cases();
        &&& defs.len() == self.frame_fixes().len()
        &&& defs.len() < 65536
        &&& library_ok(defs)
        &&& forall|i: int|
            0 <= i < defs.len() ==> #[trigger] self.frame_fixes()[i] as int == (4 - net_y_spec(
                defs[i].alg@,
            )->0) % 4
        &&& table_sound(self.table(RecogKind::Oll), defs, RecogKind::Oll)
        &&& table_sound(self.table(RecogKind::Pll), defs, RecogKind::Pll)
        &&& table_sound(self.table(RecogKind::F2l), defs, RecogKind::F2l)
        &&& table_complete(self.table(RecogKind::Oll), defs, defs.len() as int, RecogKind::Oll)
        &&& table_complete(self.table(RecogKind::Pll), defs, defs.len() as int, RecogKind::Pll)
        &&& table_complete(self.table(RecogKind::F2l), defs, defs.len() as int, RecogKind::F2l)
        &&& self.table(RecogKind::Manual) == Map::<u32, (u16, u8)>::empty()
    }
}

fn bad_alg(def: &CaseDef, reason: &str) -> (e: LibraryError)
    ensures
        e matches LibraryError::BadAlg { id, reason: r } && id == def.id && r@ == reason@,
{
    LibraryError::BadAlg { id: def.id.clone(), reason: reason.to_owned() }
}

/// Adds `key -> entry` to a recognition table. The same case seen again
/// keeps the smaller pre-AUF; another case with the key is a collision.
fn insert_key(
    map: &mut HashMap<u32, (u16, u8)>,
    key: u32,
    entry: (u16, u8),
    defs: &Vec<CaseDef>,
    inserting: &CaseDef,
) -> (r: Result<(), LibraryError>)
    requires
        forall|k: u32|
            #[trigger] old(map)@.contains_key(k) ==> old(map)@[k].0 == entry.0 || old(map)@[k].0
                < defs@.len(),
    ensures
        match old(map)@.get(key) {
            None => r is Ok && final(map)@ == old(map)@.insert(key, entry),
            Some(e) => if e.0 == entry.0 {
                &&& r is Ok
                &&& final(map)@ == old(map)@.insert(
                    key,
                    (e.0, if entry.1 < e.1 {
                        entry.1
                    } else {
                        e.1
                    }),
                )
            } else {
                r matches Err(LibraryError::Collision { a, b }) && a == defs@[e.0 as int].id && b
                    == inserting.id
            },
        },
{
    match map.get(&key) {
        None => {
            map.insert(key, entry);
            Ok(())
        },
        Some(existing) => {
            let existing = *existing;
            if existing.0 == entry.0 {
                if entry.1 < existing.1 {
                    map.insert(key, (existing.0, entry.1));
                } else {
                    assert(old(map)@.insert(key, existing) =~= old(map)@);
                }
                Ok(())
            } else {
                Err(
                    LibraryError::Collision {
                        a: defs[existing.0 as usize].id.clone(),
                        b: inserting.id.clone(),
                    },
                )
            }
        },
    }
}

/// The table invariants while case `def` (index `defs.len()`) is being
/// added: entries are sound for the cases including `def`, the earlier
/// cases are complete, and the keys of `def` for final AUFs below `a` (and
/// for AUF `a`, U-shifts below `k`) are in.
pub open spec fn table_partial(
    t: Map<u32, (u16, u8)>,
    defs: Seq<CaseDef>,
    def: CaseDef,
    a: int,
    k: int,
) -> bool {
    let ext = defs.push(def);
    &&& table_sound(t, ext, def.recognition)
    &&& table_complete(t, defs, defs.len() as int, def.recognition)
    &&& forall|a1: int, k1: int|
        0 <= a1 < 4 && 0 <= k1 < 4 && (a1 < a || (a1 == a && k1 < k)) && (#[trigger] case_key(
            def,
            a1,
            k1,
        )) is Some ==> {
            let key = case_key(def, a1, k1)->0 as u32;
            &&& t.contains_key(key)
            &&& t[key].0 == defs.len()
        }
}

proof fn lemma_pre_auf_round_trip(k: int)
    requires
        0 <= k < 4,
    ensures
        (4 - (4 - k) % 4) % 4 == k,
        0 <= (4 - k) % 4 < 4,
{
}

/// Inserts the keys of the canonical state `canonical` (final AUF `a`) of
/// case `def`, seen after 0..4 U turns, into its kind's table.
fn insert_shifts(
    table: &mut HashMap<u32, (u16, u8)>,
    defs: &Vec<CaseDef>,
    def: &CaseDef,
    canonical: &FaceletCube,
    a: u8,
) -> (r: Result<(), LibraryError>)
    requires
        a < 4,
        defs@.len() < 65535,
        def.recognition != RecogKind::Manual,
        canonical@ == canonical_spec(def.alg@, a as int),
        table_partial(old(table)@, defs@, *def, a as int, 0),
        forall|i: int, j: int|
            0 <= i < j < defs@.len() ==> !cases_collide(#[trigger] defs@[i], #[trigger] defs@[j]),
    ensures
        r is Ok ==> table_partial(final(table)@, defs@, *def, a as int + 1, 0),
        r is Ok ==> forall|k: int| 0 <= k < 4 ==> (#[trigger] case_key(*def, a as int, k)) is Some,
        r is Ok <== (forall|k: int| 0 <= k < 4 ==> (#[trigger] case_key(*def, a as int, k)) is Some)
            && forall|i: int| 0 <= i < defs@.len() ==> !cases_collide(#[trigger] defs@[i], *def),
        r matches Err(LibraryError::BadAlg { id, .. }) ==> id == def.id && exists|k: int|
            0 <= k < 4 && (#[trigger] case_key(*def, a as int, k)) is None,
        r matches Err(LibraryError::Collision { a: x, b: y }) ==> y == def.id && exists|i: int|
            0 <= i < defs@.len() && defs@[i].id == x && cases_collide(#[trigger] defs@[i], *def),
{
    let idx = defs.len() as u16;
    let mut state = *canonical;
    let mut k: u8 = 0;
    while k < 4
        invariant
            0 <= k <= 4,
            a < 4,
            idx as int == defs@.len(),
            defs@.len() < 65535,
            def.recognition != RecogKind::Manual,
            state@ == shifted(def.alg@, a as int, k as int),
            canonical@ == canonical_spec(def.alg@, a as int),
            table_partial(table@, defs@, *def, a as int, k as int),
            forall|k1: int| 0 <= k1 < k ==> (#[trigger] case_key(*def, a as int, k1)) is Some,
        decreases 4 - k,
    {
        let key = match key_of(def.recognition, &state) {
            Some(key) => key,
            None => {
                let reason = if def.recognition == RecogKind::Pll {
                    "PLL key failed"
                } else {
                    "F2L pieces not found"
                };
                proof {
                    reveal(case_key);
                }
                assert(case_key(*def, a as int, k as int) is None);
                return Err(bad_alg(def, reason));
            },
        };
        proof {
            reveal(case_key);
        }
        assert(case_key(*def, a as int, k as int) == Some(key as int));
        let pre = (4 - k) % 4;
        proof {
            lemma_pre_auf_round_trip(k as int);
            assert(pre_auf_fits(*def, key as int, pre as int));
        }
        let ghost before = table@;
        match insert_key(table, key, (idx, pre), defs, def) {
            Ok(()) => {},
            Err(e) => {
                proof {
                    lemma_collision_found(before, defs@, *def, a as int, k as int, key);
                }
                return Err(e);
            },
        }
        proof {
            lemma_partial_step(before, table@, defs@, *def, a as int, k as int, key, pre);
        }
        state.apply(Move::Face(Face::U, Turns::Cw));
        k += 1;
    }
    Ok(())
}

proof fn lemma_collision_found(
    before: Map<u32, (u16, u8)>,
    defs: Seq<CaseDef>,
    def: CaseDef,
    a: int,
    k: int,
    key: u32,
)
    requires
        0 <= a < 4,
        0 <= k < 4,
        table_partial(before, defs, def, a, k),
        case_key(def, a, k) == Some(key as int),
        before.contains_key(key),
        before[key].0 != defs.len(),
        def.recognition != RecogKind::Manual,
    ensures
        before[key].0 < defs.len(),
        cases_collide(defs[before[key].0 as int], def),
{
    let i = before[key].0 as int;
    let p = before[key].1 as int;
    let ext = defs.push(def);
    assert(ext[i] == defs[i]);
    assert(pre_auf_fits(ext[i], key as int, p));
    let a1 = choose|a1: int|
        0 <= a1 < 4 && #[trigger] case_key(ext[i], a1, (4 - p) % 4) == Some(key as int);
    assert(case_key(defs[i], a1, (4 - p) % 4) == case_key(def, a, k));
    assert(0 <= (4 - p) % 4 < 4);
    assert(exists|a1: int, k1: int, a2: int, k2: int|
        0 <= a1 < 4 && 0 <= k1 < 4 && 0 <= a2 < 4 && 0 <= k2 < 4 && (#[trigger] case_key(
            defs[i],
            a1,
            k1,
        )) is Some && #[trigger] case_key(defs[i], a1, k1) == #[trigger] case_key(def, a2, k2)) by {
        assert(case_key(defs[i], a1, (4 - p) % 4) is Some);
    }
}

proof fn lemma_partial_step(
    before: Map<u32, (u16, u8)>,
    after: Map<u32, (u16, u8)>,
    defs: Seq<CaseDef>,
    def: CaseDef,
    a: int,
    k: int,
    key: u32,
    pre: u8,
)
    requires
        0 <= a < 4,
        0 <= k < 4,
        defs.len() < 65535,
        table_partial(before, defs, def, a, k),
        case_key(def, a, k) == Some(key as int),
        pre as int == (4 - k) % 4,
        pre_auf_fits(def, key as int, pre as int),
        match before.get(key) {
            None => after == before.insert(key, (defs.len() as u16, pre)),
            Some(e) => e.0 == defs.len() as u16 && after == before.insert(
                key,
                (e.0, if pre < e.1 {
                    pre
                } else {
                    e.1
                }),
            ),
        },
    ensures
        table_partial(after, defs, def, a, k + 1),
{
    let ext = defs.push(def);
    assert(ext[defs.len() as int] == def);
    assert forall|key2: u32| #[trigger] after.contains_key(key2) implies {
        let (i, p) = after[key2];
        &&& i < ext.len()
        &&& ext[i as int].recognition == def.recognition
        &&& p < 4
        &&& pre_auf_fits(ext[i as int], key2 as int, p as int)
    } by {
        if key2 != key {
            assert(before.contains_key(key2));
        } else if before.contains_key(key) {
            if pre < before[key].1 {
            } else {
                assert(after[key2] == before[key]);
            }
        }
    }
    assert forall|i: int, a1: int, k1: int|
        0 <= i < defs.len() && 0 <= a1 < 4 && 0 <= k1 < 4 && defs[i].recognition == def.recognition
            && (#[trigger] case_key(defs[i], a1, k1)) is Some implies {
        let key2 = case_key(defs[i], a1, k1)->0 as u32;
        &&& after.contains_key(key2)
        &&& after[key2].0 == i
    } by {
        let key2 = case_key(defs[i], a1, k1)->0 as u32;
        assert(before.contains_key(key2) && before[key2].0 == i);
    }
    assert forall|a1: int, k1: int|
        0 <= a1 < 4 && 0 <= k1 < 4 && (a1 < a || (a1 == a && k1 < k + 1)) && (#[trigger] case_key(
            def,
            a1,
            k1,
        )) is Some implies {
        let key2 = case_key(def, a1, k1)->0 as u32;
        &&& after.contains_key(key2)
        &&& after[key2].0 == defs.len()
    } by {
        let key2 = case_key(def, a1, k1)->0 as u32;
        if key2 != key {
            assert(before.contains_key(key2));
        }
    }
}

proof fn lemma_other_table_extends(t: Map<u32, (u16, u8)>, defs: Seq<CaseDef>, def: CaseDef, kind: RecogKind)
    requires
        table_sound(t, defs, kind),
        table_complete(t, defs, defs.len() as int, kind),
        def.recognition != kind,
    ensures
        table_sound(t, defs.push(def), kind),
        table_complete(t, defs.push(def), (defs.len() + 1) as int, kind),
{
    let ext = defs.push(def);
    assert forall|key: u32| #[trigger] t.contains_key(key) implies {
        let (i, p) = t[key];
        &&& i < ext.len()
        &&& ext[i as int].recognition == kind
        &&& p < 4
        &&& pre_auf_fits(ext[i as int], key as int, p as int)
    } by {
        assert(ext[t[key].0 as int] == defs[t[key].0 as int]);
    }
    assert forall|i: int, a: int, k: int|
        0 <= i < ext.len() && 0 <= a < 4 && 0 <= k < 4 && ext[i].recognition == kind && (
        #[trigger] case_key(ext[i], a, k)) is Some implies {
        let key = case_key(ext[i], a, k)->0 as u32;
        &&& t.contains_key(key)
        &&& t[key].0 == i
    } by {
        assert(i < defs.len());
        assert(ext[i] == defs[i]);
    }
}

proof fn lemma_kind_table_done(t: Map<u32, (u16, u8)>, defs: Seq<CaseDef>, def: CaseDef)
    requires
        table_partial(t, defs, def, 4, 0),
        def.recognition != RecogKind::Manual,
    ensures
        table_sound(t, defs.push(def), def.recognition),
        table_complete(t, defs.push(def), (defs.len() + 1) as int, def.recognition),
        forall|i: int| 0 <= i < defs.len() ==> !cases_collide(#[trigger] defs[i], def),
{
    let ext = defs.push(def);
    assert forall|i: int, a: int, k: int|
        0 <= i < ext.len() && 0 <= a < 4 && 0 <= k < 4 && ext[i].recognition == def.recognition && (
        #[trigger] case_key(ext[i], a, k)) is Some implies {
        let key = case_key(ext[i], a, k)->0 as u32;
        &&& t.contains_key(key)
        &&& t[key].0 == i
    } by {
        if i < defs.len() {
            assert(ext[i] == defs[i]);
        } else {
            assert(ext[i] == def);
        }
    }
    assert forall|i: int| 0 <= i < defs.len() implies !cases_collide(#[trigger] defs[i], def) by {
        if cases_collide(defs[i], def) {
            let (a1, k1, a2, k2) = choose|a1: int, k1: int, a2: int, k2: int|
                0 <= a1 < 4 && 0 <= k1 < 4 && 0 <= a2 < 4 && 0 <= k2 < 4 && (#[trigger] case_key(
                    defs[i],
                    a1,
                    k1,
                )) is Some && #[trigger] case_key(defs[i], a1, k1) == #[trigger] case_key(
                    def,
                    a2,
                    k2,
                );
            let key = case_key(defs[i], a1, k1)->0 as u32;
            assert(t[key].0 == i);
            assert(t[key].0 == defs.len());
        }
    }
}

proof fn lemma_library_extends(defs: Seq<CaseDef>, def: CaseDef)
    requires
        library_ok(defs),
        case_ok(def),
        forall|i: int| 0 <= i < defs.len() ==> !cases_collide(#[trigger] defs[i], def),
    ensures
        library_ok(defs.push(def)),
{
    let ext = defs.push(def);
    assert forall|i: int| 0 <= i < ext.len() implies case_ok(#[trigger] ext[i]) by {
        if i < defs.len() {
            assert(ext[i] == defs[i]);
        }
    }
    assert forall|i: int, j: int| 0 <= i < j < ext.len() implies !cases_collide(
        #[trigger] ext[i],
        #[trigger] ext[j],
    ) by {
        assert(ext[i] == defs[i]);
        if j < defs.len() {
            assert(ext[j] == defs[j]);
        } else {
            assert(ext[j] == def);
        }
    }
}

impl Recognizer {
    fn insert(&mut self, def: CaseDef) -> (r: Result<(), LibraryError>)
        requires
            old(self).wf(),
            old(self).cases().len() < 65535,
        ensures
            r is Ok ==> final(self).wf() && final(self).cases() == old(self).cases().push(def),
            r is Ok <== case_ok(def) && forall|i: int|
                0 <= i < old(self).cases().len() ==> !cases_collide(
                    #[trigger] old(self).cases()[i],
                    def,
                ),
            r matches Err(LibraryError::BadAlg { id, .. }) ==> id == def.id && !case_ok(def),
            r matches Err(LibraryError::Collision { a, b }) ==> b == def.id && exists|i: int|
                0 <= i < old(self).cases().len() && old(self).cases()[i].id == a && cases_collide(
                    #[trigger] old(self).cases()[i],
                    def,
                ),
    {
        let net_y = match net_y_rotation(&def.alg) {
            Some(n) => n,
            None => {
                return Err(
                    bad_alg(
                        &def,
                        "net whole-cube rotation tilts the cube \u{2014} append rotations (x/z) so only a y rotation remains",
                    ),
                );
            },
        };
        let frame_fix = (4 - net_y) % 4;
        let inv = def.alg.inverse();
        let ghost kind = def.recognition;
        let mut a: u8 = 0;
        while a < 4
            invariant
                0 <= a <= 4,
                self.cases() == old(self).cases(),
                self.frame_fixes() == old(self).frame_fixes(),
                inv@ == inverse_moves(def.alg@),
                net_y_spec(def.alg@) is Some,
                kind == def.recognition,
                old(self).wf(),
                old(self).cases().len() < 65535,
                kind != RecogKind::Oll ==> self.oll@ == old(self).oll@,
                kind != RecogKind::Pll ==> self.pll@ == old(self).pll@,
                kind != RecogKind::F2l ==> self.f2l@ == old(self).f2l@,
                kind != RecogKind::Manual ==> table_partial(
                    self.table(kind),
                    self.cases(),
                    def,
                    a as int,
                    0,
                ),
                forall|a1: int| 0 <= a1 < a ==> stage_ok(kind, #[trigger] canonical_spec(def.alg@, a1)),
                kind != RecogKind::Manual ==> forall|a1: int, k: int|
                    0 <= a1 < a && 0 <= k < 4 ==> (#[trigger] case_key(def, a1, k)) is Some,
            decreases 4 - a,
        {
            let canonical = FaceletCube::solved().rotate_u(a).applied_alg(&inv).normalize_orientation();
            proof {
                reveal(canonical_spec);
            }
            assert(canonical@ == canonical_spec(def.alg@, a as int));
            match def.recognition {
                RecogKind::Oll => {
                    if !canonical.is_f2l_solved() {
                        return Err(bad_alg(&def, "inverse does not preserve F2L \u{2014} not an OLL alg"));
                    }
                    if canonical.is_oll_done() {
                        return Err(
                            bad_alg(&def, "inverse leaves U face oriented \u{2014} nothing to recognize"),
                        );
                    }
                    let r = insert_shifts(&mut self.oll, &self.defs, &def, &canonical, a);
                    if r.is_err() {
                        return r;
                    }
                },
                RecogKind::Pll => {
                    if !canonical.is_f2l_solved() || !canonical.is_oll_done() {
                        return Err(
                            bad_alg(&def, "inverse does not preserve F2L+OLL \u{2014} not a PLL alg"),
                        );
                    }
                    if canonical.is_solved() {
                        return Err(
                            bad_alg(&def, "inverse leaves the cube solved \u{2014} nothing to recognize"),
                        );
                    }
                    let r = insert_shifts(&mut self.pll, &self.defs, &def, &canonical, a);
                    if r.is_err() {
                        return r;
                    }
                },
                RecogKind::F2l => {
                    if !canonical.is_f2l_minus_fr_solved() {
                        return Err(
                            bad_alg(
                                &def,
                                "inverse disturbs more than the FR pair and last layer \u{2014} not an FR-slot F2L alg",
                            ),
                        );
                    }
                    let r = insert_shifts(&mut self.f2l, &self.defs, &def, &canonical, a);
                    if r.is_err() {
                        return r;
                    }
                },
                RecogKind::Manual => {},
            }
            a += 1;
        }
        proof {
            let defs = self.cases();
            if kind != RecogKind::Manual {
                lemma_kind_table_done(self.table(kind), defs, def);
            }
            if kind != RecogKind::Oll {
                lemma_other_table_extends(self.table(RecogKind::Oll), defs, def, RecogKind::Oll);
            }
            if kind != RecogKind::Pll {
                lemma_other_table_extends(self.table(RecogKind::Pll), defs, def, RecogKind::Pll);
            }
            if kind != RecogKind::F2l {
                lemma_other_table_extends(self.table(RecogKind::F2l), defs, def, RecogKind::F2l);
            }
            assert(case_ok(def));
            lemma_library_extends(defs, def);
        }
        self.defs.push(def);
        self.frame_fix.push(frame_fix);
        proof {
            let defs = self.cases();
            assert forall|i: int| 0 <= i < defs.len() implies #[trigger] self.frame_fixes()[i] as int
                == (4 - net_y_spec(defs[i].alg@)->0) % 4 by {
                if i < old(self).cases().len() {
                    assert(self.frame_fixes()[i] == old(self).frame_fixes()[i]);
                }
            }
        }
        Ok(())
    }
}

impl Recognizer {
    /// Builds the recognizer from a case library, checking every case and
    /// deriving its recognition keys.
    pub fn new(library: Vec<CaseDef>) -> (r: Result<Recognizer, LibraryError>)
        requires
            library@.len() < 65536,
        ensures
            r is Ok <==> library_ok(library@),
            r matches Ok(rec) ==> rec.wf() && rec.cases() == library@,
            r matches Err(e) ==> reports(library@, e),
    {
        let mut rec = Recognizer {
            defs: Vec::new(),
            frame_fix: Vec::new(),
            oll: HashMap::new(),
            pll: HashMap::new(),
            f2l: HashMap::new(),
        };
        assert(rec.cases() =~= Seq::<CaseDef>::empty());
        assert(rec.table(RecogKind::Manual) =~= Map::<u32, (u16, u8)>::empty());
        let mut lib = library;
        while lib.len() > 0
            invariant
                rec.wf(),
                rec.cases() + lib@ == library@,
                library@.len() < 65536,
            decreases lib@.len(),
        {
            let ghost n = rec.cases().len();
            let ghost lib_before = lib@;
            let def = lib.remove(0);
            assert(library@[n as int] == lib_before[0]);
            assert(forall|i: int| 0 <= i < n ==> rec.cases()[i] == #[trigger] library@[i]);
            let ghost before = rec;
            match rec.insert(def) {
                Ok(()) => {},
                Err(e) => {
                    proof {
                        assert(before.cases() =~= library@.take(n as int));
                        let next = library@.take(n as int + 1);
                        if library_ok(next) {
                            assert(next[n as int] == library@[n as int]);
                            assert(case_ok(library@[n as int]));
                            assert forall|i: int| 0 <= i < before.cases().len() implies !cases_collide(
                                #[trigger] before.cases()[i],
                                def,
                            ) by {
                                assert(before.cases()[i] == library@[i]);
                                assert(next[i] == library@[i]);
                                assert(library@[n as int] == def);
                                assert(!cases_collide(next[i], next[n as int]));
                            }
                        }
                        assert(first_failure(library@, n as int));
                        match &e {
                            LibraryError::BadAlg { id, .. } => {
                                assert(library@[n as int].id == *id);
                            },
                            LibraryError::Collision { a, b } => {
                                let i = choose|i: int|
                                    0 <= i < before.cases().len() && before.cases()[i].id == *a
                                        && cases_collide(#[trigger] before.cases()[i], def);
                                assert(library@[i].id == *a && library@[n as int].id == *b);
                            },
                        }
                    }
                    return Err(e);
                },
            }
            assert(rec.cases() + lib@ =~= library@);
        }
        assert(rec.cases() =~= library@);
        Ok(rec)
    }

    /// The cases, in library order.
    pub fn defs(&self) -> (r: &[CaseDef])
        ensures
            r@ == self.cases(),
    {
        self.defs.as_slice()
    }

    /// Case `idx`.
    pub fn case(&self, idx: u16) -> (r: &CaseDef)
        requires
            idx < self.cases().len(),
        ensures
            *r == self.cases()[idx as int],
    {
        &self.defs[idx as usize]
    }

    /// Index of the first case with this id.
    pub fn find_by_id(&self, id: &str) -> (r: Option<u16>)
        requires
            self.wf(),
        ensures
            match r {
                Some(i) => i < self.cases().len() && self.cases()[i as int].id@ == id@ && forall|j: int|
                    0 <= j < i ==> (#[trigger] self.cases()[j]).id@ != id@,
                None => forall|j: int|
                    0 <= j < self.cases().len() ==> (#[trigger] self.cases()[j]).id@ != id@,
            },
    {
        let want = id.to_owned();
        let mut i: usize = 0;
        while i < self.defs.len()
            invariant
                0 <= i <= self.defs@.len(),
                self.defs@.len() < 65536,
                want@ == id@,
                forall|j: int| 0 <= j < i ==> (#[trigger] self.defs@[j]).id@ != id@,
            decreases self.defs@.len() - i,
        {
            if self.defs[i].id == want {
                return Some(i as u16);
            }
            i += 1;
        }
        None
    }
}

/// The U pre-turn for a pre-AUF of `p` quarter-turns.
pub open spec fn pre_auf_moves(p: int) -> Seq<Move> {
    if p == 1 {
        seq![Move::Face(Face::U, Turns::Cw)]
    } else if p == 2 {
        seq![Move::Face(Face::U, Turns::Half)]
    } else if p == 3 {
        seq![Move::Face(Face::U, Turns::Ccw)]
    } else {
        seq![]
    }
}

fn set_contains(sets: &[CaseSet], x: CaseSet) -> (b: bool)
    ensures
        b == sets@.contains(x),
{
    let mut i: usize = 0;
    while i < sets.len()
        invariant
            0 <= i <= sets@.len(),
            forall|j: int| 0 <= j < i ==> sets@[j] != x,
        decreases sets@.len() - i,
    {
        if sets[i] == x {
            assert(sets@[i as int] == x);
            return true;
        }
        i += 1;
    }
    false
}

fn table_get(t: &HashMap<u32, (u16, u8)>, key: Option<u32>) -> (r: Option<(u16, u8)>)
    ensures
        r == match key {
            Some(k) => if t@.contains_key(k) {
                Some(t@[k])
            } else {
                None
            },
            None => None,
        },
{
    match key {
        Some(k) => match t.get(&k) {
            Some(e) => Some(*e),
            None => None,
        },
        None => None,
    }
}

impl Recognizer {
    /// Case `idx` belongs to one of the requested sets.
    pub open spec fn wanted(self, sets: Seq<CaseSet>, idx: u16) -> bool {
        sets.contains(self.cases()[idx as int].set)
    }

    /// A single match from a table lookup, kept when its case is wanted.
    pub open spec fn hit(
        self,
        e: Option<(u16, u8)>,
        sets: Seq<CaseSet>,
        y: u8,
    ) -> Seq<Match> {
        match e {
            Some((i, p)) => if self.wanted(sets, i) {
                seq![Match { case_idx: i, pre_auf: p, y_frame: y }]
            } else {
                seq![]
            },
            None => seq![],
        }
    }

    /// F2L matches in the y frames `0..n`, in frame order.
    pub open spec fn f2l_frames(self, s: Seq<Face>, sets: Seq<CaseSet>, n: nat) -> Seq<Match>
        decreases n,
    {
        if n == 0 {
            seq![]
        } else {
            let j = (n - 1) as int;
            let sj = rotate_y_spec(s, j);
            self.f2l_frames(s, sets, (n - 1) as nat) + if is_f2l_minus_fr_solved_spec(sj) {
                self.hit(self.lookup(RecogKind::F2l, key_spec(RecogKind::F2l, sj)), sets, j as u8)
            } else {
                seq![]
            }
        }
    }

    /// All matches of a state against the requested sets: an OLL match when
    /// F2L is solved and the last layer is not oriented, a PLL match when
    /// it is oriented but the cube is not solved, and F2L matches in each y
    /// frame that has the other three slots and the cross solved.
    pub open spec fn recognize_spec(self, s: Seq<Face>, sets: Seq<CaseSet>) -> Seq<Match> {
        let f2l_done = is_f2l_solved_spec(s);
        let oll_done = is_oll_done_spec(s);
        (if f2l_done && !oll_done {
            self.hit(self.lookup(RecogKind::Oll, key_spec(RecogKind::Oll, s)), sets, 0)
        } else {
            seq![]
        }) + (if f2l_done && oll_done && !is_solved_spec(s) {
            self.hit(self.lookup(RecogKind::Pll, key_spec(RecogKind::Pll, s)), sets, 0)
        } else {
            seq![]
        }) + (if !f2l_done {
            self.f2l_frames(s, sets, 4)
        } else {
            seq![]
        })
    }

    /// The first y frame from `j` on in which the state's F2L key belongs
    /// to case `idx`.
    pub open spec fn f2l_case_from(self, s: Seq<Face>, idx: u16, j: int) -> Option<Match>
        decreases 4 - j,
    {
        if j >= 4 || j < 0 {
            None
        } else {
            match self.lookup(RecogKind::F2l, key_spec(RecogKind::F2l, rotate_y_spec(s, j))) {
                Some((i, p)) => if i == idx {
                    Some(Match { case_idx: idx, pre_auf: p, y_frame: j as u8 })
                } else {
                    self.f2l_case_from(s, idx, j + 1)
                },
                None => self.f2l_case_from(s, idx, j + 1),
            }
        }
    }

    /// Whether case `idx` matches the state (with no stage check).
    pub open spec fn recognize_case_spec(self, s: Seq<Face>, idx: u16) -> Option<Match> {
        let kind = self.cases()[idx as int].recognition;
        match kind {
            RecogKind::Oll | RecogKind::Pll => match self.lookup(kind, key_spec(kind, s)) {
                Some((i, p)) => if i == idx {
                    Some(Match { case_idx: idx, pre_auf: p, y_frame: 0 })
                } else {
                    None
                },
                None => None,
            },
            RecogKind::F2l => self.f2l_case_from(s, idx, 0),
            RecogKind::Manual => None,
        }
    }

    fn lookup_exec(&self, kind: RecogKind, s: &FaceletCube) -> (r: Option<(u16, u8)>)
        ensures
            r == self.lookup(kind, key_spec(kind, s@)),
    {
        let key = key_of(kind, s);
        match kind {
            RecogKind::Oll => table_get(&self.oll, key),
            RecogKind::Pll => table_get(&self.pll, key),
            RecogKind::F2l => table_get(&self.f2l, key),
            RecogKind::Manual => None,
        }
    }

    /// Recognize the state against the given sets. Stage preconditions are
    /// enforced (OLL needs F2L solved, PLL needs OLL done, F2L needs the
    /// other three slots and cross intact in the matched frame).
    pub fn recognize(&self, s: &FaceletCube, sets: &[CaseSet]) -> (out: Vec<Match>)
        requires
            self.wf(),
        ensures
            out@ == self.recognize_spec(s@, sets@),
    {
        let mut out: Vec<Match> = Vec::new();
        let f2l_done = s.is_f2l_solved();
        let oll_done = s.is_oll_done();
        if f2l_done && !oll_done {
            if let Some((case_idx, pre_auf)) = self.lookup_exec(RecogKind::Oll, s) {
                if set_contains(sets, self.defs[case_idx as usize].set) {
                    out.push(Match { case_idx, pre_auf, y_frame: 0 });
                }
            }
        }
        let ghost part1 = out@;
        assert(part1 =~= (if f2l_done && !oll_done {
            self.hit(self.lookup(RecogKind::Oll, key_spec(RecogKind::Oll, s@)), sets@, 0)
        } else {
            seq![]
        }));
        if f2l_done && oll_done && !s.is_solved() {
            if let Some((case_idx, pre_auf)) = self.lookup_exec(RecogKind::Pll, s) {
                if set_contains(sets, self.defs[case_idx as usize].set) {
                    out.push(Match { case_idx, pre_auf, y_frame: 0 });
                }
            }
        }
        let ghost part2 = out@;
        assert(part2 =~= part1 + (if f2l_done && oll_done && !is_solved_spec(s@) {
            self.hit(self.lookup(RecogKind::Pll, key_spec(RecogKind::Pll, s@)), sets@, 0)
        } else {
            seq![]
        }));
        if !f2l_done {
            let mut j: u8 = 0;
            while j < 4
                invariant
                    0 <= j <= 4,
                    self.wf(),
                    out@ == part2 + self.f2l_frames(s@, sets@, j as nat),
                decreases 4 - j,
            {
                let sj = s.rotate_y(j);
                if sj.is_f2l_minus_fr_solved() {
                    if let Some((case_idx, pre_auf)) = self.lookup_exec(RecogKind::F2l, &sj) {
                        if set_contains(sets, self.defs[case_idx as usize].set) {
                            out.push(Match { case_idx, pre_auf, y_frame: j });
                        }
                    }
                }
                assert(out@ =~= part2 + self.f2l_frames(s@, sets@, j as nat + 1));
                j += 1;
            }
        }
        assert(out@ =~= self.recognize_spec(s@, sets@));
        out
    }

    /// Does this specific case match the state? (Used by the trainer.)
    pub fn recognize_case(&self, s: &FaceletCube, case_idx: u16) -> (r: Option<Match>)
        requires
            self.wf(),
            case_idx < self.cases().len(),
        ensures
            r == self.recognize_case_spec(s@, case_idx),
    {
        let kind = self.defs[case_idx as usize].recognition;
        match kind {
            RecogKind::Oll | RecogKind::Pll => match self.lookup_exec(kind, s) {
                Some((idx, pre_auf)) => if idx == case_idx {
                    Some(Match { case_idx, pre_auf, y_frame: 0 })
                } else {
                    None
                },
                None => None,
            },
            RecogKind::F2l => {
                let mut j: u8 = 0;
                while j < 4
                    invariant
                        0 <= j <= 4,
                        self.wf(),
                        case_idx < self.cases().len(),
                        self.recognize_case_spec(s@, case_idx) == self.f2l_case_from(
                            s@,
                            case_idx,
                            j as int,
                        ),
                    decreases 4 - j,
                {
                    let sj = s.rotate_y(j);
                    if let Some((idx, pre_auf)) = self.lookup_exec(RecogKind::F2l, &sj) {
                        if idx == case_idx {
                            return Some(Match { case_idx, pre_auf, y_frame: j });
                        }
                    }
                    j += 1;
                }
                None
            },
            RecogKind::Manual => None,
        }
    }

    /// The moves to physically perform for a match: optional U pre-turn,
    /// then the case algorithm (frame-corrected for any net y rotation of
    /// the alg itself), relabeled into the matched y frame.
    pub fn execution_alg(&self, m: Match) -> (r: Alg)
        requires
            self.wf(),
            m.case_idx < self.cases().len(),
        ensures
            r@ == relabel_y_moves(
                pre_auf_moves(m.pre_auf as int % 4) + relabel_y_moves(
                    self.cases()[m.case_idx as int].alg@,
                    self.frame_fixes()[m.case_idx as int] as int % 4,
                ),
                m.y_frame as int % 4,
            ),
    {
        let idx = m.case_idx as usize;
        let corrected = self.defs[idx].alg.in_y_frame(self.frame_fix[idx]);
        let mut moves: Vec<Move> = Vec::new();
        let p = m.pre_auf % 4;
        if p == 1 {
            moves.push(Move::Face(Face::U, Turns::Cw));
        } else if p == 2 {
            moves.push(Move::Face(Face::U, Turns::Half));
        } else if p == 3 {
            moves.push(Move::Face(Face::U, Turns::Ccw));
        }
        let ghost prefix = moves@;
        assert(prefix =~= pre_auf_moves(m.pre_auf as int % 4));
        let mut k: usize = 0;
        while k < corrected.0.len()
            invariant
                0 <= k <= corrected@.len(),
                moves@ == prefix + corrected@.subrange(0, k as int),
            decreases corrected@.len() - k,
        {
            moves.push(corrected.0[k]);
            k += 1;
            assert(moves@ =~= prefix + corrected@.subrange(0, k as int));
        }
        assert(corrected@.subrange(0, corrected@.len() as int) =~= corrected@);
        Alg::new(moves).in_y_frame(m.y_frame)
    }

    /// The case's canonical state (inverse alg on solved, centers home):
    /// what diagrams should show.
    pub fn canonical_state(&self, case_idx: u16) -> (r: FaceletCube)
        requires
            case_idx < self.cases().len(),
        ensures
            r@ == normalize_spec(
                apply_moves(solved_spec(), inverse_moves(self.cases()[case_idx as int].alg@)),
            ),
    {
        let def = &self.defs[case_idx as usize];
        FaceletCube::solved().applied_alg(&def.alg.inverse()).normalize_orientation()
    }

    /// A practice state for the case: solved (up to a random AUF), with the
    /// case's inverse applied and a random pre-AUF on top.
    pub fn setup_state(&self, case_idx: u16, rng: &mut SplitMix64) -> (r: FaceletCube)
        requires
            case_idx < self.cases().len(),
        ensures
            ({
                let st1 = old(rng).state.wrapping_add(GOLDEN_GAMMA);
                let st2 = st1.wrapping_add(GOLDEN_GAMMA);
                &&& final(rng).state == st2
                &&& r@ == normalize_spec(
                    u_cw_times(
                        apply_moves(
                            u_cw_times(solved_spec(), (mix64(st1) % 4) as nat),
                            inverse_moves(self.cases()[case_idx as int].alg@),
                        ),
                        (mix64(st2) % 4) as nat,
                    ),
                )
            }),
            self.wf() && self.cases()[case_idx as int].recognition != RecogKind::Manual ==> (
            self.recognize_case_spec(r@, case_idx) matches Some(m) && m.case_idx == case_idx),
    {
        let def = &self.defs[case_idx as usize];
        let mut s = FaceletCube::solved();
        let a = rng.below(4);
        let mut i: u32 = 0;
        while i < a
            invariant
                0 <= i <= a,
                s@ == u_cw_times(solved_spec(), i as nat),
            decreases a - i,
        {
            s.apply(Move::Face(Face::U, Turns::Cw));
            i += 1;
        }
        s.apply_alg(&def.alg.inverse());
        let ghost mid = s@;
        let b = rng.below(4);
        let mut i: u32 = 0;
        while i < b
            invariant
                0 <= i <= b,
                s@ == u_cw_times(mid, i as nat),
            decreases b - i,
        {
            s.apply(Move::Face(Face::U, Turns::Cw));
            i += 1;
        }
        proof {
            if self.wf() && def.recognition != RecogKind::Manual {
                crate::practice::lemma_setup_states_recognized(*self, case_idx, a as int, b as int);
            }
        }
        s.normalize_orientation()
    }
}

/// Every canonical state of a recognizable case, seen after any number of
/// U quarter-turns (any AUF), is recognized as that case, in frame 0, with
/// a pre-AUF that fits the state's key.
pub proof fn lemma_canonical_states_recognized(rec: Recognizer, idx: u16, a: int, k: int)
    requires
        rec.wf(),
        idx < rec.cases().len(),
        rec.cases()[idx as int].recognition != RecogKind::Manual,
        0 <= a < 4,
        0 <= k < 4,
    ensures
        ({
            let def = rec.cases()[idx as int];
            let m = rec.recognize_case_spec(shifted(def.alg@, a, k), idx);
            &&& m is Some
            &&& m->0.case_idx == idx
            &&& m->0.y_frame == 0
            &&& pre_auf_fits(def, case_key(def, a, k)->0, m->0.pre_auf as int)
        }),
{
    let defs = rec.cases();
    let def = defs[idx as int];
    let kind = def.recognition;
    let st = shifted(def.alg@, a, k);
    assert(case_ok(def));
    assert(case_key(def, a, k) is Some);
    let key = case_key(def, a, k)->0;
    assert(case_key(def, a, k) == key_spec(kind, st)) by {
        reveal(case_key);
    }
    let t = rec.table(kind);
    assert(t.contains_key(key as u32) && t[key as u32].0 == idx);
    assert(0 <= key <= u32::MAX) by {
        reveal(key_spec);
    }
    assert(rotate_y_spec(st, 0) == st);
}

/// The last-layer sticker at position `k` (0..21) shows the U center's color.
pub open spec fn shows_u(s: Seq<Face>, k: int) -> bool {
    s[ll21(k)] == s[4]
}

proof fn lemma_oll_bits_same(s1: Seq<Face>, s2: Seq<Face>, n: nat)
    requires
        n <= 21,
    ensures
        (forall|k: int| 0 <= k < n ==> shows_u(s1, k) == shows_u(s2, k)) <==> oll_bits(s1, n)
            == oll_bits(s2, n),
    decreases n,
{
    if n > 0 {
        let m = (n - 1) as nat;
        lemma_oll_bits_same(s1, s2, m);
        lemma_oll_bits_bound(s1, m);
        lemma_oll_bits_bound(s2, m);
        if oll_bits(s1, n) == oll_bits(s2, n) {
            assert(shows_u(s1, m as int) == shows_u(s2, m as int));
            assert(oll_bits(s1, m) == oll_bits(s2, m));
        }
        if forall|k: int| 0 <= k < n ==> shows_u(s1, k) == shows_u(s2, k) {
            assert(shows_u(s1, m as int) == shows_u(s2, m as int));
            assert forall|k: int| 0 <= k < m implies shows_u(s1, k) == shows_u(s2, k) by {}
        }
    }
}

/// The OLL key of a state records exactly which last-layer stickers show
/// the U color: two states get the same key if and only if the U color
/// sits at the same last-layer positions in both, whatever the other
/// stickers show (so permuting the last layer without turning its pieces
/// keeps the key).
pub proof fn lemma_oll_key_is_orientation(s1: Seq<Face>, s2: Seq<Face>)
    ensures
        (forall|k: int| 0 <= k < 21 ==> #[trigger] shows_u(s1, k) == shows_u(s2, k)) <==> key_spec(
            RecogKind::Oll,
            s1,
        ) == key_spec(RecogKind::Oll, s2),
{
    reveal(key_spec);
    lemma_oll_bits_same(s1, s2, 21);
    lemma_oll_bits_bound(s1, 21);
    lemma_oll_bits_bound(s2, 21);
    assert(p2(21) == 2097152) by {
        reveal_with_fuel(p2, 22);
    }
}

/// The recognizer tells OLL cases apart by orientation alone: two states
/// with F2L solved, the last layer not oriented, and the U color at the
/// same last-layer positions get the same answer from the recognizer.
pub proof fn lemma_oll_recognition_by_orientation(
    rec: Recognizer,
    s1: Seq<Face>,
    s2: Seq<Face>,
    sets: Seq<CaseSet>,
)
    requires
        rec.wf(),
        is_f2l_solved_spec(s1),
        is_f2l_solved_spec(s2),
        !is_oll_done_spec(s1),
        forall|k: int| 0 <= k < 21 ==> #[trigger] shows_u(s1, k) == shows_u(s2, k),
    ensures
        rec.recognize_spec(s1, sets) == rec.recognize_spec(s2, sets),
{
    lemma_oll_key_is_orientation(s1, s2);
    let i = choose|i: int| 0 <= i < 9 && #[trigger] s1[i] != s1[4];
    assert(shows_u(s1, i) == shows_u(s2, i));
    assert(!is_oll_done_spec(s2));
}

} // verus!
