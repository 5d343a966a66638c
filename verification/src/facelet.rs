//! Facelet-level cube state and the geometrically derived move
//! permutations acting on it.

use vstd::prelude::*;
use crate::geometry::{
    dot, face_at, facelet_at, frame, lemma_facelet_roundtrip, lemma_rot_cw_surface,
    lemma_surface_roundtrip, on_surface, rot_cw, rot_cw_pow, scale, sticker_pos,
};
use crate::text::{decimal, is_whitespace, push_decimal, push_str, str_chars, string_push, white_space};
use crate::moves::{
    RotAxis, SliceKind,
    inverse_moves, lemma_source_compose, lemma_source_inverse, Alg, Turns,
    cw_matrix, in_layer_spec, lemma_cw_matrix, lemma_cw_matrix_transpose, lemma_gen_wf,
    lemma_source_range, mat_apply, times_unit, v3, Dir, LayerKind, Move, Rot3,
};


verus! {

/// A face of the cube, in Kociemba facelet-string order.
#[derive(Clone, Copy, PartialEq, Eq, Structural, Hash, Debug, PartialOrd, Ord)]
pub enum Face {
    U,
    R,
    F,
    D,
    L,
    B,
}

/// A sticker color, named by the face it belongs to on a solved cube.
pub type Color = Face;

impl Face {
    /// Position of the face in U R F D L B order.
    pub open spec fn ord(self) -> int {
        match self {
            Face::U => 0,
            Face::R => 1,
            Face::F => 2,
            Face::D => 3,
            Face::L => 4,
            Face::B => 5,
        }
    }

    pub open spec fn from_ord(i: int) -> Face {
        if i == 0 {
            Face::U
        } else if i == 1 {
            Face::R
        } else if i == 2 {
            Face::F
        } else if i == 3 {
            Face::D
        } else if i == 4 {
            Face::L
        } else {
            Face::B
        }
    }

    /// The face's position in U R F D L B order.
    pub fn index(self) -> (r: usize)
        ensures
            r as int == self.ord(),
            r < 6,
    {
        match self {
            Face::U => 0,
            Face::R => 1,
            Face::F => 2,
            Face::D => 3,
            Face::L => 4,
            Face::B => 5,
        }
    }

    pub fn from_index(i: usize) -> (f: Face)
        requires
            i < 6,
        ensures
            f == Face::from_ord(i as int),
            f.ord() == i,
    {
        match i {
            0 => Face::U,
            1 => Face::R,
            2 => Face::F,
            3 => Face::D,
            4 => Face::L,
            _ => Face::B,
        }
    }

    pub open spec fn letter_spec(self) -> char {
        match self {
            Face::U => 'U',
            Face::R => 'R',
            Face::F => 'F',
            Face::D => 'D',
            Face::L => 'L',
            Face::B => 'B',
        }
    }

    pub fn letter(self) -> (c: char)
        ensures
            c == self.letter_spec(),
    {
        match self {
            Face::U => 'U',
            Face::R => 'R',
            Face::F => 'F',
            Face::D => 'D',
            Face::L => 'L',
            Face::B => 'B',
        }
    }

    pub open spec fn from_letter_spec(c: char) -> Option<Face> {
        if c == 'U' {
            Some(Face::U)
        } else if c == 'R' {
            Some(Face::R)
        } else if c == 'F' {
            Some(Face::F)
        } else if c == 'D' {
            Some(Face::D)
        } else if c == 'L' {
            Some(Face::L)
        } else if c == 'B' {
            Some(Face::B)
        } else {
            None
        }
    }

    pub fn from_letter(c: char) -> (r: Option<Face>)
        ensures
            r == Face::from_letter_spec(c),
    {
        match c {
            'U' => Some(Face::U),
            'R' => Some(Face::R),
            'F' => Some(Face::F),
            'D' => Some(Face::D),
            'L' => Some(Face::L),
            'B' => Some(Face::B),
            _ => None,
        }
    }
}

/// The letter of a face and back again.
pub proof fn lemma_letter_roundtrip(f: Face)
    ensures
        Face::from_letter_spec(f.letter_spec()) == Some(f),
        Face::from_ord(f.ord()) == f,
{
}

/// Which face a facelet index belongs to.
pub open spec fn face_of_spec(index: int) -> Face {
    Face::from_ord(index / 9)
}

/// Which face a facelet index belongs to.
pub fn face_of(index: usize) -> (f: Face)
    requires
        index < 54,
    ensures
        f == face_of_spec(index as int),
{
    Face::from_index(index / 9)
}

/// Face frame `(normal, right, down)` of face `f`.
fn frame_of(f: usize) -> (r: ([i8; 3], [i8; 3], [i8; 3]))
    requires
        f < 6,
    ensures
        v3(r.0) == frame(f as int).0,
        v3(r.1) == frame(f as int).1,
        v3(r.2) == frame(f as int).2,
        forall|k: int| 0 <= k < 3 ==> -1 <= #[trigger] r.0[k] <= 1,
        forall|k: int| 0 <= k < 3 ==> -1 <= #[trigger] r.1[k] <= 1,
        forall|k: int| 0 <= k < 3 ==> -1 <= #[trigger] r.2[k] <= 1,
{
    match f {
        0 => ([0, 1, 0], [1, 0, 0], [0, 0, 1]),
        1 => ([1, 0, 0], [0, 0, -1], [0, -1, 0]),
        2 => ([0, 0, 1], [1, 0, 0], [0, -1, 0]),
        3 => ([0, -1, 0], [1, 0, 0], [0, 0, -1]),
        4 => ([-1, 0, 0], [0, 0, 1], [0, -1, 0]),
        _ => ([0, 0, -1], [-1, 0, 0], [0, -1, 0]),
    }
}

/// Center position of facelet `i`: `3*normal + 2*(col-1)*right + 2*(row-1)*down`.
fn sticker_position(i: usize) -> (p: [i8; 3])
    requires
        i < 54,
    ensures
        v3(p) == sticker_pos(i as int),
        on_surface(v3(p)),
{
    proof {
        lemma_facelet_roundtrip(i as int);
    }
    let (n, right, down) = frame_of(i / 9);
    let row = ((i % 9) / 3) as i8;
    let col = (i % 3) as i8;
    let mut p = [0i8; 3];
    let mut a: usize = 0;
    while a < 3
        invariant
            0 <= a <= 3,
            i < 54,
            v3(n) == frame((i / 9) as int).0,
            v3(right) == frame((i / 9) as int).1,
            v3(down) == frame((i / 9) as int).2,
            forall|k: int| 0 <= k < 3 ==> -1 <= #[trigger] n[k] <= 1,
            forall|k: int| 0 <= k < 3 ==> -1 <= #[trigger] right[k] <= 1,
            forall|k: int| 0 <= k < 3 ==> -1 <= #[trigger] down[k] <= 1,
            row as int == (i as int % 9) / 3,
            col as int == i as int % 3,
            forall|k: int|
                0 <= k < a ==> #[trigger] p[k] as int == 3 * n[k] + scale(
                    2 * (col - 1),
                    right[k] as int,
                ) + scale(2 * (row - 1), down[k] as int),
        decreases 3 - a,
    {
        let v: i16 = 3 * (n[a] as i16) + times_unit(right[a], 2 * (col - 1)) + times_unit(
            down[a],
            2 * (row - 1),
        );
        p[a] = v as i8;
        a += 1;
    }
    p
}

/// Dot product with a frame vector whose components are in {-1, 0, 1}.
fn dot_exec(p: [i8; 3], u: [i8; 3]) -> (d: i16)
    requires
        forall|k: int| 0 <= k < 3 ==> -1 <= #[trigger] u[k] <= 1,
        forall|k: int| 0 <= k < 3 ==> -10 <= #[trigger] p[k] <= 10,
    ensures
        d as int == dot(v3(p), v3(u)),
{
    times_unit(u[0], p[0]) + times_unit(u[1], p[1]) + times_unit(u[2], p[2])
}

/// The facelet index sitting at surface position `p`.
fn facelet_index(p: [i8; 3]) -> (i: usize)
    requires
        on_surface(v3(p)),
    ensures
        i as int == facelet_at(v3(p)),
        i < 54,
{
    proof {
        lemma_surface_roundtrip(v3(p));
    }
    let mut f: usize = 0;
    while f < 6
        invariant
            0 <= f <= 6,
            on_surface(v3(p)),
            0 <= facelet_at(v3(p)) < 54,
            forall|g: int| 0 <= g < f ==> dot(v3(p), #[trigger] frame(g).0) != 3,
        decreases 6 - f,
    {
        let (n, right, down) = frame_of(f);
        if dot_exec(p, n) == 3 {
            assert(face_at(v3(p)) == f);
            let row = ((dot_exec(p, down) + 2) / 2) as usize;
            let col = ((dot_exec(p, right) + 2) / 2) as usize;
            return 9 * f + 3 * row + col;
        }
        f += 1;
    }
    assert(face_at(v3(p)) == 6);
    0
}

/// Does the layer selection of a move about `dir` contain position `p`?
fn in_layer(dir: Dir, layer: LayerKind, p: [i8; 3]) -> (b: bool)
    requires
        dir.wf(),
        on_surface(v3(p)),
    ensures
        b == in_layer_spec(dir.axis as int, dir.sign as int, layer, v3(p)),
{
    let c = times_unit(dir.sign, p[dir.axis]);
    match layer {
        LayerKind::Face => c >= 2,
        LayerKind::Wide => c >= 0,
        LayerKind::Mid => c == 0,
        LayerKind::All => true,
    }
}

/// The facelet whose sticker move `m` brings to facelet `i`: rotate the
/// position back by the move's turn (when it lies in a turning layer).
fn source_facelet(m: Move, i: usize) -> (j: usize)
    requires
        i < 54,
    ensures
        j as int == m.source(i as int),
        j < 54,
{
    proof {
        lemma_gen_wf(m);
        lemma_source_range(m, i as int);
    }
    let (dir, layer, turns) = m.gen();
    let p = sticker_position(i);
    if !in_layer(dir, layer, p) {
        return i;
    }
    // One counter-clockwise quarter: the inverse of the clockwise one.
    let back = dir.cw_quarter().inverse();
    let ghost axis = dir.axis as int;
    let ghost sign = dir.sign as int;
    proof {
        lemma_cw_matrix_transpose(axis, sign);
        assert forall|v| #[trigger] back.apply_spec(v) == rot_cw(axis, -sign, v) by {
            lemma_cw_matrix(axis, -sign, v);
            assert(back.apply_spec(v) == mat_apply(cw_matrix(axis, -sign), v));
        }
    }
    let n = turns.quarters();
    let mut v = p;
    let mut k: u8 = 0;
    while k < n
        invariant
            0 <= k <= n,
            n as int == turns.q(),
            dir.wf(),
            axis == dir.axis as int,
            sign == dir.sign as int,
            back.wf(),
            forall|w| #[trigger] back.apply_spec(w) == rot_cw(axis, -sign, w),
            v3(v) == rot_cw_pow(axis, -sign, k as int, v3(p)),
            on_surface(v3(v)),
        decreases n - k,
    {
        proof {
            lemma_rot_cw_surface(axis, -sign, v3(v));
        }
        v = back.apply(v);
        k += 1;
    }
    facelet_index(v)
}

/// Cube state: 54 sticker colors in Kociemba facelet order.
#[derive(Clone, Copy, Eq, Hash, Debug)]
pub struct FaceletCube(pub [Color; 54]);

impl PartialEq for FaceletCube {
    fn eq(&self, other: &FaceletCube) -> (r: bool) {
        let mut i: usize = 0;
        while i < 54
            invariant
                0 <= i <= 54,
                self.0@.len() == 54,
                other.0@.len() == 54,
                forall|k: int| 0 <= k < i ==> self.0@[k] == other.0@[k],
            decreases 54 - i,
        {
            if self.0[i] != other.0[i] {
                return false;
            }
            i += 1;
        }
        assert(self.0@ =~= other.0@);
        true
    }
}

impl vstd::std_specs::cmp::PartialEqSpecImpl for FaceletCube {
    open spec fn obeys_eq_spec() -> bool {
        true
    }

    open spec fn eq_spec(&self, other: &FaceletCube) -> bool {
        self@ == other@
    }
}

impl View for FaceletCube {
    type V = Seq<Face>;

    open spec fn view(&self) -> Seq<Face> {
        self.0@
    }
}

/// The state after move `m`: facelet `i` shows what facelet
/// `m.source(i)` showed before.
pub open spec fn apply_move(s: Seq<Face>, m: Move) -> Seq<Face> {
    Seq::new(54, |i: int| s[m.source(i)])
}

impl FaceletCube {
    pub fn apply(&mut self, m: Move)
        ensures
            final(self)@ == apply_move(old(self)@, m),
    {
        let old = self.0;
        let mut i: usize = 0;
        while i < 54
            invariant
                0 <= i <= 54,
                old@.len() == 54,
                self.0@.len() == 54,
                forall|k: int| 0 <= k < i ==> #[trigger] self.0@[k] == old@[m.source(k)],
            decreases 54 - i,
        {
            let j = source_facelet(m, i);
            self.0[i] = old[j];
            i += 1;
        }
        assert(self.0@ =~= apply_move(old@, m));
    }
}

/// The state after a sequence of moves, applied first to last.
pub open spec fn apply_moves(s: Seq<Face>, ms: Seq<Move>) -> Seq<Face>
    decreases ms.len(),
{
    if ms.len() == 0 {
        s
    } else {
        apply_move(apply_moves(s, ms.drop_last()), ms.last())
    }
}

pub proof fn lemma_apply_moves_len(s: Seq<Face>, ms: Seq<Move>)
    requires
        s.len() == 54,
    ensures
        apply_moves(s, ms).len() == 54,
    decreases ms.len(),
{
    if ms.len() > 0 {
        lemma_apply_moves_len(s, ms.drop_last());
    }
}

/// Applying a concatenation applies the parts in order.
pub proof fn lemma_apply_moves_append(s: Seq<Face>, xs: Seq<Move>, ys: Seq<Move>)
    ensures
        apply_moves(s, xs + ys) == apply_moves(apply_moves(s, xs), ys),
    decreases ys.len(),
{
    if ys.len() == 0 {
        assert(xs + ys =~= xs);
    } else {
        assert((xs + ys).drop_last() =~= xs + ys.drop_last());
        assert((xs + ys).last() == ys.last());
        lemma_apply_moves_append(s, xs, ys.drop_last());
    }
}

/// Law: every move is undone by its inverse.
pub proof fn lemma_move_then_inverse(s: Seq<Face>, m: Move)
    requires
        s.len() == 54,
    ensures
        apply_move(apply_move(s, m), m.inverse_spec()) == s,
{
    assert forall|i: int| 0 <= i < 54 implies #[trigger] apply_move(
        apply_move(s, m),
        m.inverse_spec(),
    )[i] == s[i] by {
        lemma_source_range(m.inverse_spec(), i);
        lemma_source_inverse(m, i);
    }
    assert(apply_move(apply_move(s, m), m.inverse_spec()) =~= s);
}

/// Law: an algorithm followed by its inverse leaves every state unchanged.
pub proof fn lemma_alg_then_inverse(s: Seq<Face>, ms: Seq<Move>)
    requires
        s.len() == 54,
    ensures
        apply_moves(apply_moves(s, ms), inverse_moves(ms)) == s,
    decreases ms.len(),
{
    if ms.len() > 0 {
        let front = ms.drop_last();
        let m = ms.last();
        assert(inverse_moves(ms) =~= seq![m.inverse_spec()] + inverse_moves(front));
        lemma_apply_moves_append(apply_moves(s, ms), seq![m.inverse_spec()], inverse_moves(front));
        assert(seq![m.inverse_spec()].drop_last() =~= Seq::<Move>::empty());
        let x = apply_moves(s, ms);
        assert(apply_moves(x, seq![m.inverse_spec()]) == apply_move(
            apply_moves(x, Seq::<Move>::empty()),
            m.inverse_spec(),
        ));
        assert(x == apply_move(apply_moves(s, front), m));
        lemma_apply_moves_len(s, front);
        lemma_move_then_inverse(apply_moves(s, front), m);
        lemma_alg_then_inverse(s, front);
    }
}

/// Law: every move moves stickers by a permutation of the 54 facelets that
/// depends on the move alone: facelet `i` receives the sticker of
/// `m.source(i)`, and `source` is a bijection of `0..54` (the inverse
/// move's `source` undoes it).
pub proof fn lemma_move_is_permutation(m: Move)
    ensures
        forall|s: Seq<Face>, i: int| 0 <= i < 54 ==> #[trigger] apply_move(s, m)[i] == s[m.source(i)],
        forall|i: int| 0 <= i < 54 ==> 0 <= #[trigger] m.source(i) < 54,
        forall|i: int, j: int| 0 <= i < 54 && 0 <= j < 54 && #[trigger] m.source(i) == #[trigger] m.source(j) ==> i == j,
        forall|j: int|
            0 <= j < 54 ==> 0 <= #[trigger] m.inverse_spec().source(j) < 54 && m.source(
                m.inverse_spec().source(j),
            ) == j,
{
    let mi = m.inverse_spec();
    assert(mi.inverse_spec() == m);
    assert forall|i: int| 0 <= i < 54 implies 0 <= #[trigger] m.source(i) < 54 by {
        lemma_source_range(m, i);
    }
    assert forall|i: int, j: int| 0 <= i < 54 && 0 <= j < 54 && #[trigger] m.source(i) == #[trigger] m.source(j) implies i == j by {
        lemma_source_inverse(mi, i);
        lemma_source_inverse(mi, j);
    }
    assert forall|j: int| 0 <= j < 54 implies 0 <= #[trigger] m.inverse_spec().source(j) < 54 && m.source(
        m.inverse_spec().source(j),
    ) == j by {
        lemma_source_range(mi, j);
        lemma_source_inverse(m, j);
    }
}

/// The facelets of `s` that show color `c`.
pub open spec fn color_cells(s: Seq<Face>, c: Face) -> Set<int> {
    Set::new(|i: int| 0 <= i < s.len() && s[i] == c)
}

/// How many facelets of `s` show color `c`.
pub open spec fn color_count(s: Seq<Face>, c: Face) -> nat {
    color_cells(s, c).len()
}

proof fn lemma_color_cells_finite(s: Seq<Face>, c: Face)
    ensures
        color_cells(s, c).finite(),
{
    let r = vstd::set_lib::set_int_range(0, s.len() as int);
    vstd::set_lib::lemma_int_range(0, s.len() as int);
    assert(color_cells(s, c).subset_of(r));
    vstd::set_lib::lemma_len_subset(color_cells(s, c), r);
}

/// Law: every move is a permutation of the facelets, so it keeps the
/// number of facelets of each color.
pub proof fn lemma_move_keeps_color_counts(s: Seq<Face>, m: Move, c: Face)
    requires
        s.len() == 54,
    ensures
        color_count(apply_move(s, m), c) == color_count(s, c),
{
    let x = color_cells(apply_move(s, m), c);
    let y = color_cells(s, c);
    let f = |i: int| m.source(i);
    let mi = m.inverse_spec();
    assert(mi.inverse_spec() == m);
    lemma_color_cells_finite(apply_move(s, m), c);
    assert forall|i: int| x.contains(i) implies y.contains(#[trigger] f(i)) by {
        lemma_source_range(m, i);
    }
    assert forall|j: int| y.contains(j) implies x.map(f).contains(j) by {
        lemma_source_range(mi, j);
        lemma_source_inverse(m, j);
        let i = mi.source(j);
        assert(f(i) == j);
        assert(x.contains(i));
    }
    assert(x.map(f) =~= y);
    assert forall|a: int, b: int| x.contains(a) && x.contains(b) && #[trigger] f(a) == #[trigger] f(b) implies a == b by {
        lemma_source_inverse(mi, a);
        lemma_source_inverse(mi, b);
    }
    assert(vstd::relations::injective_on(f, x));
    vstd::set_lib::lemma_map_size(x, y, f);
}

/// Law: any sequence of moves keeps the number of facelets of each color.
pub proof fn lemma_moves_keep_color_counts(s: Seq<Face>, ms: Seq<Move>, c: Face)
    requires
        s.len() == 54,
    ensures
        color_count(apply_moves(s, ms), c) == color_count(s, c),
    decreases ms.len(),
{
    if ms.len() > 0 {
        lemma_moves_keep_color_counts(s, ms.drop_last(), c);
        lemma_apply_moves_len(s, ms.drop_last());
        lemma_move_keeps_color_counts(apply_moves(s, ms.drop_last()), ms.last(), c);
    }
}

proof fn lemma_witness_moves(m: Move, i: int)
    requires
        0 <= i < 54,
        face_of_spec(m.source(i)) != face_of_spec(i),
    ensures
        apply_move(solved_spec(), m) != solved_spec(),
{
    lemma_source_range(m, i);
    assert(apply_move(solved_spec(), m)[i] != solved_spec()[i]);
}

/// Law: no move of any kind and amount leaves the solved cube unchanged.
#[verifier::spinoff_prover]
proof fn lemma_changes_solved_urf(m: Move)
    requires
        m matches Move::Face(f, _) && (f == Face::U || f == Face::R || f == Face::F),
    ensures
        apply_move(solved_spec(), m) != solved_spec(),
{
    match m {
        Move::Face(Face::U, _) => lemma_witness_moves(m, 18),
        Move::Face(Face::R, _) => lemma_witness_moves(m, 8),
        _ => lemma_witness_moves(m, 6),
    }
}

#[verifier::spinoff_prover]
proof fn lemma_changes_solved_dlb(m: Move)
    requires
        m matches Move::Face(f, _) && (f == Face::D || f == Face::L || f == Face::B),
    ensures
        apply_move(solved_spec(), m) != solved_spec(),
{
    match m {
        Move::Face(Face::D, _) => lemma_witness_moves(m, 24),
        _ => lemma_witness_moves(m, 0),
    }
}

#[verifier::spinoff_prover]
proof fn lemma_changes_solved_wide_urf(m: Move)
    requires
        m matches Move::Wide(f, _) && (f == Face::U || f == Face::R || f == Face::F),
    ensures
        apply_move(solved_spec(), m) != solved_spec(),
{
    match m {
        Move::Wide(Face::U, _) => lemma_witness_moves(m, 18),
        Move::Wide(Face::R, _) => lemma_witness_moves(m, 8),
        _ => lemma_witness_moves(m, 6),
    }
}

#[verifier::spinoff_prover]
proof fn lemma_changes_solved_wide_dlb(m: Move)
    requires
        m matches Move::Wide(f, _) && (f == Face::D || f == Face::L || f == Face::B),
    ensures
        apply_move(solved_spec(), m) != solved_spec(),
{
    match m {
        Move::Wide(Face::D, _) => lemma_witness_moves(m, 24),
        _ => lemma_witness_moves(m, 0),
    }
}

#[verifier::spinoff_prover]
proof fn lemma_changes_solved_slice_rot(m: Move)
    requires
        m is Slice || m is Rot,
    ensures
        apply_move(solved_spec(), m) != solved_spec(),
{
    match m {
        Move::Slice(SliceKind::E, _) => lemma_witness_moves(m, 22),
        Move::Slice(_, _) => lemma_witness_moves(m, 4),
        Move::Rot(RotAxis::Z, _) => lemma_witness_moves(m, 4),
        _ => lemma_witness_moves(m, 22),
    }
}

/// Law: no move of any kind and amount leaves the solved cube unchanged.
pub proof fn lemma_every_move_changes_solved(m: Move)
    ensures
        apply_move(solved_spec(), m) != solved_spec(),
{
    match m {
        Move::Face(f, _) => {
            if f == Face::U || f == Face::R || f == Face::F {
                lemma_changes_solved_urf(m);
            } else {
                lemma_changes_solved_dlb(m);
            }
        },
        Move::Wide(f, _) => {
            if f == Face::U || f == Face::R || f == Face::F {
                lemma_changes_solved_wide_urf(m);
            } else {
                lemma_changes_solved_wide_dlb(m);
            }
        },
        _ => lemma_changes_solved_slice_rot(m),
    }
}

/// Law: a quarter turn of any kind brings the solved cube back exactly at
/// its fourth power, and two quarter turns are the half turn.
pub proof fn lemma_quarter_turn_order_four(m: Move)
    requires
        m.turns_spec() == Turns::Cw,
    ensures
        apply_move(solved_spec(), m) != solved_spec(),
        apply_move(apply_move(solved_spec(), m), m) != solved_spec(),
        apply_move(apply_move(apply_move(solved_spec(), m), m), m) != solved_spec(),
        apply_move(apply_move(apply_move(apply_move(solved_spec(), m), m), m), m) == solved_spec(),
        apply_move(apply_move(solved_spec(), m), m) == apply_move(solved_spec(), Move::with_turns(m, Turns::Half)),
{
    lemma_quarter_turn_powers(solved_spec(), m);
    lemma_every_move_changes_solved(m);
    lemma_every_move_changes_solved(Move::with_turns(m, Turns::Half));
    lemma_every_move_changes_solved(Move::with_turns(m, Turns::Ccw));
}

/// Law: a half turn is two quarter turns, a counter-clockwise turn is three,
/// and four quarter turns are the identity.
pub proof fn lemma_quarter_turn_powers(s: Seq<Face>, m: Move)
    requires
        s.len() == 54,
        m.turns_spec() == Turns::Cw,
    ensures
        apply_move(apply_move(s, m), m) == apply_move(s, Move::with_turns(m, Turns::Half)),
        apply_move(apply_move(apply_move(s, m), m), m) == apply_move(
            s,
            Move::with_turns(m, Turns::Ccw),
        ),
        apply_move(apply_move(apply_move(apply_move(s, m), m), m), m) == s,
{
    let h = Move::with_turns(m, Turns::Half);
    let c = Move::with_turns(m, Turns::Ccw);
    assert forall|i: int| 0 <= i < 54 implies #[trigger] apply_move(apply_move(s, m), m)[i]
        == apply_move(s, h)[i] by {
        lemma_source_range(m, i);
        lemma_source_compose(m, m, h, i);
    }
    assert(apply_move(apply_move(s, m), m) =~= apply_move(s, h));
    assert forall|i: int| 0 <= i < 54 implies #[trigger] apply_move(apply_move(s, h), m)[i]
        == apply_move(s, c)[i] by {
        lemma_source_range(m, i);
        lemma_source_compose(m, h, c, i);
    }
    assert(apply_move(apply_move(s, h), m) =~= apply_move(s, c));
    assert(c == m.inverse_spec());
    lemma_move_then_inverse(s, c);
    assert(c.inverse_spec() == m);
}

impl Move {
    /// The same move with another turn amount.
    pub open spec fn with_turns(m: Move, t: Turns) -> Move {
        match m {
            Move::Face(f, _) => Move::Face(f, t),
            Move::Wide(f, _) => Move::Wide(f, t),
            Move::Slice(k, _) => Move::Slice(k, t),
            Move::Rot(a, _) => Move::Rot(a, t),
        }
    }
}

/// The solved cube: every facelet shows its own face's color.
pub open spec fn solved_spec() -> Seq<Face> {
    Seq::new(54, |i: int| face_of_spec(i))
}

pub open spec fn sgn(v: int) -> int {
    if v > 0 {
        1
    } else if v < 0 {
        -1
    } else {
        0
    }
}

/// Cubie grid index of a facelet: `(qx+1)*9 + (qy+1)*3 + (qz+1)` with `q`
/// the sign of each coordinate of its position.
pub open spec fn cubie_grid_spec(i: int) -> int {
    let p = sticker_pos(i);
    (sgn(p.0) + 1) * 9 + (sgn(p.1) + 1) * 3 + (sgn(p.2) + 1)
}

/// Cubie grid index of a facelet.
pub fn cubie_grid(i: usize) -> (g: u8)
    requires
        i < 54,
    ensures
        g as int == cubie_grid_spec(i as int),
        g < 27,
{
    let p = sticker_position(i);
    let mut q = [0i8; 3];
    let mut a: usize = 0;
    while a < 3
        invariant
            0 <= a <= 3,
            forall|k: int| 0 <= k < a ==> #[trigger] q[k] as int == sgn(p[k] as int),
        decreases 3 - a,
    {
        q[a] = if p[a] > 0 {
            1
        } else if p[a] < 0 {
            -1
        } else {
            0
        };
        a += 1;
    }
    ((q[0] + 1) * 9 + (q[1] + 1) * 3 + (q[2] + 1)) as u8
}

/// Cubie grid index of grid coordinate `q` (each component -1, 0 or 1).
pub open spec fn grid_of(q: Seq<i8>) -> int {
    (q[0] + 1) * 9 + (q[1] + 1) * 3 + (q[2] + 1)
}

/// The facelet index shown on `face` of the cubie at grid coordinate `q`
/// (each component -1, 0 or 1), if that cubie has a sticker there.
/// Used by renderers to map cube state onto cubie geometry.
pub fn sticker_index(q: [i8; 3], face: Face) -> (r: Option<usize>)
    requires
        forall|k: int| 0 <= k < 3 ==> -1 <= #[trigger] q[k] <= 1,
    ensures
        match r {
            Some(i) => {
                &&& i < 54
                &&& cubie_grid_spec(i as int) == grid_of(q@)
                &&& face_of_spec(i as int) == face
                &&& forall|j: int|
                    0 <= j < i ==> !(cubie_grid_spec(j) == grid_of(q@) && face_of_spec(j) == face)
            },
            None => forall|j: int|
                0 <= j < 54 ==> !(cubie_grid_spec(j) == grid_of(q@) && face_of_spec(j) == face),
        },
{
    let grid = ((q[0] + 1) * 9 + (q[1] + 1) * 3 + (q[2] + 1)) as u8;
    let mut i: usize = 0;
    while i < 54
        invariant
            0 <= i <= 54,
            grid as int == grid_of(q@),
            forall|j: int|
                0 <= j < i ==> !(cubie_grid_spec(j) == grid_of(q@) && face_of_spec(j) == face),
        decreases 54 - i,
    {
        if cubie_grid(i) == grid && face_of(i) == face {
            return Some(i);
        }
        i += 1;
    }
    None
}

/// The center facelet of face `f`.
pub open spec fn center_index(f: Face) -> int {
    9 * f.ord() + 4
}

/// Every sticker matches its face's center.
pub open spec fn is_solved_spec(s: Seq<Face>) -> bool {
    forall|i: int| 0 <= i < 54 ==> #[trigger] s[i] == s[center_index(face_of_spec(i))]
}

/// Every sticker outside the top layer matches its face's center.
pub open spec fn is_f2l_solved_spec(s: Seq<Face>) -> bool {
    forall|i: int|
        0 <= i < 54 ==> (cubie_grid_spec(i) / 3) % 3 == 2 || #[trigger] s[i] == s[center_index(
            face_of_spec(i),
        )]
}

/// The U face is uniform.
pub open spec fn is_oll_done_spec(s: Seq<Face>) -> bool {
    forall|i: int| 0 <= i < 9 ==> #[trigger] s[i] == s[4]
}

/// Grid indices of the FR corner (q = (1, -1, 1)) and FR edge (q = (1, 0, 1)).
pub open spec fn fr_corner_grid() -> int {
    20
}

pub open spec fn fr_edge_grid() -> int {
    23
}

/// Everything except the last layer and the FR pair matches its center.
pub open spec fn is_f2l_minus_fr_solved_spec(s: Seq<Face>) -> bool {
    forall|i: int|
        0 <= i < 54 ==> (cubie_grid_spec(i) / 3) % 3 == 2 || cubie_grid_spec(i) == fr_corner_grid()
            || cubie_grid_spec(i) == fr_edge_grid() || #[trigger] s[i] == s[center_index(
            face_of_spec(i),
        )]
}

/// All six centers sit on their home faces.
pub open spec fn centers_home(s: Seq<Face>) -> bool {
    forall|f: int| 0 <= f < 6 ==> #[trigger] s[9 * f + 4] == Face::from_ord(f)
}

/// The whole-cube rotation sequences tried by orientation normalization:
/// six ways to bring a face up, then four spins about the vertical axis.
pub open spec fn orientation_moves(k: int) -> Seq<Move> {
    let top = k / 4;
    let spin = k % 4;
    let t: Seq<Move> = if top == 0 {
        seq![]
    } else if top == 1 {
        seq![Move::Rot(RotAxis::X, Turns::Cw)]
    } else if top == 2 {
        seq![Move::Rot(RotAxis::X, Turns::Half)]
    } else if top == 3 {
        seq![Move::Rot(RotAxis::X, Turns::Ccw)]
    } else if top == 4 {
        seq![Move::Rot(RotAxis::Z, Turns::Cw)]
    } else {
        seq![Move::Rot(RotAxis::Z, Turns::Ccw)]
    };
    let sp: Seq<Move> = if spin == 0 {
        seq![]
    } else if spin == 1 {
        seq![Move::Rot(RotAxis::Y, Turns::Cw)]
    } else if spin == 2 {
        seq![Move::Rot(RotAxis::Y, Turns::Half)]
    } else {
        seq![Move::Rot(RotAxis::Y, Turns::Ccw)]
    };
    t + sp
}

/// The orientation-normalized state: unchanged when the centers are home,
/// otherwise the first of the 24 rotations (in the order above) that brings
/// them home, or unchanged when none does (illegal center arrangements).
pub open spec fn normalize_spec(s: Seq<Face>) -> Seq<Face> {
    if centers_home(s) {
        s
    } else if exists|k: int| 0 <= k < 24 && centers_home(apply_moves(s, orientation_moves(k))) {
        let k = choose|k: int|
            0 <= k < 24 && centers_home(apply_moves(s, orientation_moves(k))) && forall|j: int|
                0 <= j < k ==> !centers_home(apply_moves(s, orientation_moves(j)));
        apply_moves(s, orientation_moves(k))
    } else {
        s
    }
}

/// A 54-character facelet string of the state.
pub open spec fn facelet_string(s: Seq<Face>) -> Seq<char> {
    Seq::new(s.len(), |i: int| s[i].letter_spec())
}

/// The characters of `t` without leading and trailing Unicode whitespace.
#[verifier::opaque]
pub open spec fn trim_spec(t: Seq<char>) -> Seq<char> {
    if forall|i: int| 0 <= i < t.len() ==> white_space(#[trigger] t[i]) {
        seq![]
    } else {
        let a = choose|a: int|
            0 <= a < t.len() && !white_space(t[a]) && forall|j: int|
                0 <= j < a ==> white_space(#[trigger] t[j]);
        let b = choose|b: int|
            0 <= b < t.len() && !white_space(t[b]) && forall|j: int|
                b < j < t.len() ==> white_space(#[trigger] t[j]);
        t.subrange(a, b + 1)
    }
}

/// Text without surrounding whitespace is its own trimmed form.
pub proof fn lemma_trim_without_whitespace(t: Seq<char>)
    requires
        t.len() > 0,
        forall|i: int| 0 <= i < t.len() ==> !white_space(#[trigger] t[i]),
    ensures
        trim_spec(t) == t,
{
    reveal(trim_spec);
    assert(!white_space(t[0]));
    let a = choose|a: int|
        0 <= a < t.len() && !white_space(t[a]) && forall|j: int|
            0 <= j < a ==> white_space(#[trigger] t[j]);
    assert(a == 0) by {
        if a > 0 {
            assert(white_space(t[0]));
        }
    }
    let n = t.len() as int;
    assert(!white_space(t[n - 1]));
    let b = choose|b: int|
        0 <= b < t.len() && !white_space(t[b]) && forall|j: int|
            b < j < t.len() ==> white_space(#[trigger] t[j]);
    assert(b == n - 1) by {
        if b < n - 1 {
            assert(white_space(t[n - 1]));
        }
    }
    assert(t.subrange(0, n) =~= t);
}

/// Law: the facelet string of a state reads back as that state: it needs
/// no trimming, every character is a face letter, and no other state has
/// the same string.
pub proof fn lemma_facelet_string_round_trip(s: Seq<Face>, c: Seq<Face>)
    requires
        s.len() == 54,
        c.len() == 54,
    ensures
        trim_spec(facelet_string(s)) == facelet_string(s),
        forall|i: int| 0 <= i < 54 ==> Face::from_letter_spec(#[trigger] facelet_string(s)[i]) == Some(s[i]),
        facelet_string(c) == facelet_string(s) ==> c == s,
{
    let t = facelet_string(s);
    assert forall|i: int| 0 <= i < t.len() implies !white_space(#[trigger] t[i]) by {
        lemma_letter_roundtrip(s[i]);
    }
    lemma_trim_without_whitespace(t);
    assert forall|i: int| 0 <= i < 54 implies Face::from_letter_spec(#[trigger] facelet_string(s)[i])
        == Some(s[i]) by {
        lemma_letter_roundtrip(s[i]);
    }
    if facelet_string(c) == t {
        assert forall|i: int| 0 <= i < 54 implies #[trigger] c[i] == s[i] by {
            lemma_letter_roundtrip(s[i]);
            lemma_letter_roundtrip(c[i]);
            assert(facelet_string(c)[i] == t[i]);
        }
        assert(c =~= s);
    }
}

/// Error for facelet strings that do not describe 54 known colors.
#[derive(Clone, PartialEq, Eq, Debug)]
pub struct ParseStateError(pub String);

impl FaceletCube {
    /// The solved cube.
    pub fn solved() -> (s: FaceletCube)
        ensures
            s@ == solved_spec(),
    {
        let s = FaceletCube(
            [
            Face::U, Face::U, Face::U, Face::U, Face::U, Face::U, Face::U, Face::U, Face::U,
            Face::R, Face::R, Face::R, Face::R, Face::R, Face::R, Face::R, Face::R, Face::R,
            Face::F, Face::F, Face::F, Face::F, Face::F, Face::F, Face::F, Face::F, Face::F,
            Face::D, Face::D, Face::D, Face::D, Face::D, Face::D, Face::D, Face::D, Face::D,
            Face::L, Face::L, Face::L, Face::L, Face::L, Face::L, Face::L, Face::L, Face::L,
            Face::B, Face::B, Face::B, Face::B, Face::B, Face::B, Face::B, Face::B, Face::B,
        ],
        );
        assert(s@ =~= solved_spec());
        s
    }

    pub fn applied(self, m: Move) -> (r: FaceletCube)
        ensures
            r@ == apply_move(self@, m),
    {
        let mut s = self;
        s.apply(m);
        s
    }

    pub fn apply_alg(&mut self, alg: &Alg)
        ensures
            final(self)@ == apply_moves(old(self)@, alg@),
    {
        let mut k: usize = 0;
        while k < alg.0.len()
            invariant
                0 <= k <= alg@.len(),
                self@ == apply_moves(old(self)@, alg@.subrange(0, k as int)),
            decreases alg@.len() - k,
        {
            assert(alg@.subrange(0, k + 1).drop_last() =~= alg@.subrange(0, k as int));
            self.apply(alg.0[k]);
            k += 1;
        }
        assert(alg@.subrange(0, alg@.len() as int) =~= alg@);
    }

    pub fn applied_alg(self, alg: &Alg) -> (r: FaceletCube)
        ensures
            r@ == apply_moves(self@, alg@),
    {
        let mut s = self;
        s.apply_alg(alg);
        s
    }

    /// Whole-cube rotation by `y` (like a U turn of the entire cube),
    /// `quarter_turns` times.
    pub fn rotate_y(&self, quarter_turns: u8) -> (r: FaceletCube)
        ensures
            r@ == rotate_y_spec(self@, quarter_turns as int),
    {
        let mut s = *self;
        let q = quarter_turns % 4;
        if q == 1 {
            s.apply(Move::Rot(RotAxis::Y, Turns::Cw));
        } else if q == 2 {
            s.apply(Move::Rot(RotAxis::Y, Turns::Half));
        } else if q == 3 {
            s.apply(Move::Rot(RotAxis::Y, Turns::Ccw));
        }
        s
    }

    pub fn center(&self, f: Face) -> (c: Color)
        ensures
            c == self@[center_index(f)],
    {
        self.0[f.index() * 9 + 4]
    }

    /// Apply `quarter_turns` clockwise U turns.
    pub fn rotate_u(&self, quarter_turns: u8) -> (r: FaceletCube)
        ensures
            r@ == rotate_u_spec(self@, quarter_turns as int),
    {
        let mut s = *self;
        let q = quarter_turns % 4;
        if q == 1 {
            s.apply(Move::Face(Face::U, Turns::Cw));
        } else if q == 2 {
            s.apply(Move::Face(Face::U, Turns::Half));
        } else if q == 3 {
            s.apply(Move::Face(Face::U, Turns::Ccw));
        }
        s
    }

    /// 54-char Kociemba facelet string ("UUUUUUUUURRR...").
    pub fn to_facelet_string(&self) -> (r: String)
        ensures
            r@ == facelet_string(self@),
    {
        let mut out = String::new();
        let mut i: usize = 0;
        while i < 54
            invariant
                0 <= i <= 54,
                self@.len() == 54,
                out@ =~= facelet_string(self@).subrange(0, i as int),
            decreases 54 - i,
        {
            string_push(&mut out, self.0[i].letter());
            i += 1;
        }
        out
    }

    pub fn from_facelet_string(s: &str) -> (r: Result<FaceletCube, ParseStateError>)
        ensures
            ({
                let t = trim_spec(s@);
                match r {
                    Ok(c) => t.len() == 54 && facelet_string(c@) == t,
                    Err(_) => t.len() != 54 || exists|i: int|
                        0 <= i < 54 && Face::from_letter_spec(#[trigger] t[i]) is None,
                }
            }),
    {
        let chars = trimmed_chars(s);
        if chars.len() != 54 {
            let mut msg = String::from_str("expected 54 characters, got ");
            push_decimal(&mut msg, chars.len() as u64);
            return Err(ParseStateError(msg));
        }
        let mut arr = [Face::U; 54];
        let mut i: usize = 0;
        while i < 54
            invariant
                0 <= i <= 54,
                chars@.len() == 54,
                chars@ == trim_spec(s@),
                forall|k: int|
                    0 <= k < i ==> Face::from_letter_spec(#[trigger] chars@[k]) == Some(arr@[k]),
            decreases 54 - i,
        {
            match Face::from_letter(chars[i]) {
                Some(f) => {
                    arr[i] = f;
                },
                None => {
                    let mut msg = String::from_str("bad character '");
                    string_push(&mut msg, chars[i]);
                    push_str(&mut msg, "' at ");
                    push_decimal(&mut msg, i as u64);
                    return Err(ParseStateError(msg));
                },
            }
            i += 1;
        }
        let cube = FaceletCube(arr);
        proof {
            assert forall|k: int| 0 <= k < 54 implies #[trigger] facelet_string(cube@)[k]
                == chars@[k] by {
                lemma_letter_roundtrip(arr@[k]);
                let c = chars@[k];
                assert(Face::from_letter_spec(c) == Some(arr@[k]));
            }
            assert(facelet_string(cube@) =~= chars@);
        }
        Ok(cube)
    }

    /// All stickers match their face's center.
    pub fn is_solved(&self) -> (b: bool)
        ensures
            b == is_solved_spec(self@),
    {
        let mut i: usize = 0;
        while i < 54
            invariant
                0 <= i <= 54,
                self@.len() == 54,
                forall|k: int|
                    0 <= k < i ==> #[trigger] self@[k] == self@[center_index(face_of_spec(k))],
            decreases 54 - i,
        {
            if self.0[i] != self.center(face_of(i)) {
                return false;
            }
            i += 1;
        }
        true
    }

    /// Bottom two layers (all cubies with y <= 0) match their centers.
    pub fn is_f2l_solved(&self) -> (b: bool)
        ensures
            b == is_f2l_solved_spec(self@),
    {
        let mut i: usize = 0;
        while i < 54
            invariant
                0 <= i <= 54,
                self@.len() == 54,
                forall|k: int|
                    0 <= k < i ==> (cubie_grid_spec(k) / 3) % 3 == 2 || #[trigger] self@[k]
                        == self@[center_index(face_of_spec(k))],
            decreases 54 - i,
        {
            let qy = (cubie_grid(i) / 3) % 3;  // 0 = bottom, 1 = middle, 2 = top
            if !(qy == 2 || self.0[i] == self.center(face_of(i))) {
                return false;
            }
            i += 1;
        }
        true
    }

    /// The U face is uniform (orientation of the last layer done).
    pub fn is_oll_done(&self) -> (b: bool)
        ensures
            b == is_oll_done_spec(self@),
    {
        let c = self.center(Face::U);
        let mut i: usize = 0;
        while i < 9
            invariant
                0 <= i <= 9,
                self@.len() == 54,
                c == self@[4],
                forall|k: int| 0 <= k < i ==> #[trigger] self@[k] == self@[4],
            decreases 9 - i,
        {
            if self.0[i] != c {
                return false;
            }
            i += 1;
        }
        true
    }

    /// Everything except the last layer and the FR corner/edge pair matches
    /// its center (the precondition for an F2L "insert FR pair" case).
    pub fn is_f2l_minus_fr_solved(&self) -> (b: bool)
        ensures
            b == is_f2l_minus_fr_solved_spec(self@),
    {
        let fr_corner: u8 = 2 * 9 + 2;  // q = (1, -1, 1)
        let fr_edge: u8 = 2 * 9 + 3 + 2;  // q = (1, 0, 1)
        let mut i: usize = 0;
        while i < 54
            invariant
                0 <= i <= 54,
                self@.len() == 54,
                fr_corner == fr_corner_grid(),
                fr_edge == fr_edge_grid(),
                forall|k: int|
                    0 <= k < i ==> (cubie_grid_spec(k) / 3) % 3 == 2 || cubie_grid_spec(k)
                        == fr_corner_grid() || cubie_grid_spec(k) == fr_edge_grid()
                        || #[trigger] self@[k] == self@[center_index(face_of_spec(k))],
            decreases 54 - i,
        {
            let grid = cubie_grid(i);
            let qy = (grid / 3) % 3;
            if !(qy == 2 || grid == fr_corner || grid == fr_edge || self.0[i] == self.center(
                face_of(i),
            )) {
                return false;
            }
            i += 1;
        }
        true
    }
}

/// Do all six centers sit on their home faces?
fn centers_at_home(s: &FaceletCube) -> (b: bool)
    ensures
        b == centers_home(s@),
{
    let mut f: usize = 0;
    while f < 6
        invariant
            0 <= f <= 6,
            s@.len() == 54,
            forall|g: int| 0 <= g < f ==> #[trigger] s@[9 * g + 4] == Face::from_ord(g),
        decreases 6 - f,
    {
        if s.0[9 * f + 4] != Face::from_index(f) {
            return false;
        }
        f += 1;
    }
    true
}

/// Applying no move, one move, or two moves.
#[verifier::spinoff_prover]
#[verifier::rlimit(40)]
pub proof fn lemma_apply_moves_short(s: Seq<Face>, a: Move, b: Move)
    ensures
        apply_moves(s, Seq::<Move>::empty()) == s,
        apply_moves(s, seq![a]) == apply_move(s, a),
        apply_moves(s, seq![a, b]) == apply_move(apply_move(s, a), b),
{
    assert(seq![a].drop_last() =~= Seq::<Move>::empty());
    assert(seq![a, b].drop_last() =~= seq![a]);
    assert(apply_moves(s, Seq::<Move>::empty()) == s);
    assert(apply_moves(s, seq![a]) == apply_move(apply_moves(s, seq![a].drop_last()), seq![a].last()));
    assert(apply_moves(s, seq![a, b]) == apply_move(
        apply_moves(s, seq![a, b].drop_last()),
        seq![a, b].last(),
    ));
}

/// Applies candidate rotation `k` of orientation normalization.
pub(crate) fn apply_orientation(s: &mut FaceletCube, k: usize)
    requires
        k < 24,
    ensures
        final(s)@ == apply_moves(old(s)@, orientation_moves(k as int)),
{
    let top = k / 4;
    let spin = k % 4;
    let ghost s0 = s@;
    let ghost tm: Seq<Move>;
    if top == 1 {
        s.apply(Move::Rot(RotAxis::X, Turns::Cw));
        proof { tm = seq![Move::Rot(RotAxis::X, Turns::Cw)]; }
    } else if top == 2 {
        s.apply(Move::Rot(RotAxis::X, Turns::Half));
        proof { tm = seq![Move::Rot(RotAxis::X, Turns::Half)]; }
    } else if top == 3 {
        s.apply(Move::Rot(RotAxis::X, Turns::Ccw));
        proof { tm = seq![Move::Rot(RotAxis::X, Turns::Ccw)]; }
    } else if top == 4 {
        s.apply(Move::Rot(RotAxis::Z, Turns::Cw));
        proof { tm = seq![Move::Rot(RotAxis::Z, Turns::Cw)]; }
    } else if top == 5 {
        s.apply(Move::Rot(RotAxis::Z, Turns::Ccw));
        proof { tm = seq![Move::Rot(RotAxis::Z, Turns::Ccw)]; }
    } else {
        proof { tm = seq![]; }
    }
    let ghost s1 = s@;
    proof {
        if tm.len() == 1 {
            lemma_apply_moves_short(s0, tm[0], tm[0]);
            assert(tm =~= seq![tm[0]]);
        } else {
            lemma_apply_moves_short(s0, Move::Rot(RotAxis::X, Turns::Cw), Move::Rot(RotAxis::X, Turns::Cw));
            assert(tm =~= Seq::<Move>::empty());
        }
        assert(s1 == apply_moves(s0, tm));
    }
    let ghost sm: Seq<Move>;
    if spin == 1 {
        s.apply(Move::Rot(RotAxis::Y, Turns::Cw));
        proof { sm = seq![Move::Rot(RotAxis::Y, Turns::Cw)]; }
    } else if spin == 2 {
        s.apply(Move::Rot(RotAxis::Y, Turns::Half));
        proof { sm = seq![Move::Rot(RotAxis::Y, Turns::Half)]; }
    } else if spin == 3 {
        s.apply(Move::Rot(RotAxis::Y, Turns::Ccw));
        proof { sm = seq![Move::Rot(RotAxis::Y, Turns::Ccw)]; }
    } else {
        proof { sm = seq![]; }
    }
    proof {
        if sm.len() == 1 {
            lemma_apply_moves_short(s1, sm[0], sm[0]);
            assert(sm =~= seq![sm[0]]);
        } else {
            lemma_apply_moves_short(s1, Move::Rot(RotAxis::X, Turns::Cw), Move::Rot(RotAxis::X, Turns::Cw));
            assert(sm =~= Seq::<Move>::empty());
        }
        lemma_apply_moves_append(s0, tm, sm);
        assert(orientation_moves(k as int) =~= tm + sm);
    }
}

impl FaceletCube {
    /// Rotate the whole cube so every center is on its home face.
    /// For any legal cube the centers form one of 24 rotations of solved;
    /// ILLEGAL center arrangements (a bad camera scan) return the state
    /// unchanged — validation reports them properly, panicking must not.
    pub fn normalize_orientation(&self) -> (r: FaceletCube)
        ensures
            r@ == normalize_spec(self@),
    {
        if centers_at_home(self) {
            return *self;
        }
        let mut k: usize = 0;
        while k < 24
            invariant
                0 <= k <= 24,
                !centers_home(self@),
                forall|j: int|
                    0 <= j < k ==> !centers_home(
                        #[trigger] apply_moves(self@, orientation_moves(j)),
                    ),
            decreases 24 - k,
        {
            let mut s = *self;
            apply_orientation(&mut s, k);
            if centers_at_home(&s) {
                proof {
                    let kk = k as int;
                    assert(0 <= kk < 24 && centers_home(apply_moves(self@, orientation_moves(kk))));
                    let c = choose|c: int|
                        0 <= c < 24 && centers_home(apply_moves(self@, orientation_moves(c)))
                            && forall|j: int|
                            0 <= j < c ==> !centers_home(apply_moves(self@, orientation_moves(j)));
                    assert(c == kk) by {
                        if c < kk {
                        } else if kk < c {
                        }
                    }
                }
                return s;
            }
            k += 1;
        }
        // Scanned garbage (duplicate centers): leave as-is for validation.
        *self
    }
}

pub open spec fn rotate_y_spec(s: Seq<Face>, q: int) -> Seq<Face> {
    if q % 4 == 1 {
        apply_move(s, Move::Rot(RotAxis::Y, Turns::Cw))
    } else if q % 4 == 2 {
        apply_move(s, Move::Rot(RotAxis::Y, Turns::Half))
    } else if q % 4 == 3 {
        apply_move(s, Move::Rot(RotAxis::Y, Turns::Ccw))
    } else {
        s
    }
}

/// `k` quarter turns of the whole cube about the U axis.
#[verifier::opaque]
pub open spec fn y_power(s: Seq<Face>, k: nat) -> Seq<Face>
    decreases k,
{
    if k == 0 {
        s
    } else {
        apply_move(y_power(s, (k - 1) as nat), Move::Rot(RotAxis::Y, Turns::Cw))
    }
}

proof fn lemma_y_power_add(s: Seq<Face>, a: nat, b: nat)
    ensures
        y_power(y_power(s, a), b) == y_power(s, a + b),
    decreases b,
{
    reveal(y_power);
    if b > 0 {
        lemma_y_power_add(s, a, (b - 1) as nat);
    }
}

proof fn lemma_y_power_small(s: Seq<Face>)
    requires
        s.len() == 54,
    ensures
        y_power(s, 0) == s,
        y_power(s, 1) == apply_move(s, Move::Rot(RotAxis::Y, Turns::Cw)),
        y_power(s, 2) == apply_move(s, Move::Rot(RotAxis::Y, Turns::Half)),
        y_power(s, 3) == apply_move(s, Move::Rot(RotAxis::Y, Turns::Ccw)),
        y_power(s, 4) == s,
{
    reveal_with_fuel(y_power, 5);
    let cw = Move::Rot(RotAxis::Y, Turns::Cw);
    lemma_quarter_turn_powers(s, cw);
    assert(Move::with_turns(cw, Turns::Half) == Move::Rot(RotAxis::Y, Turns::Half));
    assert(Move::with_turns(cw, Turns::Ccw) == Move::Rot(RotAxis::Y, Turns::Ccw));
    assert(y_power(s, 0) == s);
    assert(y_power(s, 1) == apply_move(s, cw));
    assert(y_power(s, 2) == apply_move(apply_move(s, cw), cw));
    assert(y_power(s, 3) == apply_move(apply_move(apply_move(s, cw), cw), cw));
}

#[verifier::spinoff_prover]
proof fn lemma_rotate_y_is_power(s: Seq<Face>, q: int)
    requires
        s.len() == 54,
        0 <= q < 8,
    ensures
        rotate_y_spec(s, q) == y_power(s, (q % 4) as nat),
        y_power(s, q as nat) == y_power(s, (q % 4) as nat),
{
    lemma_y_power_small(s);
    let r = q % 4;
    assert(r == q || r == q - 4);
    if q >= 4 {
        lemma_y_power_add(s, 4, (q - 4) as nat);
    }
    if r == 0 {
        assert(rotate_y_spec(s, q) == s);
    } else if r == 1 {
        assert(rotate_y_spec(s, q) == apply_move(s, Move::Rot(RotAxis::Y, Turns::Cw)));
    } else if r == 2 {
        assert(rotate_y_spec(s, q) == apply_move(s, Move::Rot(RotAxis::Y, Turns::Half)));
    } else {
        assert(rotate_y_spec(s, q) == apply_move(s, Move::Rot(RotAxis::Y, Turns::Ccw)));
    }
}

proof fn lemma_y_power_len(s: Seq<Face>, k: nat)
    requires
        s.len() == 54,
    ensures
        y_power(s, k).len() == 54,
    decreases k,
{
    reveal(y_power);
    if k > 0 {
        lemma_y_power_len(s, (k - 1) as nat);
    }
}

/// Law: turning the whole cube by `y` `a` times and then `b` times is
/// turning it `a + b` times; in particular `y^j` is undone by `y^(4 - j)`.
#[verifier::spinoff_prover]
pub proof fn lemma_rotate_y_add(s: Seq<Face>, a: int, b: int)
    requires
        s.len() == 54,
        0 <= a < 4,
        0 <= b < 4,
    ensures
        rotate_y_spec(rotate_y_spec(s, a), b) == rotate_y_spec(s, a + b),
{
    lemma_rotate_y_is_power(s, a);
    assert(a % 4 == a);
    let t = y_power(s, a as nat);
    lemma_y_power_len(s, a as nat);
    assert(rotate_y_spec(s, a) == t);
    lemma_rotate_y_is_power(t, b);
    assert(b % 4 == b);
    assert(rotate_y_spec(t, b) == y_power(t, b as nat));
    lemma_y_power_add(s, a as nat, b as nat);
    lemma_rotate_y_is_power(s, a + b);
}

proof fn lemma_rotate_y_same_mod(s: Seq<Face>, x: int, y: int)
    requires
        x % 4 == y % 4,
    ensures
        rotate_y_spec(s, x) == rotate_y_spec(s, y),
{
}

/// Law: `rotate_y` counts quarter turns modulo four, for any counts:
/// turning `a` times and then `b` times is turning `a + b` times, and
/// `y^j` is undone by `y^((4 - j mod 4) mod 4)`.
#[verifier::spinoff_prover]
pub proof fn lemma_rotate_y_any(s: Seq<Face>, a: int, b: int)
    requires
        s.len() == 54,
        a >= 0,
        b >= 0,
    ensures
        rotate_y_spec(s, a) == rotate_y_spec(s, a % 4),
        rotate_y_spec(rotate_y_spec(s, a), b) == rotate_y_spec(s, a + b),
        rotate_y_spec(rotate_y_spec(s, a), (4 - a % 4) % 4) == s,
        rotate_y_spec(s, 0) == s,
{
    let ra = a % 4;
    let rb = b % 4;
    let c = (4 - ra) % 4;
    assert(ra % 4 == a % 4 && rb % 4 == b % 4);
    assert((ra + rb) % 4 == (a + b) % 4) by {
        vstd::arithmetic::div_mod::lemma_add_mod_noop(a, b, 4);
    }
    assert((ra + c) % 4 == 0);
    lemma_rotate_y_same_mod(s, a, ra);
    let t = rotate_y_spec(s, a);
    lemma_rotate_y_same_mod(t, b, rb);
    lemma_rotate_y_add(s, ra, rb);
    lemma_rotate_y_same_mod(s, ra + rb, a + b);
    lemma_rotate_y_add(s, ra, c);
    lemma_rotate_y_same_mod(s, ra + c, 0);
}

pub open spec fn rotate_u_spec(s: Seq<Face>, q: int) -> Seq<Face> {
    if q % 4 == 1 {
        apply_move(s, Move::Face(Face::U, Turns::Cw))
    } else if q % 4 == 2 {
        apply_move(s, Move::Face(Face::U, Turns::Half))
    } else if q % 4 == 3 {
        apply_move(s, Move::Face(Face::U, Turns::Ccw))
    } else {
        s
    }
}

/// The characters of `s` with surrounding whitespace removed (`str::trim`).
fn trimmed_chars(s: &str) -> (r: Vec<char>)
    ensures
        r@ == trim_spec(s@),
{
    let chars = str_chars(s);
    let n = chars.len();
    let mut a: usize = 0;
    while a < n && is_whitespace(chars[a])
        invariant
            0 <= a <= n,
            n == chars@.len(),
            chars@ == s@,
            forall|j: int| 0 <= j < a ==> white_space(#[trigger] chars@[j]),
        decreases n - a,
    {
        a += 1;
    }
    if a == n {
        proof {
            reveal(trim_spec);
        }
        return Vec::new();
    }
    let mut b: usize = n - 1;
    while is_whitespace(chars[b])
        invariant
            a <= b < n,
            n == chars@.len(),
            chars@ == s@,
            !white_space(chars@[a as int]),
            forall|j: int| b < j < n ==> white_space(#[trigger] chars@[j]),
        decreases b,
    {
        b -= 1;
    }
    let mut out: Vec<char> = Vec::new();
    let mut k = a;
    while k <= b
        invariant
            a <= k <= b + 1,
            b < n,
            n == chars@.len(),
            out@ =~= chars@.subrange(a as int, k as int),
        decreases b + 1 - k,
    {
        out.push(chars[k]);
        k += 1;
    }
    proof {
        reveal(trim_spec);
        let t = s@;
        assert(!(forall|i: int| 0 <= i < t.len() ==> white_space(#[trigger] t[i])));
        let a2 = choose|a2: int|
            0 <= a2 < t.len() && !white_space(t[a2]) && forall|j: int|
                0 <= j < a2 ==> white_space(#[trigger] t[j]);
        let b2 = choose|b2: int|
            0 <= b2 < t.len() && !white_space(t[b2]) && forall|j: int|
                b2 < j < t.len() ==> white_space(#[trigger] t[j]);
        assert(a2 == a) by {
            if a2 < a {
                assert(white_space(t[a2]));
            }
            if a < a2 {
                assert(white_space(t[a as int]));
            }
        }
        assert(b2 == b) by {
            if b2 < b {
                assert(white_space(t[b as int]));
            }
            if b < b2 {
                assert(white_space(t[b2]));
            }
        }
    }
    out
}

} // verus!
