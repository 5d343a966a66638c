//! Scan resolution helpers: relabeling a capture-order scan into the
//! standard color scheme, and the constraint search that completes an
//! uncertain scan into a legal cube.

use vstd::prelude::*;
use crate::facelet::{apply_moves, apply_orientation, facelet_string, normalize_spec, orientation_moves, Face, FaceletCube};
use crate::solve::{count_upto, kewb_accepts, validate, validate_spec};

verus! {

/// The palette class (0 white, 1 yellow, 2 red, 3 orange, 4 green, 5 blue)
/// each face carries on a standard cube: U white, R red, F green, D yellow,
/// L orange, B blue.
pub open spec fn std_class(f: int) -> int {
    if f == 0 {
        0
    } else if f == 1 {
        2
    } else if f == 2 {
        4
    } else if f == 3 {
        1
    } else if f == 4 {
        3
    } else {
        5
    }
}

fn std_class_exec(f: usize) -> (c: usize)
    requires
        f < 6,
    ensures
        c as int == std_class(f as int),
{
    if f == 0 {
        0
    } else if f == 1 {
        2
    } else if f == 2 {
        4
    } else if f == 3 {
        1
    } else if f == 4 {
        3
    } else {
        5
    }
}

/// Every face of `rot` has a center whose capture-order label carries the
/// face's standard class.
pub open spec fn classes_standard(rot: Seq<Face>, class_of_face: Seq<usize>) -> bool {
    forall|f: int| 0 <= f < 6 ==> class_of_face[#[trigger] rot[9 * f + 4].ord()] as int == std_class(f)
}

/// The face whose center shows label `c` (the last one in face order).
pub open spec fn label_face(rot: Seq<Face>, c: Face) -> Face {
    if rot[49] == c {
        Face::B
    } else if rot[40] == c {
        Face::L
    } else if rot[31] == c {
        Face::D
    } else if rot[22] == c {
        Face::F
    } else if rot[13] == c {
        Face::R
    } else if rot[4] == c {
        Face::U
    } else {
        Face::U
    }
}

/// Relabeling of a rotated scan: each sticker takes the face its label's
/// center now sits on.
pub open spec fn relabeled(rot: Seq<Face>) -> Seq<Face> {
    Seq::new(54, |i: int| label_face(rot, rot[i]))
}

/// The standard-scheme cube for a scan: the first of the 24 whole-cube
/// rotations (in orientation order) that puts every class on its standard
/// face, relabeled; `None` when there is none (mirrored or nonstandard
/// schemes).
pub open spec fn relabel_spec(s: Seq<Face>, class_of_face: Seq<usize>) -> Option<Seq<Face>> {
    if exists|k: int| 0 <= k < 24 && classes_standard(apply_moves(s, orientation_moves(k)), class_of_face) {
        let k = choose|k: int|
            0 <= k < 24 && classes_standard(apply_moves(s, orientation_moves(k)), class_of_face)
                && forall|j: int|
                0 <= j < k ==> !classes_standard(apply_moves(s, orientation_moves(j)), class_of_face);
        Some(relabeled(apply_moves(s, orientation_moves(k))))
    } else {
        None
    }
}

/// The scan labels faces by capture order (first side shown = "F"), so a
/// red-first scan renders red as green. Given each capture-face's palette
/// class, rotate and relabel the cube so every color lands on its standard
/// face: the display then matches the physical cube, and so does the
/// guide's language. Returns `None` for cubes with a mirrored or
/// nonstandard scheme (keep the capture-order labeling there).
pub fn relabel_to_standard(cube: &FaceletCube, class_of_face: &[usize; 6]) -> (r: Option<FaceletCube>)
    ensures
        match r {
            Some(c) => relabel_spec(cube@, class_of_face@) == Some(c@),
            None => relabel_spec(cube@, class_of_face@) is None,
        },
{
    let mut k: usize = 0;
    while k < 24
        invariant
            0 <= k <= 24,
            forall|j: int|
                0 <= j < k ==> !classes_standard(
                    #[trigger] apply_moves(cube@, orientation_moves(j)),
                    class_of_face@,
                ),
        decreases 24 - k,
    {
        let mut rotated = *cube;
        apply_orientation(&mut rotated, k);
        let mut ok = true;
        let mut f: usize = 0;
        while f < 6
            invariant
                0 <= f <= 6,
                rotated@.len() == 54,
                ok ==> forall|g: int| 0 <= g < f ==> class_of_face@[#[trigger] rotated@[9 * g + 4].ord()] as int == std_class(g),
                !ok ==> !classes_standard(rotated@, class_of_face@),
            decreases 6 - f,
        {
            if ok && class_of_face[rotated.0[f * 9 + 4].index()] != std_class_exec(f) {
                ok = false;
                assert(!classes_standard(rotated@, class_of_face@)) by {
                    let ff = f as int;
                    assert(class_of_face@[rotated@[9 * ff + 4].ord()] as int != std_class(ff));
                }
            }
            f += 1;
        }
        if ok {
            let mut relabel = [Face::U; 6];
            let mut f: usize = 0;
            while f < 6
                invariant
                    0 <= f <= 6,
                    rotated@.len() == 54,
                    forall|c: Face| #[trigger] relabel[c.ord()] == label_face_upto(rotated@, c, f as int),
                decreases 6 - f,
            {
                relabel[rotated.0[f * 9 + 4].index()] = Face::from_index(f);
                proof {
                    assert forall|c: Face| #[trigger] relabel[c.ord()] == label_face_upto(rotated@, c, f + 1) by {
                        if c == rotated@[9 * f + 4] {
                        } else {
                            assert(c.ord() != rotated@[9 * f + 4].ord());
                        }
                    }
                }
                f += 1;
            }
            let mut out = rotated;
            let mut i: usize = 0;
            while i < 54
                invariant
                    0 <= i <= 54,
                    rotated@.len() == 54,
                    out@.len() == 54,
                    forall|c: Face| #[trigger] relabel[c.ord()] == label_face_upto(rotated@, c, 6),
                    forall|j: int| 0 <= j < i ==> #[trigger] out@[j] == label_face(rotated@, rotated@[j]),
                    forall|j: int| i <= j < 54 ==> #[trigger] out@[j] == rotated@[j],
                decreases 54 - i,
            {
                let c = out.0[i];
                proof {
                    lemma_label_upto_full(rotated@, c);
                }
                out.0[i] = relabel[c.index()];
                i += 1;
            }
            proof {
                let kk = k as int;
                assert(classes_standard(rotated@, class_of_face@));
                let w = choose|w: int|
                    0 <= w < 24 && classes_standard(apply_moves(cube@, orientation_moves(w)), class_of_face@)
                        && forall|j: int|
                        0 <= j < w ==> !classes_standard(apply_moves(cube@, orientation_moves(j)), class_of_face@);
                assert(w == kk) by {
                    if w < kk {
                    } else if kk < w {
                    }
                }
                assert(out@ =~= relabeled(rotated@));
            }
            return Some(out);
        }
        k += 1;
    }
    None
}

/// The relabel table after the centers of faces `0..n` were written in
/// order: the last of them showing `c`, else U.
pub open spec fn label_face_upto(rot: Seq<Face>, c: Face, n: int) -> Face
    decreases n,
{
    if n <= 0 {
        Face::U
    } else if rot[9 * (n - 1) + 4] == c {
        Face::from_ord(n - 1)
    } else {
        label_face_upto(rot, c, n - 1)
    }
}

proof fn lemma_label_upto_full(rot: Seq<Face>, c: Face)
    ensures
        label_face_upto(rot, c, 6) == label_face(rot, c),
{
    reveal_with_fuel(label_face_upto, 7);
}

/// A relabeled standard-scheme cube has every center on its home face.
pub proof fn lemma_relabeled_centers_home(s: Seq<Face>, class_of_face: Seq<usize>)
    requires
        s.len() == 54,
        class_of_face.len() == 6,
        relabel_spec(s, class_of_face) is Some,
    ensures
        forall|f: int| 0 <= f < 6 ==> #[trigger] relabel_spec(s, class_of_face)->0[9 * f + 4] == Face::from_ord(f),
{
    let k = choose|k: int|
        0 <= k < 24 && classes_standard(apply_moves(s, orientation_moves(k)), class_of_face)
            && forall|j: int|
            0 <= j < k ==> !classes_standard(apply_moves(s, orientation_moves(j)), class_of_face);
    let rot = apply_moves(s, orientation_moves(k));
    crate::facelet::lemma_apply_moves_len(s, orientation_moves(k));
    assert(class_of_face[rot[9 * 0int + 4].ord()] as int == std_class(0));
    assert(class_of_face[rot[9 * 1int + 4].ord()] as int == std_class(1));
    assert(class_of_face[rot[9 * 2int + 4].ord()] as int == std_class(2));
    assert(class_of_face[rot[9 * 3int + 4].ord()] as int == std_class(3));
    assert(class_of_face[rot[9 * 4int + 4].ord()] as int == std_class(4));
    assert(class_of_face[rot[9 * 5int + 4].ord()] as int == std_class(5));
    assert(rot[4] != rot[13] && rot[4] != rot[22] && rot[4] != rot[31] && rot[4] != rot[40] && rot[4] != rot[49]);
    assert(rot[13] != rot[22] && rot[13] != rot[31] && rot[13] != rot[40] && rot[13] != rot[49]);
    assert(rot[22] != rot[31] && rot[22] != rot[40] && rot[22] != rot[49]);
    assert(rot[31] != rot[40] && rot[31] != rot[49]);
    assert(rot[40] != rot[49]);
    assert forall|f: int| 0 <= f < 6 implies #[trigger] relabeled(rot)[9 * f + 4] == Face::from_ord(f) by {
        assert(relabeled(rot)[9 * f + 4] == label_face(rot, rot[9 * f + 4]));
        assert(f == 0 || f == 1 || f == 2 || f == 3 || f == 4 || f == 5);
    }
}

/// Search budget in visited nodes: the resolver must never freeze the UI.
pub const MAX_CHECKS: usize = 60_000;

/// A legal cube by validation (with the solver's acceptance of its pieces).
pub open spec fn legal(s: Seq<Face>) -> bool {
    validate_spec(s, kewb_accepts(facelet_string(normalize_spec(s)))) is Ok
}

/// The candidates tried for a free cell: its first `width` ranked colors.
pub open spec fn candidate(ranked: Seq<Vec<Face>>, widths: Seq<usize>, cell: int, c: Face) -> bool {
    exists|k: int| 0 <= k < widths[cell] && 0 <= k < ranked[cell]@.len() && ranked[cell]@[k] == c
}

/// What a completed search returns: a legal cube that keeps the cells not
/// in `free[pos..]` and gives each of those a candidate color.
pub open spec fn search_result(
    c: Seq<Face>,
    start: Seq<Face>,
    free: Seq<usize>,
    pos: int,
    ranked: Seq<Vec<Face>>,
    widths: Seq<usize>,
) -> bool {
    &&& legal(c)
    &&& c.len() == 54
    &&& forall|i: int|
        0 <= i < 54 && (forall|p: int| pos <= p < free.len() ==> #[trigger] free[p] != i) ==> c[i]
            == start[i]
    &&& forall|p: int| pos <= p < free.len() ==> candidate(ranked, widths, #[trigger] free[p] as int, c[free[p] as int])
}

/// Cell `i` is one of `free[pos..]`.
pub open spec fn in_rest(free: Seq<usize>, pos: int, i: int) -> bool {
    exists|p: int| pos <= p < free.len() && #[trigger] free[p] == i
}

/// No cell occurs twice in `free`.
pub open spec fn distinct_cells(free: Seq<usize>) -> bool {
    forall|a: int, b: int| 0 <= a < b < free.len() ==> #[trigger] free[a] != #[trigger] free[b]
}

/// How many of the first `n` cells outside `free[pos..]` show color `c`.
pub open spec fn fixed_count(st: Seq<Face>, free: Seq<usize>, pos: int, c: Face, n: nat) -> nat
    decreases n,
{
    if n == 0 {
        0
    } else {
        fixed_count(st, free, pos, c, (n - 1) as nat) + if !in_rest(free, pos, n - 1) && st[n - 1] == c {
            1nat
        } else {
            0nat
        }
    }
}

/// A completion that keeps the cells outside `free[pos..]` shows each
/// color at least as often there, and once more where `cell` shows it.
proof fn lemma_completion_count(
    c: Seq<Face>,
    st: Seq<Face>,
    free: Seq<usize>,
    pos: int,
    cell: int,
    col: Face,
    n: nat,
)
    requires
        in_rest(free, pos, cell),
        c[cell] == col,
        forall|i: int| 0 <= i < n && !in_rest(free, pos, i) ==> c[i] == st[i],
    ensures
        count_upto(c, col, n) >= fixed_count(st, free, pos, col, n) + if 0 <= cell < n {
            1int
        } else {
            0int
        },
    decreases n,
{
    if n > 0 {
        lemma_completion_count(c, st, free, pos, cell, col, (n - 1) as nat);
    }
}

/// The fixed counts look only at the cells outside `free[pos..]`.
proof fn lemma_fixed_count_same(a: Seq<Face>, b: Seq<Face>, free: Seq<usize>, pos: int, col: Face, n: nat)
    requires
        forall|i: int| 0 <= i < n && !in_rest(free, pos, i) ==> a[i] == b[i],
    ensures
        fixed_count(a, free, pos, col, n) == fixed_count(b, free, pos, col, n),
    decreases n,
{
    if n > 0 {
        lemma_fixed_count_same(a, b, free, pos, col, (n - 1) as nat);
    }
}

/// Fixing the color of `free[pos]` moves it out of the free cells.
proof fn lemma_fixed_count_place(st: Seq<Face>, free: Seq<usize>, pos: int, cand: Face, col: Face, n: nat)
    requires
        distinct_cells(free),
        0 <= pos < free.len(),
        free[pos] < 54,
        st.len() == 54,
        n <= 54,
    ensures
        fixed_count(st.update(free[pos] as int, cand), free, pos + 1, col, n) == fixed_count(
            st,
            free,
            pos,
            col,
            n,
        ) + if free[pos] < n && cand == col {
            1int
        } else {
            0int
        },
    decreases n,
{
    if n > 0 {
        lemma_fixed_count_place(st, free, pos, cand, col, (n - 1) as nat);
        let i = n - 1;
        let cell = free[pos] as int;
        if i == cell {
            assert(in_rest(free, pos, i));
            assert(!in_rest(free, pos + 1, i)) by {
                if in_rest(free, pos + 1, i) {
                    let p = choose|p: int| pos + 1 <= p < free.len() && #[trigger] free[p] == i;
                    assert(free[pos] != free[p]);
                }
            }
        } else {
            assert(in_rest(free, pos, i) == in_rest(free, pos + 1, i)) by {
                if in_rest(free, pos, i) {
                    let p = choose|p: int| pos <= p < free.len() && #[trigger] free[p] == i;
                    assert(p != pos);
                }
            }
            assert(st.update(cell, cand)[i] == st[i]);
        }
    }
}

fn search_rec(
    state: &mut FaceletCube,
    free: &[usize],
    pos: usize,
    counts: &mut [u8; 6],
    ranked: &[Vec<Face>],
    widths: &[usize; 54],
    checks: &mut usize,
) -> (r: Option<FaceletCube>)
    requires
        pos <= free@.len(),
        forall|p: int| 0 <= p < free@.len() ==> #[trigger] free@[p] < 54,
        ranked@.len() == 54,
        *old(checks) < MAX_CHECKS,
        distinct_cells(free@) ==> forall|j: int|
            0 <= j < 6 ==> #[trigger] old(counts)[j] as nat == fixed_count(
                old(state)@,
                free@,
                pos as int,
                Face::from_ord(j),
                54,
            ),
    ensures
        *final(checks) <= MAX_CHECKS,
        *final(checks) >= *old(checks),
        r is None ==> *final(counts) == *old(counts),
        r is None && *final(checks) < MAX_CHECKS && distinct_cells(free@) ==> forall|c: Seq<Face>|
            !#[trigger] search_result(c, old(state)@, free@, pos as int, ranked@, widths@),
        final(state)@.len() == 54,
        forall|i: int|
            0 <= i < 54 && (forall|p: int| pos <= p < free@.len() ==> #[trigger] free@[p] != i) ==> final(state)@[i] == old(state)@[i],
        r matches Some(c) ==> search_result(c@, old(state)@, free@, pos as int, ranked@, widths@),
    decreases free@.len() - pos,
{
    *checks += 1;
    if *checks >= MAX_CHECKS {
        return None;
    }
    if pos == free.len() {
        if validate(state).is_ok() {
            return Some(*state);
        }
        assert forall|c: Seq<Face>| !#[trigger] search_result(c, state@, free@, pos as int, ranked@, widths@) by {
            if search_result(c, state@, free@, pos as int, ranked@, widths@) {
                assert(c =~= state@);
            }
        }
        return None;
    }
    let cell = free[pos];
    let n = if widths[cell] < ranked[cell].len() {
        widths[cell]
    } else {
        ranked[cell].len()
    };
    let ghost start = state@;
    let flen = free.len();
    let mut k: usize = 0;
    while k < n
        invariant
            0 <= k <= n,
            pos < free@.len(),
            cell == free@[pos as int],
            cell < 54,
            n <= widths[cell as int] && n <= ranked@[cell as int]@.len(),
            forall|p: int| 0 <= p < free@.len() ==> #[trigger] free@[p] < 54,
            ranked@.len() == 54,
            *checks <= MAX_CHECKS,
            *checks >= *old(checks),
            *counts == *old(counts),
            state@.len() == 54,
            flen == free@.len(),
            forall|i: int|
                0 <= i < 54 && (forall|p: int| pos <= p < free@.len() ==> #[trigger] free@[p] != i) ==> #[trigger] state@[i] == start[i],
            start == old(state)@,
            distinct_cells(free@) ==> forall|j: int|
                0 <= j < 6 ==> #[trigger] old(counts)[j] as nat == fixed_count(
                    start,
                    free@,
                    pos as int,
                    Face::from_ord(j),
                    54,
                ),
            (distinct_cells(free@) && *checks < MAX_CHECKS) ==> forall|k2: int, c: Seq<Face>|
                0 <= k2 < k && #[trigger] search_result(c, start, free@, pos as int, ranked@, widths@)
                    ==> c[cell as int] != #[trigger] ranked@[cell as int]@[k2],
        decreases n - k,
    {
        let cand = ranked[cell][k];
        k += 1;
        let ci = cand.index();
        if counts[ci] >= 9 {
            proof {
                if distinct_cells(free@) && *checks < MAX_CHECKS {
                    assert forall|k2: int, c: Seq<Face>|
                        0 <= k2 < k && #[trigger] search_result(c, start, free@, pos as int, ranked@, widths@)
                            implies c[cell as int] != #[trigger] ranked@[cell as int]@[k2] by {
                        if k2 == k - 1 && c[cell as int] == cand {
                            crate::facelet::lemma_letter_roundtrip(cand);
                            assert(in_rest(free@, pos as int, cell as int));
                            lemma_completion_count(c, start, free@, pos as int, cell as int, cand, 54);
                            assert(count_upto(c, Face::from_ord(ci as int), 54) == 9);
                        }
                    }
                }
            }
            continue;
        }
        if *checks >= MAX_CHECKS {
            return None;
        }
        let ghost before = state@;
        state.0[cell] = cand;
        counts[ci] = counts[ci] + 1;
        let ghost placed = state@;
        proof {
            assert(placed == before.update(cell as int, cand));
            if distinct_cells(free@) {
                crate::facelet::lemma_letter_roundtrip(cand);
                assert forall|j: int| 0 <= j < 6 implies #[trigger] counts[j] as nat == fixed_count(
                    placed,
                    free@,
                    pos + 1,
                    Face::from_ord(j),
                    54,
                ) by {
                    lemma_fixed_count_same(before, start, free@, pos as int, Face::from_ord(j), 54);
                    lemma_fixed_count_place(before, free@, pos as int, cand, Face::from_ord(j), 54);
                    if j != ci {
                        assert(Face::from_ord(j) != cand);
                    }
                }
            }
        }
        if let Some(found) = search_rec(state, free, pos + 1, counts, ranked, widths, checks) {
            proof {
                assert(candidate(ranked@, widths@, cell as int, cand)) by {
                    assert(ranked@[cell as int]@[k - 1] == cand);
                }
                assert forall|i: int|
                    0 <= i < 54 && (forall|p: int| pos <= p < free@.len() ==> #[trigger] free@[p] != i)
                        implies found@[i] == start[i] by {
                    assert(free@[pos as int] != i);
                    assert(forall|p: int| pos + 1 <= p < free@.len() ==> #[trigger] free@[p] != i);
                    assert(found@[i] == placed[i]);
                }
                assert forall|p: int| pos <= p < free@.len() implies candidate(
                    ranked@,
                    widths@,
                    #[trigger] free@[p] as int,
                    found@[free@[p] as int],
                ) by {
                    if p == pos {
                        if forall|p2: int| pos + 1 <= p2 < free@.len() ==> #[trigger] free@[p2] != cell {
                            assert(found@[cell as int] == placed[cell as int]);
                        } else {
                            let p2 = choose|p2: int| pos + 1 <= p2 < free@.len() && #[trigger] free@[p2] == cell;
                            assert(candidate(ranked@, widths@, free@[p2] as int, found@[free@[p2] as int]));
                        }
                    }
                }
            }
            return Some(found);
        }
        counts[ci] = counts[ci] - 1;
        proof {
            if distinct_cells(free@) && *checks < MAX_CHECKS {
                assert forall|k2: int, c: Seq<Face>|
                    0 <= k2 < k && #[trigger] search_result(c, start, free@, pos as int, ranked@, widths@)
                        implies c[cell as int] != #[trigger] ranked@[cell as int]@[k2] by {
                    if k2 == k - 1 && c[cell as int] == cand {
                        assert forall|i: int|
                            0 <= i < 54 && (forall|p: int| pos + 1 <= p < free@.len() ==> #[trigger] free@[p] != i)
                                implies c[i] == placed[i] by {
                            if i != cell {
                                assert(forall|p: int| pos <= p < free@.len() ==> #[trigger] free@[p] != i);
                            }
                        }
                        assert(search_result(c, placed, free@, pos + 1, ranked@, widths@));
                    }
                }
            }
            assert forall|i: int|
                0 <= i < 54 && (forall|p: int| pos <= p < free@.len() ==> #[trigger] free@[p] != i) implies #[trigger] state@[i] == start[i] by {
                assert(free@[pos as int] != i);
                assert(forall|p: int| pos + 1 <= p < free@.len() ==> #[trigger] free@[p] != i);
                assert(state@[i] == placed[i]);
            }
        }
    }
    None
}

/// Depth-first over the free cells' ranked candidates (the first
/// `widths[cell]` of them) with color-count pruning; full validation only
/// on complete assignments. `checks` counts visited nodes across calls and
/// stops the search at the budget. Without a result and within the budget,
/// no assignment of candidates to distinct free cells is a legal cube.
pub fn search(
    base: &FaceletCube,
    free: &[usize],
    ranked: &[Vec<Face>],
    widths: &[usize; 54],
    checks: &mut usize,
) -> (r: Option<FaceletCube>)
    requires
        forall|p: int| 0 <= p < free@.len() ==> #[trigger] free@[p] < 54,
        ranked@.len() == 54,
        *old(checks) <= MAX_CHECKS,
    ensures
        *final(checks) <= MAX_CHECKS,
        *final(checks) >= *old(checks),
        r matches Some(c) ==> search_result(c@, base@, free@, 0, ranked@, widths@),
        r is None && *final(checks) < MAX_CHECKS && distinct_cells(free@) ==> forall|c: Seq<Face>|
            !#[trigger] search_result(c, base@, free@, 0, ranked@, widths@),
{
    let mut counts = [0u8; 6];
    let mut i: usize = 0;
    while i < 54
        invariant
            0 <= i <= 54,
            forall|c: int| 0 <= c < 6 ==> #[trigger] counts[c] <= i,
            forall|c: int|
                0 <= c < 6 ==> #[trigger] counts[c] as nat == fixed_count(base@, free@, 0, Face::from_ord(c), i as nat),
        decreases 54 - i,
    {
        let mut skip = false;
        let mut p: usize = 0;
        while p < free.len()
            invariant
                0 <= p <= free@.len(),
                skip == exists|q: int| 0 <= q < p && #[trigger] free@[q] == i,
            decreases free@.len() - p,
        {
            if free[p] == i {
                skip = true;
            }
            p += 1;
        }
        assert(skip == in_rest(free@, 0, i as int));
        if !skip {
            let ci = base.0[i].index();
            counts[ci] = counts[ci] + 1;
            proof {
                crate::facelet::lemma_letter_roundtrip(base@[i as int]);
                assert forall|c: int| 0 <= c < 6 && c != ci implies Face::from_ord(c) != base@[i as int] by {
                }
            }
        }
        i += 1;
    }
    if *checks >= MAX_CHECKS {
        return None;
    }
    let mut state = *base;
    search_rec(&mut state, free, 0, &mut counts, ranked, widths, checks)
}

} // verus!
