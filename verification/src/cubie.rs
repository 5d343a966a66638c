//! Read-only piece (cubie) view over the facelet state: locate a corner or
//! edge piece by its sticker colors. Slots are numbered by increasing cubie
//! grid index; a corner slot lists its U/D facelet first, then the other
//! two in increasing order, and an edge slot lists its facelets in
//! increasing order.

use vstd::prelude::*;
use crate::facelet::{cubie_grid_spec, face_of_spec, Color, Face, FaceletCube};

verus! {

/// Facelets of corner slot `slot` (0..8).
pub open spec fn corner_slot(slot: int) -> (int, int, int) {
    if slot == 0 {
        (33, 42, 53)
    } else if slot == 1 {
        (27, 24, 44)
    } else if slot == 2 {
        (0, 36, 47)
    } else if slot == 3 {
        (6, 18, 38)
    } else if slot == 4 {
        (35, 17, 51)
    } else if slot == 5 {
        (29, 15, 26)
    } else if slot == 6 {
        (2, 11, 45)
    } else {
        (8, 9, 20)
    }
}

/// Facelets of edge slot `slot` (0..12).
pub open spec fn edge_slot(slot: int) -> (int, int) {
    if slot == 0 {
        (30, 43)
    } else if slot == 1 {
        (39, 50)
    } else if slot == 2 {
        (21, 41)
    } else if slot == 3 {
        (3, 37)
    } else if slot == 4 {
        (34, 52)
    } else if slot == 5 {
        (25, 28)
    } else if slot == 6 {
        (1, 46)
    } else if slot == 7 {
        (7, 19)
    } else if slot == 8 {
        (16, 32)
    } else if slot == 9 {
        (14, 48)
    } else if slot == 10 {
        (12, 23)
    } else {
        (5, 10)
    }
}

pub open spec fn is_ud(f: Face) -> bool {
    f == Face::U || f == Face::D
}

pub open spec fn corner_slot_ok(s: int) -> bool {
    let c = corner_slot(s);
    &&& cubie_grid_spec(c.0) == cubie_grid_spec(c.1)
    &&& cubie_grid_spec(c.1) == cubie_grid_spec(c.2)
    &&& is_ud(face_of_spec(c.0))
    &&& c.1 < c.2
    &&& (s + 1 < 8 ==> cubie_grid_spec(c.0) < cubie_grid_spec(corner_slot(s + 1).0))
}

pub open spec fn edge_slot_ok(s: int) -> bool {
    let e = edge_slot(s);
    &&& cubie_grid_spec(e.0) == cubie_grid_spec(e.1)
    &&& e.0 < e.1
    &&& (s + 1 < 12 ==> cubie_grid_spec(e.0) < cubie_grid_spec(edge_slot(s + 1).0))
}

/// The slot tables are the corner and edge cubies of the geometry: the
/// facelets of a slot share one cubie, a corner slot starts with its U/D
/// facelet and the rest ascend, and slots ascend by cubie grid index.
pub proof fn lemma_slots_follow_geometry()
    ensures
        forall|s: int| 0 <= s < 8 ==> #[trigger] corner_slot_ok(s),
        forall|s: int| 0 <= s < 12 ==> #[trigger] edge_slot_ok(s),
{
    assert(corner_slot_ok(0));
    assert(corner_slot_ok(1));
    assert(corner_slot_ok(2));
    assert(corner_slot_ok(3));
    assert(corner_slot_ok(4));
    assert(corner_slot_ok(5));
    assert(corner_slot_ok(6));
    assert(corner_slot_ok(7));
    assert(edge_slot_ok(0));
    assert(edge_slot_ok(1));
    assert(edge_slot_ok(2));
    assert(edge_slot_ok(3));
    assert(edge_slot_ok(4));
    assert(edge_slot_ok(5));
    assert(edge_slot_ok(6));
    assert(edge_slot_ok(7));
    assert(edge_slot_ok(8));
    assert(edge_slot_ok(9));
    assert(edge_slot_ok(10));
    assert(edge_slot_ok(11));
    assert forall|s: int| 0 <= s < 8 implies #[trigger] corner_slot_ok(s) by {
        assert(s == 0 || s == 1 || s == 2 || s == 3 || s == 4 || s == 5 || s == 6 || s == 7);
    }
    assert forall|s: int| 0 <= s < 12 implies #[trigger] edge_slot_ok(s) by {
        assert(s == 0 || s == 1 || s == 2 || s == 3 || s == 4 || s == 5 || s == 6 || s == 7 || s
            == 8 || s == 9 || s == 10 || s == 11);
    }
}

/// Facelet indices of corner slot `slot`.
fn corner_slot_exec(slot: u8) -> (t: [usize; 3])
    requires
        slot < 8,
    ensures
        t[0] as int == corner_slot(slot as int).0,
        t[1] as int == corner_slot(slot as int).1,
        t[2] as int == corner_slot(slot as int).2,
        t[0] < 54 && t[1] < 54 && t[2] < 54,
{
    match slot {
        0 => [33, 42, 53],
        1 => [27, 24, 44],
        2 => [0, 36, 47],
        3 => [6, 18, 38],
        4 => [35, 17, 51],
        5 => [29, 15, 26],
        6 => [2, 11, 45],
        _ => [8, 9, 20],
    }
}

/// Facelet indices of edge slot `slot`.
fn edge_slot_exec(slot: u8) -> (t: [usize; 2])
    requires
        slot < 12,
    ensures
        t[0] as int == edge_slot(slot as int).0,
        t[1] as int == edge_slot(slot as int).1,
        t[0] < 54 && t[1] < 54,
{
    match slot {
        0 => [30, 43],
        1 => [39, 50],
        2 => [21, 41],
        3 => [3, 37],
        4 => [34, 52],
        5 => [25, 28],
        6 => [1, 46],
        7 => [7, 19],
        8 => [16, 32],
        9 => [14, 48],
        10 => [12, 23],
        _ => [5, 10],
    }
}

/// Colors of corner slot `slot` in state `s`, in the slot's facelet order.
pub open spec fn corner_colors_spec(s: Seq<Face>, slot: int) -> Seq<Face> {
    let c = corner_slot(slot);
    seq![s[c.0], s[c.1], s[c.2]]
}

/// Colors of edge slot `slot` in state `s`, in the slot's facelet order.
pub open spec fn edge_colors_spec(s: Seq<Face>, slot: int) -> Seq<Face> {
    let e = edge_slot(slot);
    seq![s[e.0], s[e.1]]
}

/// Three colors rearranged into U R F D L B order.
pub open spec fn sort3_spec(a: Seq<Face>) -> Seq<Face> {
    let (x, y, z) = (a[0], a[1], a[2]);
    if x.ord() <= y.ord() {
        if y.ord() <= z.ord() {
            seq![x, y, z]
        } else if x.ord() <= z.ord() {
            seq![x, z, y]
        } else {
            seq![z, x, y]
        }
    } else {
        if x.ord() <= z.ord() {
            seq![y, x, z]
        } else if y.ord() <= z.ord() {
            seq![y, z, x]
        } else {
            seq![z, y, x]
        }
    }
}

/// Two colors rearranged into U R F D L B order.
pub open spec fn sort2_spec(a: Seq<Face>) -> Seq<Face> {
    if a[0].ord() <= a[1].ord() {
        seq![a[0], a[1]]
    } else {
        seq![a[1], a[0]]
    }
}

/// First position of `c` in `a`, if any.
pub open spec fn first_pos(a: Seq<Face>, c: Face) -> Option<int> {
    if exists|k: int| 0 <= k < a.len() && a[k] == c {
        Some(
            choose|k: int|
                0 <= k < a.len() && a[k] == c && forall|j: int| 0 <= j < k ==> a[j] != c,
        )
    } else {
        None
    }
}

fn sorted3(c: [Color; 3]) -> (r: [Color; 3])
    ensures
        r@ == sort3_spec(c@),
{
    let (x, y, z) = (c[0], c[1], c[2]);
    let (xo, yo, zo) = (x.index(), y.index(), z.index());
    if xo <= yo {
        if yo <= zo {
            [x, y, z]
        } else if xo <= zo {
            [x, z, y]
        } else {
            [z, x, y]
        }
    } else {
        if xo <= zo {
            [y, x, z]
        } else if yo <= zo {
            [y, z, x]
        } else {
            [z, y, x]
        }
    }
}

fn sorted2(c: [Color; 2]) -> (r: [Color; 2])
    ensures
        r@ == sort2_spec(c@),
{
    if c[0].index() <= c[1].index() {
        [c[0], c[1]]
    } else {
        [c[1], c[0]]
    }
}

proof fn lemma_sort3_members(a: Seq<Face>, c: Face)
    requires
        a.len() == 3,
    ensures
        (exists|k: int| 0 <= k < 3 && a[k] == c) <==> (exists|k: int|
            0 <= k < 3 && sort3_spec(a)[k] == c),
{
    let t = sort3_spec(a);
    if exists|k: int| 0 <= k < 3 && a[k] == c {
        let k = choose|k: int| 0 <= k < 3 && a[k] == c;
        assert(t[0] == c || t[1] == c || t[2] == c);
    }
    if exists|k: int| 0 <= k < 3 && t[k] == c {
        let k = choose|k: int| 0 <= k < 3 && t[k] == c;
        assert(a[0] == c || a[1] == c || a[2] == c);
    }
}

proof fn lemma_sort2_members(a: Seq<Face>, c: Face)
    requires
        a.len() == 2,
    ensures
        (exists|k: int| 0 <= k < 2 && a[k] == c) <==> (exists|k: int|
            0 <= k < 2 && sort2_spec(a)[k] == c),
{
    let t = sort2_spec(a);
    if exists|k: int| 0 <= k < 2 && a[k] == c {
        let k = choose|k: int| 0 <= k < 2 && a[k] == c;
        assert(t[0] == c || t[1] == c);
    }
    if exists|k: int| 0 <= k < 2 && t[k] == c {
        let k = choose|k: int| 0 <= k < 2 && t[k] == c;
        assert(a[0] == c || a[1] == c);
    }
}

/// Corner slot `j` holds the wanted colors in some order.
pub open spec fn corner_match(s: Seq<Face>, colors: Seq<Face>, j: int) -> bool {
    sort3_spec(corner_colors_spec(s, j)) == sort3_spec(colors)
}

/// Edge slot `j` holds the wanted colors in some order.
pub open spec fn edge_match(s: Seq<Face>, colors: Seq<Face>, j: int) -> bool {
    sort2_spec(edge_colors_spec(s, j)) == sort2_spec(colors)
}

/// Where the corner with these colors sits: the first matching slot and the
/// position of `colors[0]` in that slot's facelet order.
pub open spec fn corner_location(s: Seq<Face>, colors: Seq<Face>) -> Option<(int, int)> {
    if exists|j: int| 0 <= j < 8 && corner_match(s, colors, j) {
        let j = choose|j: int|
            0 <= j < 8 && corner_match(s, colors, j) && forall|i: int|
                0 <= i < j ==> !corner_match(s, colors, i);
        match first_pos(corner_colors_spec(s, j), colors[0]) {
            Some(o) => Some((j, o)),
            None => None,
        }
    } else {
        None
    }
}

/// Where the edge with these colors sits: the first matching slot and the
/// position of `colors[0]` in that slot's facelet order.
pub open spec fn edge_location(s: Seq<Face>, colors: Seq<Face>) -> Option<(int, int)> {
    if exists|j: int| 0 <= j < 12 && edge_match(s, colors, j) {
        let j = choose|j: int|
            0 <= j < 12 && edge_match(s, colors, j) && forall|i: int|
                0 <= i < j ==> !edge_match(s, colors, i);
        match first_pos(edge_colors_spec(s, j), colors[0]) {
            Some(o) => Some((j, o)),
            None => None,
        }
    } else {
        None
    }
}

/// The location search result as machine integers.
pub open spec fn location_u8(l: Option<(int, int)>) -> Option<(u8, u8)> {
    match l {
        Some((a, b)) => Some((a as u8, b as u8)),
        None => None,
    }
}

/// Position of `c` among the three colors, if present.
fn position3(have: [Color; 3], c: Color) -> (r: Option<u8>)
    ensures
        match r {
            Some(k) => first_pos(have@, c) == Some(k as int),
            None => first_pos(have@, c) is None,
        },
{
    let mut k: usize = 0;
    while k < 3
        invariant
            0 <= k <= 3,
            forall|j: int| 0 <= j < k ==> have@[j] != c,
        decreases 3 - k,
    {
        if have[k] == c {
            assert(first_pos(have@, c) == Some(k as int)) by {
                let w = choose|w: int|
                    0 <= w < have@.len() && have@[w] == c && forall|j: int|
                        0 <= j < w ==> have@[j] != c;
                assert(0 <= w < 3 && have@[w] == c);
                assert(w == k as int);
            }
            return Some(k as u8);
        }
        k += 1;
    }
    None
}

/// Position of `c` among the two colors, if present.
fn position2(have: [Color; 2], c: Color) -> (r: Option<u8>)
    ensures
        match r {
            Some(k) => first_pos(have@, c) == Some(k as int),
            None => first_pos(have@, c) is None,
        },
{
    let mut k: usize = 0;
    while k < 2
        invariant
            0 <= k <= 2,
            forall|j: int| 0 <= j < k ==> have@[j] != c,
        decreases 2 - k,
    {
        if have[k] == c {
            assert(first_pos(have@, c) == Some(k as int)) by {
                let w = choose|w: int|
                    0 <= w < have@.len() && have@[w] == c && forall|j: int|
                        0 <= j < w ==> have@[j] != c;
                assert(0 <= w < 2 && have@[w] == c);
                assert(w == k as int);
            }
            return Some(k as u8);
        }
        k += 1;
    }
    None
}

impl FaceletCube {
    /// Sticker colors currently sitting in corner slot `slot` (0..8), in the
    /// slot's facelet order (U/D facelet first).
    pub fn corner_colors(&self, slot: u8) -> (r: [Color; 3])
        requires
            slot < 8,
        ensures
            r@ == corner_colors_spec(self@, slot as int),
    {
        let t = corner_slot_exec(slot);
        let r = [self.0[t[0]], self.0[t[1]], self.0[t[2]]];
        assert(r@ =~= corner_colors_spec(self@, slot as int));
        r
    }

    /// Sticker colors in edge slot `slot` (0..12).
    pub fn edge_colors(&self, slot: u8) -> (r: [Color; 2])
        requires
            slot < 12,
        ensures
            r@ == edge_colors_spec(self@, slot as int),
    {
        let p = edge_slot_exec(slot);
        let r = [self.0[p[0]], self.0[p[1]]];
        assert(r@ =~= edge_colors_spec(self@, slot as int));
        r
    }

    /// Find the corner piece with exactly these three colors. Returns
    /// `(slot, orientation)` where `orientation` is the position of
    /// `colors[0]` within the slot's facelet order.
    pub fn locate_corner(&self, colors: [Color; 3]) -> (r: Option<(u8, u8)>)
        ensures
            r == location_u8(corner_location(self@, colors@)),
            r matches Some((slot, ori)) ==> slot < 8 && ori < 3,
    {
        let want = sorted3(colors);
        let mut slot: u8 = 0;
        while slot < 8
            invariant
                0 <= slot <= 8,
                want@ == sort3_spec(colors@),
                forall|j: int| 0 <= j < slot ==> !#[trigger] corner_match(self@, colors@, j),
            decreases 8 - slot,
        {
            let have = self.corner_colors(slot);
            let hs = sorted3(have);
            if hs[0] == want[0] && hs[1] == want[1] && hs[2] == want[2] {
                assert(hs@ =~= want@);
                proof {
                    lemma_sort3_members(colors@, colors[0]);
                    lemma_sort3_members(have@, colors[0]);
                    assert(colors@[0] == colors[0]);
                }
                assert(corner_match(self@, colors@, slot as int));
                proof {
                    let w = choose|j: int|
                        0 <= j < 8 && corner_match(self@, colors@, j) && forall|i: int|
                            0 <= i < j ==> !corner_match(self@, colors@, i);
                    assert(w == slot as int);
                }
                match position3(have, colors[0]) {
                    Some(ori) => {
                        return Some((slot, ori));
                    },
                    None => {
                        assert(false);
                        return None;
                    },
                }
            }
            assert(hs@ != want@);
            assert(!corner_match(self@, colors@, slot as int));
            slot += 1;
        }
        None
    }

    /// Find the edge piece with exactly these two colors. Returns
    /// `(slot, orientation)` where `orientation` is the position of
    /// `colors[0]` within the slot's facelet order.
    pub fn locate_edge(&self, colors: [Color; 2]) -> (r: Option<(u8, u8)>)
        ensures
            r == location_u8(edge_location(self@, colors@)),
            r matches Some((slot, ori)) ==> slot < 12 && ori < 2,
    {
        let want = sorted2(colors);
        let mut slot: u8 = 0;
        while slot < 12
            invariant
                0 <= slot <= 12,
                want@ == sort2_spec(colors@),
                forall|j: int| 0 <= j < slot ==> !#[trigger] edge_match(self@, colors@, j),
            decreases 12 - slot,
        {
            let have = self.edge_colors(slot);
            let hs = sorted2(have);
            if hs[0] == want[0] && hs[1] == want[1] {
                assert(hs@ =~= want@);
                proof {
                    lemma_sort2_members(colors@, colors[0]);
                    lemma_sort2_members(have@, colors[0]);
                    assert(colors@[0] == colors[0]);
                }
                assert(edge_match(self@, colors@, slot as int));
                proof {
                    let w = choose|j: int|
                        0 <= j < 12 && edge_match(self@, colors@, j) && forall|i: int|
                            0 <= i < j ==> !edge_match(self@, colors@, i);
                    assert(w == slot as int);
                }
                match position2(have, colors[0]) {
                    Some(ori) => {
                        return Some((slot, ori));
                    },
                    None => {
                        assert(false);
                        return None;
                    },
                }
            }
            assert(hs@ != want@);
            assert(!edge_match(self@, colors@, slot as int));
            slot += 1;
        }
        None
    }
}

} // verus!
