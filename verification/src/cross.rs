//! Micro-solver for the first cross: iterative deepening over face moves,
//! pruned by the four cross edges' single-edge distances.
//!
//! State = the four D-color edges' (slot, orientation); the heuristic is
//! the largest of the four edges' single-edge solve distances (a
//! breadth-first table over the 24 positions of one edge).

use vstd::prelude::*;
use crate::cubie::{edge_location, location_u8};
use crate::facelet::{apply_move, apply_moves, center_index, lemma_apply_moves_append, Face, FaceletCube};
use crate::moves::{is_face_move, Alg, Move};

verus! {

/// The four cross edges of a state: the D center color paired with each
/// side center color (F, R, B, L).
pub open spec fn cross_targets(s: Seq<Face>) -> Seq<Seq<Face>> {
    seq![
        seq![s[center_index(Face::D)], s[center_index(Face::F)]],
        seq![s[center_index(Face::D)], s[center_index(Face::R)]],
        seq![s[center_index(Face::D)], s[center_index(Face::B)]],
        seq![s[center_index(Face::D)], s[center_index(Face::L)]],
    ]
}

/// Home position of the cross edge with colors D and the `i`-th side
/// (F, R, B, L) on a solved cube.
pub open spec fn cross_side(i: int) -> Face {
    if i == 0 {
        Face::F
    } else if i == 1 {
        Face::R
    } else if i == 2 {
        Face::B
    } else {
        Face::L
    }
}

/// Every cross edge named by `targets` sits at its home position.
pub open spec fn edges_home(s: Seq<Face>, targets: Seq<Seq<Face>>, homes: Seq<(u8, u8)>) -> bool {
    forall|i: int| 0 <= i < 4 ==> location_u8(edge_location(s, #[trigger] targets[i])) == Some(homes[i])
}

/// Where the four cross edges sit on a solved cube.
pub open spec fn cross_homes_of(solved: Seq<Face>) -> Seq<Option<(u8, u8)>> {
    Seq::new(4, |i: int| location_u8(edge_location(solved, seq![Face::D, cross_side(i)])))
}

proof fn lemma_extend_path(
    s: Seq<Face>,
    mv: Move,
    added: Seq<Move>,
    targets: Seq<Seq<Face>>,
    homes: Seq<(u8, u8)>,
)
    requires
        is_face_move(mv),
        forall|k: int| 0 <= k < added.len() ==> is_face_move(#[trigger] added[k]),
        edges_home(apply_moves(apply_move(s, mv), added), targets, homes),
    ensures
        forall|k: int| 0 <= k < (seq![mv] + added).len() ==> is_face_move(#[trigger] (seq![mv] + added)[k]),
        edges_home(apply_moves(s, seq![mv] + added), targets, homes),
{
    let one = seq![mv];
    assert(one.drop_last() =~= Seq::<Move>::empty());
    assert(apply_moves(s, Seq::<Move>::empty()) == s);
    assert(apply_moves(s, one) == apply_move(s, mv));
    lemma_apply_moves_append(s, one, added);
    let all = one + added;
    assert forall|k: int| 0 <= k < all.len() implies is_face_move(#[trigger] all[k]) by {
        if k > 0 {
            assert(all[k] == added[k - 1]);
        }
    }
}

struct CrossSearch {
    targets: [[Face; 2]; 4],
    homes: [(u8, u8); 4],
    dist: [[u8; 24]; 4],
}

impl CrossSearch {
    spec fn targets_view(&self) -> Seq<Seq<Face>> {
        Seq::new(4, |i: int| self.targets[i]@)
    }

    spec fn homes_view(&self) -> Seq<(u8, u8)> {
        self.homes@
    }

    fn done(&self, s: &FaceletCube) -> (b: bool)
        ensures
            b == edges_home(s@, self.targets_view(), self.homes_view()),
    {
        let mut i: usize = 0;
        while i < 4
            invariant
                0 <= i <= 4,
                forall|j: int|
                    0 <= j < i ==> location_u8(edge_location(s@, #[trigger] self.targets_view()[j]))
                        == Some(self.homes_view()[j]),
            decreases 4 - i,
        {
            if s.locate_edge(self.targets[i]) != Some(self.homes[i]) {
                assert(self.targets_view()[i as int] == self.targets[i as int]@);
                return false;
            }
            i += 1;
        }
        true
    }

    /// The largest single-edge distance of the four cross edges (the
    /// largest value when one of them cannot be found).
    fn estimate(&self, s: &FaceletCube) -> usize {
        let mut worst: usize = 0;
        let mut i: usize = 0;
        while i < 4
            invariant
                0 <= i <= 4,
            decreases 4 - i,
        {
            match s.locate_edge(self.targets[i]) {
                None => {
                    return usize::MAX;
                },
                Some((slot, ori)) => {
                    let d = self.dist[i][slot as usize * 2 + ori as usize] as usize;
                    if d > worst {
                        worst = d;
                    }
                },
            }
            i += 1;
        }
        worst
    }

    /// Depth-first search for a face-move sequence of at most `depth_left`
    /// moves that brings the cross home, never turning the same face twice
    /// in a row. On success the moves are appended to `path`.
    fn dfs(&self, s: &FaceletCube, depth_left: usize, last_face: Option<usize>, path: &mut Vec<Move>) -> (found: bool)
        ensures
            found ==> exists|added: Seq<Move>|
                #![trigger apply_moves(s@, added)]
                final(path)@ == old(path)@ + added && added.len() <= depth_left && (forall|k: int|
                    0 <= k < added.len() ==> is_face_move(#[trigger] added[k])) && edges_home(
                    apply_moves(s@, added),
                    self.targets_view(),
                    self.homes_view(),
                ),
            !found ==> final(path)@ == old(path)@,
        decreases depth_left,
    {
        if self.done(s) {
            assert(apply_moves(s@, seq![]) == s@);
            assert(path@ =~= path@ + Seq::<Move>::empty());
            return true;
        }
        if depth_left == 0 || self.estimate(s) > depth_left {
            return false;
        }
        let mut idx: usize = 0;
        while idx < 18
            invariant
                0 <= idx <= 18,
                depth_left > 0,
                path@ == old(path)@,
            decreases 18 - idx,
        {
            let face = idx / 3;
            if last_face != Some(face) {
                let mv = Move::from_index(idx);
                let mut next = *s;
                next.apply(mv);
                path.push(mv);
                let ghost mid = path@;
                if self.dfs(&next, depth_left - 1, Some(face), path) {
                    proof {
                        let added = choose|added: Seq<Move>|
                            #![trigger apply_moves(next@, added)]
                            path@ == mid + added && added.len() <= depth_left - 1 && (forall|k: int|
                                0 <= k < added.len() ==> is_face_move(#[trigger] added[k]))
                                && edges_home(
                                apply_moves(next@, added),
                                self.targets_view(),
                                self.homes_view(),
                            );
                        lemma_extend_path(s@, mv, added, self.targets_view(), self.homes_view());
                        assert(path@ =~= old(path)@ + (seq![mv] + added));
                    }
                    return true;
                }
                path.pop();
                assert(path@ =~= old(path)@);
            }
            idx += 1;
        }
        false
    }
}

/// Transition table of a single edge under the 18 face moves:
/// `table[move][code]` is the code (`slot * 2 + ori`) the edge moves to,
/// probed by walking cubes breadth-first from a solved cube while
/// tracking the U-F edge (255 where no probe was made).
fn edge_transitions() -> (table: Vec<[u8; 24]>)
    ensures
        table@.len() == 18,
{
    let mut map: Vec<[u8; 24]> = Vec::new();
    let mut m: usize = 0;
    while m < 18
        invariant
            0 <= m <= 18,
            map@.len() == m,
        decreases 18 - m,
    {
        map.push([255u8; 24]);
        m += 1;
    }
    let mut seen = [false; 24];
    let mut queue: Vec<FaceletCube> = Vec::new();
    let solved = FaceletCube::solved();
    let home = match solved.locate_edge([Face::U, Face::F]) {
        Some((slot, ori)) => slot as usize * 2 + ori as usize,
        None => {
            return map;
        },
    };
    queue.push(solved);
    seen[home] = true;
    let mut head: usize = 0;
    let mut guard: usize = 0;
    while head < queue.len() && guard < 3000
        invariant
            map@.len() == 18,
            head <= queue@.len(),
            guard <= 3000,
        decreases 3000 - guard,
    {
        let cube = queue[head];
        head += 1;
        guard += 1;
        let code = match cube.locate_edge([Face::U, Face::F]) {
            Some((slot, ori)) => slot as usize * 2 + ori as usize,
            None => {
                continue;
            },
        };
        let mut idx: usize = 0;
        while idx < 18
            invariant
                0 <= idx <= 18,
                map@.len() == 18,
                code < 24,
                head <= queue@.len(),
            decreases 18 - idx,
        {
            if map[idx][code] == 255 {
                let mut n = cube;
                n.apply(Move::from_index(idx));
                if let Some((s2, o2)) = n.locate_edge([Face::U, Face::F]) {
                    let code2 = s2 as usize * 2 + o2 as usize;
                    let mut row = map[idx];
                    row[code] = code2 as u8;
                    map.set(idx, row);
                    if !seen[code2] {
                        seen[code2] = true;
                        queue.push(n);
                    }
                }
            }
            idx += 1;
        }
    }
    map
}

/// `dist[target][slot * 2 + ori]`: the number of face moves that bring a
/// lone cross edge from (slot, ori) to the home of `target` (255 when
/// unreachable in the probed transitions).
fn single_edge_distances(homes: &[(u8, u8); 4]) -> (dist: [[u8; 24]; 4])
    requires
        forall|i: int| 0 <= i < 4 ==> (#[trigger] homes[i]).0 < 12 && homes[i].1 < 2,
{
    let table = edge_transitions();
    let mut dist = [[255u8; 24]; 4];
    let mut t: usize = 0;
    while t < 4
        invariant
            0 <= t <= 4,
            table@.len() == 18,
            forall|i: int| 0 <= i < 4 ==> (#[trigger] homes[i]).0 < 12 && homes[i].1 < 2,
        decreases 4 - t,
    {
        let goal = homes[t].0 as usize * 2 + homes[t].1 as usize;
        let mut d = [255u8; 24];
        d[goal] = 0;
        // Relax every edge of the transition graph until distances settle
        // (a shortest path visits at most 24 positions).
        let mut round: usize = 0;
        while round < 24
            invariant
                0 <= round <= 24,
                table@.len() == 18,
            decreases 24 - round,
        {
            let mut code: usize = 0;
            while code < 24
                invariant
                    0 <= code <= 24,
                    table@.len() == 18,
                decreases 24 - code,
            {
                if d[code] < 255 {
                    let mut idx: usize = 0;
                    while idx < 18
                        invariant
                            0 <= idx <= 18,
                            code < 24,
                            d[code as int] < 255,
                            table@.len() == 18,
                        decreases 18 - idx,
                    {
                        // Moving backwards from `code` by the inverse move is
                        // moving forwards from the neighbor: distances are
                        // symmetric because every face move has an inverse
                        // face move, so relax `next` from `code`.
                        let next = table[idx][code] as usize;
                        if next < 24 && d[next] > d[code] + 1 {
                            d[next] = d[code] + 1;
                        }
                        idx += 1;
                    }
                }
                code += 1;
            }
            round += 1;
        }
        dist[t] = d;
        t += 1;
    }
    dist
}

/// The four cross edges of `s` already sit where they sit on a solved cube.
pub open spec fn cross_home(s: Seq<Face>) -> bool {
    forall|i: int|
        0 <= i < 4 ==> (#[trigger] cross_homes_of(crate::facelet::solved_spec())[i]) is Some
            && location_u8(edge_location(s, cross_targets(s)[i])) == cross_homes_of(
            crate::facelet::solved_spec(),
        )[i]
}

/// Solve the cross of the DOWN face's color (by centers): the first
/// face-move sequence found with bounds 1 to 9 (empty when the cross is
/// already home), or `None` if none is found or the state is malformed.
#[verifier::spinoff_prover]
#[verifier::rlimit(40)]
pub fn solve_cross(state: &FaceletCube) -> (r: Option<Alg>)
    ensures
        r matches Some(a) ==> {
            &&& a@.len() <= 9
            &&& forall|k: int| 0 <= k < a@.len() ==> is_face_move(#[trigger] a@[k])
            &&& forall|i: int|
                0 <= i < 4 ==> cross_homes_of(crate::facelet::solved_spec())[i] is Some
            &&& forall|i: int|
                0 <= i < 4 ==> location_u8(
                    edge_location(apply_moves(state@, a@), #[trigger] cross_targets(state@)[i]),
                ) == cross_homes_of(crate::facelet::solved_spec())[i]
        },
        cross_home(state@) ==> (r matches Some(a) && a@.len()
            == 0),
{
    let down = state.center(Face::D);
    let sides = [state.center(Face::F), state.center(Face::R), state.center(Face::B), state.center(Face::L)];
    let targets = [[down, sides[0]], [down, sides[1]], [down, sides[2]], [down, sides[3]]];
    let solved = FaceletCube::solved();
    let side_faces = [Face::F, Face::R, Face::B, Face::L];
    let mut homes = [(0u8, 0u8); 4];
    let mut i: usize = 0;
    while i < 4
        invariant
            0 <= i <= 4,
            solved@ == crate::facelet::solved_spec(),
            side_faces@ == seq![Face::F, Face::R, Face::B, Face::L],
            forall|j: int|
                0 <= j < i ==> Some(#[trigger] homes[j]) == cross_homes_of(solved@)[j] && homes[j].0
                    < 12 && homes[j].1 < 2,
        decreases 4 - i,
    {
        let pair = [Face::D, side_faces[i]];
        assert(pair@ =~= seq![Face::D, cross_side(i as int)]);
        match solved.locate_edge(pair) {
            Some(h) => {
                homes[i] = h;
            },
            None => {
                assert(!cross_home(state@)) by {
                    assert(cross_homes_of(solved@)[i as int] is None);
                }
                return None;
            },
        }
        i += 1;
    }
    let dist = single_edge_distances(&homes);
    let search = CrossSearch { targets, homes, dist };
    assert(search.targets_view() =~= cross_targets(state@)) by {
        assert(targets[0]@ =~= cross_targets(state@)[0]);
        assert(targets[1]@ =~= cross_targets(state@)[1]);
        assert(targets[2]@ =~= cross_targets(state@)[2]);
        assert(targets[3]@ =~= cross_targets(state@)[3]);
    }
    if search.done(state) {
        return Some(Alg::new(Vec::new()));
    }
    proof {
        if cross_home(state@) {
            assert forall|i: int| 0 <= i < 4 implies location_u8(
                edge_location(state@, #[trigger] search.targets_view()[i]),
            ) == Some(search.homes_view()[i]) by {
                assert(search.homes_view()[i] == search.homes[i]);
                assert(cross_homes_of(crate::facelet::solved_spec())[i] is Some);
            }
        }
    }
    let mut bound: usize = 1;
    while bound <= 9
        invariant
            1 <= bound <= 10,
            !cross_home(state@),
            search.targets_view() == cross_targets(state@),
            forall|j: int| 0 <= j < 4 ==> Some(#[trigger] search.homes[j]) == cross_homes_of(
                crate::facelet::solved_spec(),
            )[j],
        decreases 10 - bound,
    {
        let mut path: Vec<Move> = Vec::new();
        if search.dfs(state, bound, None, &mut path) {
            proof {
                let added = choose|added: Seq<Move>|
                    #![trigger apply_moves(state@, added)]
                    path@ == Seq::<Move>::empty() + added && added.len() <= bound && (forall|k: int|
                        0 <= k < added.len() ==> is_face_move(#[trigger] added[k])) && edges_home(
                        apply_moves(state@, added),
                        search.targets_view(),
                        search.homes_view(),
                    );
                assert(path@ =~= added);
                assert forall|i: int| 0 <= i < 4 implies location_u8(
                    edge_location(apply_moves(state@, path@), #[trigger] cross_targets(state@)[i]),
                ) == cross_homes_of(crate::facelet::solved_spec())[i] by {
                    assert(search.homes_view()[i] == search.homes[i]);
                }
            }
            return Some(Alg::new(path));
        }
        bound += 1;
    }
    None
}

} // verus!
