//! The dimensions the two-phase search indexes its tables with: six move
//! tables (co, eo, e_combo with 18 moves; cp, ep, e_ep with the 10
//! phase-two moves), whose entries are row numbers of the same table, and
//! four pruning tables indexed by two coordinates.

use vstd::prelude::*;
use crate::table_pack::{rows_view, TableData, TableView};

verus! {

/// Rows of move table `i` (the number of values of its coordinate).
pub open spec fn move_rows(i: int) -> int {
    if i == 0 {
        2187
    } else if i == 1 {
        2048
    } else if i == 2 {
        495
    } else if i == 5 {
        24
    } else {
        40320
    }
}

/// Columns of move table `i`: the moves of its phase.
pub open spec fn move_cols(i: int) -> int {
    if i < 3 {
        18
    } else {
        10
    }
}

/// Rows of pruning table `j`.
pub open spec fn prune_rows(j: int) -> int {
    if j == 0 {
        2187
    } else if j == 1 {
        2048
    } else {
        40320
    }
}

/// Columns of pruning table `j`.
pub open spec fn prune_cols(j: int) -> int {
    if j < 2 {
        495
    } else {
        24
    }
}

/// `rows` rows of `cols` entries, each below `bound`.
pub open spec fn grid_u16(t: Seq<Seq<u16>>, rows: int, cols: int, bound: int) -> bool {
    &&& t.len() == rows
    &&& forall|r: int| 0 <= r < rows ==> #[trigger] t[r].len() == cols
    &&& forall|r: int, c: int| 0 <= r < rows && 0 <= c < cols ==> #[trigger] t[r][c] < bound
}

/// `rows` rows of `cols` entries.
pub open spec fn grid_u8(t: Seq<Seq<u8>>, rows: int, cols: int) -> bool {
    &&& t.len() == rows
    &&& forall|r: int| 0 <= r < rows ==> #[trigger] t[r].len() == cols
}

/// The tables have the dimensions the search indexes them with, and every
/// move-table entry is a row of its table.
pub open spec fn kewb_shaped(t: TableView) -> bool {
    &&& t.0.len() == 6
    &&& t.1.len() == 4
    &&& forall|i: int| 0 <= i < 6 ==> grid_u16(#[trigger] t.0[i], move_rows(i), move_cols(i), move_rows(i))
    &&& forall|j: int| 0 <= j < 4 ==> grid_u8(#[trigger] t.1[j], prune_rows(j), prune_cols(j))
}

fn check_u16(t: &Vec<Vec<u16>>, rows: usize, cols: usize, bound: u16) -> (r: bool)
    ensures
        r == grid_u16(rows_view(t@), rows as int, cols as int, bound as int),
{
    let ghost v = rows_view(t@);
    if t.len() != rows {
        return false;
    }
    let mut i: usize = 0;
    while i < rows
        invariant
            0 <= i <= rows,
            t@.len() == rows,
            v == rows_view(t@),
            forall|r: int| 0 <= r < i ==> #[trigger] v[r].len() == cols,
            forall|r: int, c: int| 0 <= r < i && 0 <= c < cols ==> #[trigger] v[r][c] < bound,
        decreases rows - i,
    {
        let row = &t[i];
        assert(v[i as int] == row@);
        if row.len() != cols {
            return false;
        }
        let mut j: usize = 0;
        while j < cols
            invariant
                0 <= j <= cols,
                row@.len() == cols,
                i < rows,
                v.len() == rows,
                v == rows_view(t@),
                v[i as int] == row@,
                forall|c: int| 0 <= c < j ==> row@[c] < bound,
            decreases cols - j,
        {
            if row[j] >= bound {
                assert(v[i as int][j as int] == row@[j as int]);
                return false;
            }
            j += 1;
        }
        i += 1;
    }
    true
}

fn check_u8(t: &Vec<Vec<u8>>, rows: usize, cols: usize) -> (r: bool)
    ensures
        r == grid_u8(rows_view(t@), rows as int, cols as int),
{
    let ghost v = rows_view(t@);
    if t.len() != rows {
        return false;
    }
    let mut i: usize = 0;
    while i < rows
        invariant
            0 <= i <= rows,
            t@.len() == rows,
            v == rows_view(t@),
            forall|r: int| 0 <= r < i ==> #[trigger] v[r].len() == cols,
        decreases rows - i,
    {
        assert(v[i as int] == t@[i as int]@);
        if t[i].len() != cols {
            return false;
        }
        i += 1;
    }
    true
}

/// Whether the tables have the dimensions the search indexes them with
/// (see `kewb_shaped`).
pub fn table_shaped(t: &TableData) -> (r: bool)
    ensures
        r == kewb_shaped(t.view_pair()),
{
    if t.move_tables.len() != 6 || t.pruning_tables.len() != 4 {
        return false;
    }
    let rows: [u16; 6] = [2187, 2048, 495, 40320, 40320, 24];
    let cols: [usize; 6] = [18, 18, 18, 10, 10, 10];
    let mut i: usize = 0;
    while i < 6
        invariant
            0 <= i <= 6,
            t.move_tables@.len() == 6,
            rows@ == seq![2187u16, 2048, 495, 40320, 40320, 24],
            cols@ == seq![18usize, 18, 18, 10, 10, 10],
            forall|k: int| 0 <= k < i ==> grid_u16(#[trigger] t.moves()[k], move_rows(k), move_cols(k), move_rows(k)),
        decreases 6 - i,
    {
        assert(t.moves()[i as int] == rows_view(t.move_tables@[i as int]@));
        if !check_u16(&t.move_tables[i], rows[i] as usize, cols[i], rows[i]) {
            return false;
        }
        i += 1;
    }
    let prows: [usize; 4] = [2187, 2048, 40320, 40320];
    let pcols: [usize; 4] = [495, 495, 24, 24];
    let mut j: usize = 0;
    while j < 4
        invariant
            0 <= j <= 4,
            t.pruning_tables@.len() == 4,
            t.move_tables@.len() == 6,
            prows@ == seq![2187usize, 2048, 40320, 40320],
            pcols@ == seq![495usize, 495, 24, 24],
            forall|k: int| 0 <= k < 6 ==> grid_u16(#[trigger] t.moves()[k], move_rows(k), move_cols(k), move_rows(k)),
            forall|k: int| 0 <= k < j ==> grid_u8(#[trigger] t.pruning()[k], prune_rows(k), prune_cols(k)),
        decreases 4 - j,
    {
        assert(t.pruning()[j as int] == rows_view(t.pruning_tables@[j as int]@));
        if !check_u8(&t.pruning_tables[j], prows[j], pcols[j]) {
            return false;
        }
        j += 1;
    }
    true
}

} // verus!
