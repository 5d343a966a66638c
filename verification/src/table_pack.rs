//! Packed solver table: a compact byte format for the solver's move and
//! pruning tables.
//!
//! Each section is shaped to its value distribution before deflate sees
//! it: the u16 move tables are stored as per-column deltas along the row
//! order (neighbouring coordinates differ little), split into a low-byte
//! plane and a high-byte plane; the u8 pruning depths (0..13) are packed
//! two per byte.
//!
//! Layout: the magic `KWPK2\0`, then ten sections in the order co, eo,
//! e_combo, cp, ep, e_ep (move tables) and co_e, eo_e, cp_e, ep_e (pruning
//! tables). A section is `rows`, `row_len` and the payload length, each a
//! little-endian u32, followed by the deflated payload.

use vstd::prelude::*;
use vstd::arithmetic::div_mod::lemma_fundamental_div_mod_converse;
use vstd::slice::slice_subrange;

verus! {

/// Number of u16 move tables; the pruning tables follow them.
pub const MOVE_SECTIONS: usize = 6;

/// Number of sections in a packed table.
pub const SECTIONS: usize = 10;

/// The solver's tables as plain values.
pub struct TableData {
    /// co, eo, e_combo, cp, ep, e_ep.
    pub move_tables: Vec<Vec<Vec<u16>>>,
    /// co_e, eo_e, cp_e, ep_e.
    pub pruning_tables: Vec<Vec<Vec<u8>>>,
}

/// The rows of a table as sequences.
pub open spec fn rows_view<T>(t: Seq<Vec<T>>) -> Seq<Seq<T>> {
    t.map_values(|r: Vec<T>| r@)
}

/// Move tables and pruning tables, as values.
pub type TableView = (Seq<Seq<Seq<u16>>>, Seq<Seq<Seq<u8>>>);

/// The tables of a list, each as rows of sequences.
pub open spec fn rows_view_3<T>(ts: Seq<Vec<Vec<T>>>) -> Seq<Seq<Seq<T>>> {
    ts.map_values(|t: Vec<Vec<T>>| rows_view(t@))
}

impl TableData {
    pub open spec fn moves(&self) -> Seq<Seq<Seq<u16>>> {
        rows_view_3(self.move_tables@)
    }

    pub open spec fn pruning(&self) -> Seq<Seq<Seq<u8>>> {
        rows_view_3(self.pruning_tables@)
    }

    pub open spec fn view_pair(&self) -> TableView {
        (self.moves(), self.pruning())
    }
}

/// Every row has `len` entries.
pub open spec fn uniform<T>(t: Seq<Seq<T>>, len: int) -> bool {
    forall|r: int| 0 <= r < t.len() ==> #[trigger] t[r].len() == len
}

/// The length of the first row (0 for an empty table).
pub open spec fn width<T>(t: Seq<Seq<T>>) -> int {
    if t.len() == 0 {
        0
    } else {
        t[0].len() as int
    }
}

// ------------------------------------------------------------ move tables

/// The change of column `c` from row `r - 1` to row `r` (from 0 for the
/// first row), modulo 2^16.
pub open spec fn delta(t: Seq<Seq<u16>>, r: int, c: int) -> int {
    let prev: int = if r == 0 {
        0
    } else {
        t[r - 1][c] as int
    };
    (t[r][c] - prev) % 65536
}

/// The low bytes of the deltas, row by row, then the high bytes.
pub open spec fn planes_spec(t: Seq<Seq<u16>>, len: int) -> Seq<u8> {
    let n = t.len() * len;
    Seq::new(
        (2 * n) as nat,
        |k: int|
            if k < n {
                (delta(t, k / len, k % len) % 256) as u8
            } else {
                (delta(t, (k - n) / len, (k - n) % len) / 256) as u8
            },
    )
}

/// The delta of cell `i` (row-major) read back from the two planes.
pub open spec fn plane_delta(raw: Seq<u8>, n: int, i: int) -> int {
    raw[i] + 256 * raw[n + i]
}

/// Column `c` of row `r` rebuilt from the planes: the running sum of its
/// deltas, modulo 2^16.
pub open spec fn column_value(raw: Seq<u8>, n: int, len: int, r: int, c: int) -> int
    decreases r,
{
    let prev: int = if r <= 0 {
        0
    } else {
        column_value(raw, n, len, r - 1, c)
    };
    (prev + plane_delta(raw, n, r * len + c)) % 65536
}

/// A move table rebuilt from its planes.
pub open spec fn undelta_spec(raw: Seq<u8>, rows: int, len: int) -> Seq<Seq<u16>> {
    Seq::new(
        rows as nat,
        |r: int| Seq::new(len as nat, |c: int| column_value(raw, rows * len, len, r, c) as u16),
    )
}

proof fn lemma_cell_index(r: int, c: int, len: int)
    requires
        0 <= r,
        0 <= c < len,
    ensures
        (r * len + c) / len == r,
        (r * len + c) % len == c,
{
    lemma_fundamental_div_mod_converse(r * len + c, len, r, c);
}

proof fn lemma_cell_bound(r: int, c: int, rows: int, len: int)
    requires
        0 <= r < rows,
        0 <= c < len,
    ensures
        0 <= r * len + c < rows * len,
        0 <= r * len,
{
    assert(r * len + c < rows * len) by (nonlinear_arith)
        requires
            0 <= r < rows,
            0 <= c < len,
    ;
    assert(0 <= r * len) by (nonlinear_arith)
        requires
            0 <= r,
            0 <= len,
    ;
}

/// Decoding the planes of a move table gives the table back.
pub proof fn lemma_planes_round_trip(t: Seq<Seq<u16>>, len: int)
    requires
        uniform(t, len),
        0 <= len,
    ensures
        undelta_spec(planes_spec(t, len), t.len() as int, len) == t,
{
    let raw = planes_spec(t, len);
    let n = t.len() * len;
    let rows = t.len() as int;
    assert forall|r: int, c: int| 0 <= r < rows && 0 <= c < len implies column_value(
        raw,
        n,
        len,
        r,
        c,
    ) == t[r][c] by {
        lemma_column_value(t, len, r, c);
    }
    let u = undelta_spec(raw, rows, len);
    assert forall|r: int| 0 <= r < rows implies #[trigger] u[r] == t[r] by {
        assert(u[r] =~= t[r]);
    }
    assert(u =~= t);
}

proof fn lemma_column_value(t: Seq<Seq<u16>>, len: int, r: int, c: int)
    requires
        uniform(t, len),
        0 <= r < t.len(),
        0 <= c < len,
    ensures
        column_value(planes_spec(t, len), t.len() * len, len, r, c) == t[r][c],
    decreases r,
{
    let raw = planes_spec(t, len);
    let n = t.len() * len;
    let i = r * len + c;
    lemma_cell_bound(r, c, t.len() as int, len);
    lemma_cell_index(r, c, len);
    assert(i + n - n == i);
    let d = delta(t, r, c);
    assert(raw[i] == (d % 256) as u8);
    assert(raw[n + i] == (d / 256) as u8);
    assert(plane_delta(raw, n, i) == d);
    let prev: int = if r == 0 {
        0
    } else {
        lemma_column_value(t, len, r - 1, c);
        t[r - 1][c] as int
    };
    let x = t[r][c] as int;
    assert(0 <= prev < 65536);
    if x >= prev {
        assert(d == x - prev);
    } else {
        assert(d == x - prev + 65536);
    }
}

// --------------------------------------------------------- pruning tables

/// The cells of a table, row by row.
pub open spec fn flat_spec(t: Seq<Seq<u8>>, len: int) -> Seq<u8> {
    Seq::new((t.len() * len) as nat, |i: int| t[i / len][i % len])
}

/// Two values per byte, low nibble first; each value keeps its low four
/// bits, and an odd count leaves the last high nibble zero.
pub open spec fn nibbles_spec(flat: Seq<u8>) -> Seq<u8> {
    Seq::new(
        ((flat.len() + 1) / 2) as nat,
        |p: int|
            ((flat[2 * p] % 16) + 16 * (if 2 * p + 1 < flat.len() {
                flat[2 * p + 1] % 16
            } else {
                0
            })) as u8,
    )
}

/// Value `i` read back from packed nibbles.
pub open spec fn nibble(raw: Seq<u8>, i: int) -> u8 {
    if i % 2 == 0 {
        raw[i / 2] % 16
    } else {
        raw[i / 2] / 16
    }
}

/// A pruning table rebuilt from its packed nibbles.
pub open spec fn unnibble_spec(raw: Seq<u8>, rows: int, len: int) -> Seq<Seq<u8>> {
    Seq::new(rows as nat, |r: int| Seq::new(len as nat, |c: int| nibble(raw, r * len + c)))
}

/// Every value fits in four bits.
pub open spec fn depths_fit(t: Seq<Seq<u8>>) -> bool {
    forall|r: int, c: int| 0 <= r < t.len() && 0 <= c < t[r].len() ==> #[trigger] t[r][c] < 16
}

/// Unpacking the nibbles of a pruning table gives the table back when
/// every depth fits in four bits.
pub proof fn lemma_nibbles_round_trip(t: Seq<Seq<u8>>, len: int)
    requires
        uniform(t, len),
        0 <= len,
        depths_fit(t),
    ensures
        unnibble_spec(nibbles_spec(flat_spec(t, len)), t.len() as int, len) == t,
{
    let flat = flat_spec(t, len);
    let packed = nibbles_spec(flat);
    let rows = t.len() as int;
    let u = unnibble_spec(packed, rows, len);
    assert forall|r: int| 0 <= r < rows implies #[trigger] u[r] == t[r] by {
        assert forall|c: int| 0 <= c < len implies #[trigger] u[r][c] == t[r][c] by {
            let i = r * len + c;
            lemma_cell_bound(r, c, rows, len);
            lemma_cell_index(r, c, len);
            assert(flat[i] == t[r][c]);
            let p = i / 2;
            let x = t[r][c];
            assert(x < 16);
            if i % 2 == 0 {
                assert(2 * p == i);
                let h: int = if 2 * p + 1 < flat.len() {
                    (flat[2 * p + 1] % 16) as int
                } else {
                    0
                };
                assert(packed[p] == (x % 16 + 16 * h) as u8);
                assert((x % 16 + 16 * h) % 16 == x);
            } else {
                assert(2 * p + 1 == i);
                let lo = flat[2 * p] % 16;
                assert(packed[p] == (lo + 16 * (x % 16)) as u8);
                assert((lo + 16 * (x % 16)) / 16 == x);
            }
        }
        assert(u[r] =~= t[r]);
    }
    assert(u =~= t);
}

// ------------------------------------------------------ section transforms

/// The delta planes of a move table.
fn delta_planes(table: &Vec<Vec<u16>>, len: usize) -> (planes: Vec<u8>)
    requires
        uniform(rows_view(table@), len as int),
        table@.len() * len <= usize::MAX,
    ensures
        planes@ == planes_spec(rows_view(table@), len as int),
{
    let ghost t = rows_view(table@);
    let rows = table.len();
    let ghost n = rows * len;
    let mut lo: Vec<u8> = Vec::new();
    let mut hi: Vec<u8> = Vec::new();
    let mut r: usize = 0;
    while r < rows
        invariant
            t == rows_view(table@),
            uniform(t, len as int),
            rows == t.len(),
            0 <= r <= rows,
            lo@.len() == r * len,
            hi@.len() == r * len,
            forall|i: int|
                0 <= i < r * len ==> #[trigger] lo@[i] == (delta(t, i / len as int, i % len as int)
                    % 256) as u8,
            forall|i: int|
                0 <= i < r * len ==> #[trigger] hi@[i] == (delta(t, i / len as int, i % len as int)
                    / 256) as u8,
        decreases rows - r,
    {
        let mut c: usize = 0;
        while c < len
            invariant
                t == rows_view(table@),
                uniform(t, len as int),
                rows == t.len(),
                0 <= r < rows,
                0 <= c <= len,
                lo@.len() == r * len + c,
                hi@.len() == r * len + c,
                forall|i: int|
                    0 <= i < r * len + c ==> #[trigger] lo@[i] == (delta(
                        t,
                        i / len as int,
                        i % len as int,
                    ) % 256) as u8,
                forall|i: int|
                    0 <= i < r * len + c ==> #[trigger] hi@[i] == (delta(
                        t,
                        i / len as int,
                        i % len as int,
                    ) / 256) as u8,
            decreases len - c,
        {
            assert(table@[r as int]@ == t[r as int]);
            let v = table[r][c];
            let prev: u16 = if r == 0 {
                0
            } else {
                assert(table@[r - 1]@ == t[r - 1]);
                table[r - 1][c]
            };
            let d: u32 = (v as u32 + 65536 - prev as u32) % 65536;
            proof {
                let x = v as int;
                let pv = prev as int;
                if x >= pv {
                    assert(d == x - pv);
                } else {
                    assert(d == x - pv + 65536);
                }
                assert(d == delta(t, r as int, c as int));
                lemma_cell_index(r as int, c as int, len as int);
            }
            lo.push((d % 256) as u8);
            hi.push((d / 256) as u8);
            c += 1;
        }
        proof {
            assert((r + 1) * len == r * len + len) by (nonlinear_arith);
        }
        r += 1;
    }
    let mut planes = lo;
    let mut rest = hi;
    planes.append(&mut rest);
    proof {
        let expect = planes_spec(t, len as int);
        assert(expect.len() == planes@.len());
        assert forall|k: int| 0 <= k < planes@.len() implies planes@[k] == expect[k] by {
            if k >= n {
                assert(planes@[k] == hi@[k - n]);
            }
        }
        assert(planes@ =~= expect);
    }
    planes
}

/// A move table rebuilt from its delta planes.
fn undelta(raw: &Vec<u8>, rows: usize, len: usize) -> (t: Vec<Vec<u16>>)
    requires
        raw@.len() == 2 * (rows * len),
    ensures
        rows_view(t@) == undelta_spec(raw@, rows as int, len as int),
{
    let total = raw.len();
    assert(rows * len <= total);
    let n = rows * len;
    let mut prev: Vec<u16> = Vec::new();
    let mut k: usize = 0;
    while k < len
        invariant
            0 <= k <= len,
            prev@.len() == k,
            forall|j: int| 0 <= j < k ==> prev@[j] == 0,
        decreases len - k,
    {
        prev.push(0);
        k += 1;
    }
    let mut out: Vec<Vec<u16>> = Vec::new();
    let mut r: usize = 0;
    let mut i: usize = 0;
    while r < rows
        invariant
            raw@.len() == 2 * n,
            2 * n <= usize::MAX,
            n == rows * len,
            0 <= r <= rows,
            i == r * len,
            prev@.len() == len,
            forall|c: int|
                0 <= c < len ==> #[trigger] prev@[c] as int == (if r == 0 {
                    0
                } else {
                    column_value(raw@, n as int, len as int, r - 1, c)
                }),
            out@.len() == r,
            forall|q: int|
                0 <= q < r ==> #[trigger] out@[q]@ == undelta_spec(raw@, rows as int, len as int)[q],
        decreases rows - r,
    {
        let ghost before = prev@;
        let mut row: Vec<u16> = Vec::new();
        let mut c: usize = 0;
        while c < len
            invariant
                raw@.len() == 2 * n,
                2 * n <= usize::MAX,
                n == rows * len,
                0 <= r < rows,
                0 <= c <= len,
                i == r * len + c,
                prev@.len() == len,
                row@.len() == c,
                forall|j: int|
                    c <= j < len ==> #[trigger] prev@[j] == before[j],
                forall|j: int|
                    0 <= j < len ==> #[trigger] before[j] as int == (if r == 0 {
                        0
                    } else {
                        column_value(raw@, n as int, len as int, r - 1, j)
                    }),
                forall|j: int|
                    0 <= j < c ==> #[trigger] prev@[j] as int == column_value(
                        raw@,
                        n as int,
                        len as int,
                        r as int,
                        j,
                    ),
                forall|j: int|
                    0 <= j < c ==> #[trigger] row@[j] as int == column_value(
                        raw@,
                        n as int,
                        len as int,
                        r as int,
                        j,
                    ),
            decreases len - c,
        {
            proof {
                lemma_cell_bound(r as int, c as int, rows as int, len as int);
            }
            let d: u32 = raw[i] as u32 + 256 * raw[n + i] as u32;
            let v: u16 = ((prev[c] as u32 + d) % 65536) as u16;
            proof {
                assert(d as int == plane_delta(raw@, n as int, i as int));
            }
            prev.set(c, v);
            row.push(v);
            i += 1;
            c += 1;
        }
        proof {
            assert((r + 1) * len == r * len + len) by (nonlinear_arith);
            let want = undelta_spec(raw@, rows as int, len as int)[r as int];
            assert(row@ =~= want);
        }
        out.push(row);
        r += 1;
    }
    proof {
        let want = undelta_spec(raw@, rows as int, len as int);
        assert(rows_view(out@) =~= want);
    }
    out
}

/// The cells of a pruning table, row by row.
fn flatten_rows(table: &Vec<Vec<u8>>, len: usize) -> (flat: Vec<u8>)
    requires
        uniform(rows_view(table@), len as int),
        table@.len() * len <= usize::MAX,
    ensures
        flat@ == flat_spec(rows_view(table@), len as int),
{
    let ghost t = rows_view(table@);
    let rows = table.len();
    let mut flat: Vec<u8> = Vec::new();
    let mut r: usize = 0;
    while r < rows
        invariant
            t == rows_view(table@),
            uniform(t, len as int),
            rows == t.len(),
            0 <= r <= rows,
            flat@.len() == r * len,
            forall|i: int|
                0 <= i < r * len ==> #[trigger] flat@[i] == t[i / len as int][i % len as int],
        decreases rows - r,
    {
        let mut c: usize = 0;
        while c < len
            invariant
                t == rows_view(table@),
                uniform(t, len as int),
                rows == t.len(),
                0 <= r < rows,
                0 <= c <= len,
                flat@.len() == r * len + c,
                forall|i: int|
                    0 <= i < r * len + c ==> #[trigger] flat@[i] == t[i / len as int][i
                        % len as int],
            decreases len - c,
        {
            assert(table@[r as int]@ == t[r as int]);
            proof {
                lemma_cell_index(r as int, c as int, len as int);
            }
            flat.push(table[r][c]);
            c += 1;
        }
        proof {
            assert((r + 1) * len == r * len + len) by (nonlinear_arith);
        }
        r += 1;
    }
    assert(flat@ =~= flat_spec(t, len as int));
    flat
}

/// Two values per byte, low nibble first.
fn pack_nibbles(flat: &Vec<u8>) -> (packed: Vec<u8>)
    ensures
        packed@ == nibbles_spec(flat@),
{
    let n = flat.len();
    let half = n / 2 + n % 2;
    let mut packed: Vec<u8> = Vec::new();
    let mut p: usize = 0;
    while p < half
        invariant
            n == flat@.len(),
            half == (n + 1) / 2,
            0 <= p <= half,
            packed@.len() == p,
            forall|q: int| 0 <= q < p ==> #[trigger] packed@[q] == nibbles_spec(flat@)[q],
        decreases half - p,
    {
        let i = 2 * p;
        let lo: u8 = flat[i] % 16;
        let hi: u8 = if i + 1 < n {
            flat[i + 1] % 16
        } else {
            0
        };
        packed.push(lo + 16 * hi);
        p += 1;
    }
    assert(packed@ =~= nibbles_spec(flat@));
    packed
}

/// A pruning table rebuilt from packed nibbles.
fn unpack_nibbles(raw: &Vec<u8>, rows: u32, len: u32) -> (t: Vec<Vec<u8>>)
    requires
        raw@.len() == (rows * len + 1) / 2,
    ensures
        rows_view(t@) == unnibble_spec(raw@, rows as int, len as int),
{
    let mut out: Vec<Vec<u8>> = Vec::new();
    let ghost n = rows * len;
    let mut r: u32 = 0;
    let mut i: u64 = 0;
    proof {
        assert(rows * len <= 0xffff_ffffu64 * 0xffff_ffffu64) by (nonlinear_arith)
            requires
                rows <= 0xffff_ffffu64,
                len <= 0xffff_ffffu64,
        ;
    }
    while r < rows
        invariant
            raw@.len() == (n + 1) / 2,
            n == rows * len,
            n <= 0xffff_ffffu64 * 0xffff_ffffu64,
            0 <= r <= rows,
            i == r * len,
            out@.len() == r,
            forall|q: int|
                0 <= q < r ==> #[trigger] out@[q]@ == unnibble_spec(raw@, rows as int, len as int)[q],
        decreases rows - r,
    {
        let mut row: Vec<u8> = Vec::new();
        let mut c: u32 = 0;
        while c < len
            invariant
                raw@.len() == (n + 1) / 2,
                n == rows * len,
                n <= 0xffff_ffffu64 * 0xffff_ffffu64,
                0 <= r < rows,
                0 <= c <= len,
                i == r * len + c,
                row@.len() == c,
                forall|j: int|
                    0 <= j < c ==> #[trigger] row@[j] == nibble(raw@, r * len + j),
            decreases len - c,
        {
            proof {
                lemma_cell_bound(r as int, c as int, rows as int, len as int);
            }
            let total = raw.len();
            assert(i / 2 < total);
            let k = (i / 2) as usize;
            let b = raw[k];
            let v: u8 = if i % 2 == 0 {
                b % 16
            } else {
                b / 16
            };
            assert(v == nibble(raw@, i as int));
            row.push(v);
            i += 1;
            c += 1;
        }
        proof {
            assert((r + 1) * len == r * len + len) by (nonlinear_arith);
            assert(row@ =~= unnibble_spec(raw@, rows as int, len as int)[r as int]);
        }
        out.push(row);
        r += 1;
    }
    assert(rows_view(out@) =~= unnibble_spec(raw@, rows as int, len as int));
    out
}

// ------------------------------------------------------------- the format

/// The bytes `KWPK2\0` that open a packed table.
pub open spec fn magic() -> Seq<u8> {
    seq![0x4bu8, 0x57u8, 0x50u8, 0x4bu8, 0x32u8, 0x00u8]
}

/// A u32 as four little-endian bytes.
pub open spec fn le32(x: u32) -> Seq<u8> {
    seq![(x & 0xff) as u8, ((x >> 8) & 0xff) as u8, ((x >> 16) & 0xff) as u8, (x >> 24) as u8]
}

/// The little-endian u32 at position `p`.
pub open spec fn u32_at(b: Seq<u8>, p: int) -> u32 {
    (b[p] as u32) | ((b[p + 1] as u32) << 8u32) | ((b[p + 2] as u32) << 16u32) | ((b[p + 3] as u32)
        << 24u32)
}

/// One section: row count, row length and payload length, then the payload.
pub open spec fn section_spec(rows: u32, len: u32, payload: Seq<u8>) -> Seq<u8> {
    le32(rows) + le32(len) + le32(payload.len() as u32) + payload
}

/// Name for what `miniz_oxide::deflate::compress_to_vec` returns for
/// these bytes at this level.
pub uninterp spec fn deflated(data: Seq<u8>, level: u8) -> Seq<u8>;

/// Name for what `miniz_oxide::inflate::decompress_to_vec` gives for these
/// bytes: the inflated bytes, or the error's text.
pub uninterp spec fn inflated(payload: Seq<u8>) -> Result<Seq<u8>, Seq<char>>;

/// `miniz_oxide::deflate::compress_to_vec` (raw deflate, no zlib header).
/// Claimed: the result is `deflated(data, level)`, and inflating it gives
/// the data back (deflate is lossless). Unsaid: which bytes it is.
#[verifier::external_body]
fn deflate(data: &[u8], level: u8) -> (r: Vec<u8>)
    requires
        level <= 10,
    ensures
        r@ == deflated(data@, level),
        inflated(r@) is Ok && inflated(r@)->Ok_0 == data@,
{
    miniz_oxide::deflate::compress_to_vec(data, level)
}

/// `miniz_oxide::inflate::decompress_to_vec`, its error written as its
/// debug text. Claimed: the result is `inflated(payload)`.
#[verifier::external_body]
fn inflate(payload: &[u8]) -> (r: Result<Vec<u8>, String>)
    ensures
        r is Ok <==> inflated(payload@) is Ok,
        r matches Ok(v) ==> inflated(payload@)->Ok_0 == v@,
        r matches Err(e) ==> inflated(payload@)->Err_0 == e@,
{
    miniz_oxide::inflate::decompress_to_vec(payload).map_err(|e| format!("{e:?}"))
}

/// The section of a move table.
pub open spec fn move_section(t: Seq<Seq<u16>>) -> Seq<u8> {
    section_spec(t.len() as u32, width(t) as u32, deflated(planes_spec(t, width(t)), 10))
}

/// The section of a pruning table.
pub open spec fn pruning_section(t: Seq<Seq<u8>>) -> Seq<u8> {
    section_spec(t.len() as u32, width(t) as u32, deflated(nibbles_spec(flat_spec(t, width(t))), 10))
}

/// The ten sections, in file order.
pub open spec fn sections_spec(m: Seq<Seq<Seq<u16>>>, p: Seq<Seq<Seq<u8>>>) -> Seq<Seq<u8>> {
    m.map_values(|t: Seq<Seq<u16>>| move_section(t)) + p.map_values(
        |t: Seq<Seq<u8>>| pruning_section(t),
    )
}

/// Byte strings one after another.
pub open spec fn concat(s: Seq<Seq<u8>>) -> Seq<u8>
    decreases s.len(),
{
    if s.len() == 0 {
        seq![]
    } else {
        concat(s.drop_last()) + s.last()
    }
}

/// A packed table.
pub open spec fn encode_spec(m: Seq<Seq<Seq<u16>>>, p: Seq<Seq<Seq<u8>>>) -> Seq<u8> {
    magic() + concat(sections_spec(m, p))
}

/// What decoding gives from section `k` at byte `pos` on, with the tables
/// decoded so far; `None` where the decoder cannot go on (a pruning
/// section with rows but no columns).
pub open spec fn decode_from(
    b: Seq<u8>,
    pos: int,
    k: int,
    m: Seq<Seq<Seq<u16>>>,
    p: Seq<Seq<Seq<u8>>>,
) -> Option<Result<TableView, Seq<char>>>
    decreases 10 - k,
{
    if k < 0 || k >= 10 {
        Some(Ok((m, p)))
    } else if pos + 12 > b.len() {
        Some(Err("truncated header"@))
    } else {
        let rows = u32_at(b, pos) as int;
        let len = u32_at(b, pos + 4) as int;
        let plen = u32_at(b, pos + 8) as int;
        let start = pos + 12;
        if start + plen > b.len() {
            Some(Err("truncated section payload"@))
        } else {
            match inflated(b.subrange(start, start + plen)) {
                Err(e) => Some(Err("inflate: "@ + e)),
                Ok(raw) => {
                    let n = rows * len;
                    if k < 6 {
                        if raw.len() != 2 * n {
                            Some(Err("section size mismatch (u16)"@))
                        } else {
                            decode_from(b, start + plen, k + 1, m.push(undelta_spec(raw, rows, len)), p)
                        }
                    } else if raw.len() != (n + 1) / 2 {
                        Some(Err("section size mismatch (u8)"@))
                    } else if rows > 0 && len == 0 {
                        None
                    } else {
                        decode_from(b, start + plen, k + 1, m, p.push(unnibble_spec(raw, rows, len)))
                    }
                },
            }
        }
    }
}

/// What decoding a packed table gives.
pub open spec fn decode_spec(b: Seq<u8>) -> Option<Result<TableView, Seq<char>>> {
    if b.len() < 6 || b.subrange(0, 6) != magic() {
        Some(Err("not a packed solver table (bad magic)"@))
    } else {
        decode_from(b, 6, 0, seq![], seq![])
    }
}

proof fn lemma_le32_at(b: Seq<u8>, pos: int, x: u32)
    requires
        0 <= pos,
        pos + 4 <= b.len(),
        b.subrange(pos, pos + 4) == le32(x),
    ensures
        u32_at(b, pos) == x,
{
    let s = b.subrange(pos, pos + 4);
    assert(b[pos] == s[0] && b[pos + 1] == s[1] && b[pos + 2] == s[2] && b[pos + 3] == s[3]);
    let b0 = b[pos];
    let b1 = b[pos + 1];
    let b2 = b[pos + 2];
    let b3 = b[pos + 3];
    assert((b0 as u32) | ((b1 as u32) << 8u32) | ((b2 as u32) << 16u32) | ((b3 as u32) << 24u32)
        == x) by (bit_vector)
        requires
            b0 == (x & 0xff) as u8,
            b1 == ((x >> 8) & 0xff) as u8,
            b2 == ((x >> 16) & 0xff) as u8,
            b3 == (x >> 24) as u8,
    ;
}

fn push_le32(out: &mut Vec<u8>, x: u32)
    ensures
        final(out)@ == old(out)@ + le32(x),
{
    out.push((x & 0xff) as u8);
    out.push(((x >> 8) & 0xff) as u8);
    out.push(((x >> 16) & 0xff) as u8);
    out.push((x >> 24) as u8);
    assert(out@ =~= old(out)@ + le32(x));
}

fn read_le32(b: &[u8], p: usize) -> (r: u32)
    requires
        p + 4 <= b@.len(),
    ensures
        r == u32_at(b@, p as int),
{
    (b[p] as u32) | ((b[p + 1] as u32) << 8u32) | ((b[p + 2] as u32) << 16u32) | ((b[p + 3] as u32)
        << 24u32)
}

fn push_all(out: &mut Vec<u8>, bytes: &Vec<u8>)
    ensures
        final(out)@ == old(out)@ + bytes@,
{
    let mut i: usize = 0;
    while i < bytes.len()
        invariant
            0 <= i <= bytes@.len(),
            out@ == old(out)@ + bytes@.subrange(0, i as int),
        decreases bytes@.len() - i,
    {
        out.push(bytes[i]);
        i += 1;
        assert(out@ =~= old(out)@ + bytes@.subrange(0, i as int));
    }
    assert(bytes@.subrange(0, bytes@.len() as int) =~= bytes@);
}

/// Deflate a transformed section and append it with its header.
fn push_section(out: &mut Vec<u8>, rows: u32, len: u32, transformed: &Vec<u8>)
    ensures
        final(out)@ == old(out)@ + section_spec(rows, len, deflated(transformed@, 10)),
        inflated(deflated(transformed@, 10)) is Ok,
        inflated(deflated(transformed@, 10))->Ok_0 == transformed@,
{
    let packed = deflate(transformed.as_slice(), 10);
    push_le32(out, rows);
    push_le32(out, len);
    push_le32(out, packed.len() as u32);
    push_all(out, &packed);
    assert(out@ =~= old(out)@ + section_spec(rows, len, deflated(transformed@, 10)));
}

// ------------------------------------------------------------ round trip

/// Six move tables and four pruning tables, each with rows of one length.
pub open spec fn tables_wf(m: Seq<Seq<Seq<u16>>>, p: Seq<Seq<Seq<u8>>>) -> bool {
    &&& m.len() == 6
    &&& p.len() == 4
    &&& forall|k: int| 0 <= k < 6 ==> #[trigger] uniform(m[k], width(m[k]))
    &&& forall|k: int| 0 <= k < 4 ==> #[trigger] uniform(p[k], width(p[k]))
}

/// What the packed format carries back unchanged: row counts, row lengths
/// and payload lengths that fit the u32 header fields, pruning depths that
/// fit a nibble, and pruning tables whose rows have at least one column.
pub open spec fn round_trips(m: Seq<Seq<Seq<u16>>>, p: Seq<Seq<Seq<u8>>>) -> bool {
    &&& forall|k: int|
        0 <= k < m.len() ==> {
            &&& #[trigger] m[k].len() <= u32::MAX
            &&& width(m[k]) <= u32::MAX
            &&& deflated(planes_spec(m[k], width(m[k])), 10).len() <= u32::MAX
        }
    &&& forall|k: int|
        0 <= k < p.len() ==> {
            &&& #[trigger] p[k].len() <= u32::MAX
            &&& width(p[k]) <= u32::MAX
            &&& depths_fit(p[k])
            &&& p[k].len() > 0 ==> width(p[k]) > 0
            &&& deflated(nibbles_spec(flat_spec(p[k], width(p[k]))), 10).len() <= u32::MAX
        }
}

/// Deflating then inflating each section's payload gives it back.
pub open spec fn payloads_inflate(m: Seq<Seq<Seq<u16>>>, p: Seq<Seq<Seq<u8>>>) -> bool {
    &&& forall|k: int|
        0 <= k < m.len() ==> {
            let raw = planes_spec(#[trigger] m[k], width(m[k]));
            inflated(deflated(raw, 10)) is Ok && inflated(deflated(raw, 10))->Ok_0 == raw
        }
    &&& forall|k: int|
        0 <= k < p.len() ==> {
            let raw = nibbles_spec(flat_spec(#[trigger] p[k], width(p[k])));
            inflated(deflated(raw, 10)) is Ok && inflated(deflated(raw, 10))->Ok_0 == raw
        }
}

proof fn lemma_concat_split(s: Seq<Seq<u8>>, k: int)
    requires
        0 <= k <= s.len(),
    ensures
        concat(s) == concat(s.take(k)) + concat(s.skip(k)),
    decreases s.len(),
{
    if k == s.len() {
        assert(s.take(k) =~= s);
        assert(s.skip(k) =~= Seq::<Seq<u8>>::empty());
        assert(concat(s) + Seq::<u8>::empty() =~= concat(s));
    } else {
        let d = s.drop_last();
        lemma_concat_split(d, k);
        assert(d.take(k) =~= s.take(k));
        assert(s.skip(k).drop_last() =~= d.skip(k));
        assert(s.skip(k).last() == s.last());
        assert(concat(s) =~= concat(s.take(k)) + concat(s.skip(k)));
    }
}

proof fn lemma_concat_step(s: Seq<Seq<u8>>, k: int)
    requires
        0 <= k < s.len(),
    ensures
        concat(s.take(k + 1)) == concat(s.take(k)) + s[k],
        concat(s.skip(k)) == s[k] + concat(s.skip(k + 1)),
{
    assert(s.take(k + 1).drop_last() =~= s.take(k));
    let t = s.skip(k);
    lemma_concat_split(t, 1);
    assert(t.take(1).drop_last() =~= Seq::<Seq<u8>>::empty());
    assert(concat(t.take(1).drop_last()) =~= Seq::<u8>::empty());
    assert(t.take(1).last() == s[k]);
    assert(concat(t.take(1)) =~= s[k]);
    assert(t.skip(1) =~= s.skip(k + 1));
}

proof fn lemma_section_at(b: Seq<u8>, pos: int, rows: u32, len: u32, payload: Seq<u8>)
    requires
        0 <= pos,
        payload.len() <= u32::MAX,
        pos + 12 + payload.len() <= b.len(),
        b.subrange(pos, pos + 12 + payload.len()) == section_spec(rows, len, payload),
    ensures
        u32_at(b, pos) == rows,
        u32_at(b, pos + 4) == len,
        u32_at(b, pos + 8) == payload.len(),
        b.subrange(pos + 12, pos + 12 + payload.len()) == payload,
{
    let sec = section_spec(rows, len, payload);
    let end = pos + 12 + payload.len();
    assert(b.subrange(pos, pos + 4) =~= sec.subrange(0, 4));
    assert(sec.subrange(0, 4) =~= le32(rows));
    lemma_le32_at(b, pos, rows);
    assert(b.subrange(pos + 4, pos + 8) =~= sec.subrange(4, 8));
    assert(sec.subrange(4, 8) =~= le32(len));
    lemma_le32_at(b, pos + 4, len);
    assert(b.subrange(pos + 8, pos + 12) =~= sec.subrange(8, 12));
    assert(sec.subrange(8, 12) =~= le32(payload.len() as u32));
    lemma_le32_at(b, pos + 8, payload.len() as u32);
    assert(b.subrange(pos + 12, end) =~= sec.subrange(12, sec.len() as int));
    assert(sec.subrange(12, sec.len() as int) =~= payload);
}

/// Where section `k` starts in a packed table.
pub open spec fn section_start(m: Seq<Seq<Seq<u16>>>, p: Seq<Seq<Seq<u8>>>, k: int) -> int {
    6 + concat(sections_spec(m, p).take(k)).len() as int
}

proof fn lemma_section_bytes(m: Seq<Seq<Seq<u16>>>, p: Seq<Seq<Seq<u8>>>, k: int)
    requires
        tables_wf(m, p),
        0 <= k < 10,
    ensures
        ({
            let b = encode_spec(m, p);
            let secs = sections_spec(m, p);
            let pos = section_start(m, p, k);
            &&& pos + secs[k].len() <= b.len()
            &&& b.subrange(pos, pos + secs[k].len()) == secs[k]
            &&& section_start(m, p, k + 1) == pos + secs[k].len()
        }),
{
    let b = encode_spec(m, p);
    let secs = sections_spec(m, p);
    let pos = section_start(m, p, k);
    lemma_concat_split(secs, k);
    lemma_concat_step(secs, k);
    let a = concat(secs.take(k));
    let c = concat(secs.skip(k + 1));
    assert(b =~= magic() + a + secs[k] + c);
    assert(b.subrange(pos, pos + secs[k].len()) =~= secs[k]);
}

proof fn lemma_decode_move_step(m: Seq<Seq<Seq<u16>>>, p: Seq<Seq<Seq<u8>>>, k: int)
    requires
        tables_wf(m, p),
        round_trips(m, p),
        payloads_inflate(m, p),
        0 <= k < 6,
    ensures
        decode_from(encode_spec(m, p), section_start(m, p, k), k, m.take(k), seq![]) == decode_from(
            encode_spec(m, p),
            section_start(m, p, k + 1),
            k + 1,
            m.take(k + 1),
            seq![],
        ),
{
    let b = encode_spec(m, p);
    let secs = sections_spec(m, p);
    let pos = section_start(m, p, k);
    lemma_section_bytes(m, p, k);
    let t = m[k];
    let len = width(t);
    let raw = planes_spec(t, len);
    let payload = deflated(raw, 10);
    assert(secs[k] == move_section(t));
    assert(t.len() as u32 == t.len());
    assert(len as u32 == len);
    lemma_section_at(b, pos, t.len() as u32, len as u32, payload);
    lemma_planes_round_trip(t, len);
    assert(m.take(k).push(t) =~= m.take(k + 1));
}

proof fn lemma_decode_pruning_step(m: Seq<Seq<Seq<u16>>>, p: Seq<Seq<Seq<u8>>>, j: int)
    requires
        tables_wf(m, p),
        round_trips(m, p),
        payloads_inflate(m, p),
        0 <= j < 4,
    ensures
        decode_from(encode_spec(m, p), section_start(m, p, j + 6), j + 6, m, p.take(j)) == decode_from(
            encode_spec(m, p),
            section_start(m, p, j + 7),
            j + 7,
            m,
            p.take(j + 1),
        ),
{
    let k = j + 6;
    let b = encode_spec(m, p);
    let secs = sections_spec(m, p);
    let pos = section_start(m, p, k);
    lemma_section_bytes(m, p, k);
    let t = p[j];
    let len = width(t);
    let raw = nibbles_spec(flat_spec(t, len));
    let payload = deflated(raw, 10);
    assert(secs[k] == pruning_section(t));
    assert(t.len() as u32 == t.len());
    assert(len as u32 == len);
    lemma_section_at(b, pos, t.len() as u32, len as u32, payload);
    lemma_nibbles_round_trip(t, len);
    assert(p.take(j).push(t) =~= p.take(j + 1));
}

proof fn lemma_decode_pruning(m: Seq<Seq<Seq<u16>>>, p: Seq<Seq<Seq<u8>>>, j: int)
    requires
        tables_wf(m, p),
        round_trips(m, p),
        payloads_inflate(m, p),
        0 <= j <= 4,
    ensures
        decode_from(encode_spec(m, p), section_start(m, p, j + 6), j + 6, m, p.take(j)) == Some(
            Ok::<TableView, Seq<char>>((m, p)),
        ),
    decreases 4 - j,
{
    if j == 4 {
        assert(p.take(4) =~= p);
    } else {
        lemma_decode_pruning_step(m, p, j);
        lemma_decode_pruning(m, p, j + 1);
    }
}

proof fn lemma_decode_moves(m: Seq<Seq<Seq<u16>>>, p: Seq<Seq<Seq<u8>>>, k: int)
    requires
        tables_wf(m, p),
        round_trips(m, p),
        payloads_inflate(m, p),
        0 <= k <= 6,
    ensures
        decode_from(encode_spec(m, p), section_start(m, p, k), k, m.take(k), seq![]) == Some(
            Ok::<TableView, Seq<char>>((m, p)),
        ),
    decreases 6 - k,
{
    if k == 6 {
        assert(m.take(6) =~= m);
        assert(p.take(0) =~= Seq::<Seq<Seq<u8>>>::empty());
        lemma_decode_pruning(m, p, 0);
    } else {
        lemma_decode_move_step(m, p, k);
        lemma_decode_moves(m, p, k + 1);
    }
}

/// Decoding a packed table gives back the tables it was made from, where
/// the format can carry them and deflate's output inflates back.
proof fn lemma_packed_round_trip(m: Seq<Seq<Seq<u16>>>, p: Seq<Seq<Seq<u8>>>)
    requires
        tables_wf(m, p),
        round_trips(m, p),
        payloads_inflate(m, p),
    ensures
        decode_spec(encode_spec(m, p)) == Some(Ok::<TableView, Seq<char>>((m, p))),
{
    let b = encode_spec(m, p);
    lemma_decode_moves(m, p, 0);
    assert(b.subrange(0, 6) =~= magic());
    assert(sections_spec(m, p).take(0) =~= Seq::<Seq<u8>>::empty());
    assert(m.take(0) =~= Seq::<Seq<Seq<u16>>>::empty());
    assert(p.take(0) =~= Seq::<Seq<Seq<u8>>>::empty());
}

// ------------------------------------------------------------ public API

/// Pack the solver tables.
pub fn encode_packed(t: &TableData) -> (r: Vec<u8>)
    requires
        tables_wf(t.moves(), t.pruning()),
        forall|k: int| 0 <= k < 6 ==> #[trigger] t.moves()[k].len() * width(t.moves()[k]) <= usize::MAX,
        forall|k: int|
            0 <= k < 4 ==> #[trigger] t.pruning()[k].len() * width(t.pruning()[k]) <= usize::MAX,
    ensures
        r@ == encode_spec(t.moves(), t.pruning()),
        round_trips(t.moves(), t.pruning()) ==> decode_spec(r@) == Some(
            Ok::<TableView, Seq<char>>(t.view_pair()),
        ),
{
    let ghost m = t.moves();
    let ghost p = t.pruning();
    let ghost secs = sections_spec(m, p);
    let mut out: Vec<u8> = Vec::new();
    out.push(0x4b);
    out.push(0x57);
    out.push(0x50);
    out.push(0x4b);
    out.push(0x32);
    out.push(0x00);
    assert(out@ =~= magic());
    assert(secs.take(0) =~= Seq::<Seq<u8>>::empty());
    assert(out@ =~= magic() + concat(secs.take(0)));
    let mut k: usize = 0;
    while k < MOVE_SECTIONS
        invariant
            m == t.moves(),
            p == t.pruning(),
            secs == sections_spec(m, p),
            tables_wf(m, p),
            forall|j: int| 0 <= j < 6 ==> #[trigger] m[j].len() * width(m[j]) <= usize::MAX,
            0 <= k <= 6,
            out@ == magic() + concat(secs.take(k as int)),
            forall|j: int|
                0 <= j < k ==> {
                    let raw = planes_spec(#[trigger] m[j], width(m[j]));
                    inflated(deflated(raw, 10)) is Ok && inflated(deflated(raw, 10))->Ok_0 == raw
                },
        decreases 6 - k,
    {
        let table = &t.move_tables[k];
        assert(rows_view(table@) == m[k as int]);
        let len = if table.len() == 0 {
            0
        } else {
            table[0].len()
        };
        let planes = delta_planes(table, len);
        push_section(&mut out, table.len() as u32, len as u32, &planes);
        proof {
            lemma_concat_step(secs, k as int);
            assert(secs[k as int] == move_section(m[k as int]));
        }
        k += 1;
    }
    let mut j: usize = 0;
    while j < SECTIONS - MOVE_SECTIONS
        invariant
            m == t.moves(),
            p == t.pruning(),
            secs == sections_spec(m, p),
            tables_wf(m, p),
            forall|i: int| 0 <= i < 4 ==> #[trigger] p[i].len() * width(p[i]) <= usize::MAX,
            0 <= j <= 4,
            out@ == magic() + concat(secs.take(6 + j)),
            forall|i: int|
                0 <= i < 6 ==> {
                    let raw = planes_spec(#[trigger] m[i], width(m[i]));
                    inflated(deflated(raw, 10)) is Ok && inflated(deflated(raw, 10))->Ok_0 == raw
                },
            forall|i: int|
                0 <= i < j ==> {
                    let raw = nibbles_spec(flat_spec(#[trigger] p[i], width(p[i])));
                    inflated(deflated(raw, 10)) is Ok && inflated(deflated(raw, 10))->Ok_0 == raw
                },
        decreases 4 - j,
    {
        let table = &t.pruning_tables[j];
        assert(rows_view(table@) == p[j as int]);
        let len = if table.len() == 0 {
            0
        } else {
            table[0].len()
        };
        let flat = flatten_rows(table, len);
        let packed = pack_nibbles(&flat);
        push_section(&mut out, table.len() as u32, len as u32, &packed);
        proof {
            lemma_concat_step(secs, 6 + j);
            assert(secs[6 + j] == pruning_section(p[j as int]));
        }
        j += 1;
    }
    proof {
        assert(secs.take(10) =~= secs);
        if round_trips(m, p) {
            lemma_packed_round_trip(m, p);
        }
    }
    out
}

/// The bytes open with the magic.
fn has_magic(bytes: &[u8]) -> (b: bool)
    ensures
        b <==> bytes@.len() >= 6 && bytes@.subrange(0, 6) == magic(),
{
    if bytes.len() < 6 {
        return false;
    }
    let b = bytes[0] == 0x4b && bytes[1] == 0x57 && bytes[2] == 0x50 && bytes[3] == 0x4b
        && bytes[4] == 0x32 && bytes[5] == 0x00;
    proof {
        if b {
            assert(bytes@.subrange(0, 6) =~= magic());
        } else if bytes@.subrange(0, 6) == magic() {
            assert(bytes@.subrange(0, 6)[0] == bytes@[0]);
            assert(bytes@.subrange(0, 6)[1] == bytes@[1]);
            assert(bytes@.subrange(0, 6)[2] == bytes@[2]);
            assert(bytes@.subrange(0, 6)[3] == bytes@[3]);
            assert(bytes@.subrange(0, 6)[4] == bytes@[4]);
            assert(bytes@.subrange(0, 6)[5] == bytes@[5]);
        }
    }
    b
}

/// Decode a packed table; `None` for a pruning section with rows but no
/// columns, which the decoder cannot split into rows.
pub fn try_decode_packed(bytes: &[u8]) -> (r: Option<Result<TableData, String>>)
    ensures
        r is None <==> decode_spec(bytes@) is None,
        r matches Some(Ok(t)) ==> decode_spec(bytes@) == Some(Ok::<TableView, Seq<char>>(t.view_pair()))
            && t.move_tables@.len() == 6 && t.pruning_tables@.len() == 4,
        r matches Some(Err(e)) ==> decode_spec(bytes@) == Some(Err::<TableView, Seq<char>>(e@)),
{
    if !has_magic(bytes) {
        return Some(Err(String::from_str("not a packed solver table (bad magic)")));
    }
    let total = bytes.len();
    let mut pos: usize = 6;
    let mut m16: Vec<Vec<Vec<u16>>> = Vec::new();
    let mut m8: Vec<Vec<Vec<u8>>> = Vec::new();
    let mut k: usize = 0;
    assert(rows_view_3(m16@) =~= Seq::<Seq<Seq<u16>>>::empty());
    assert(rows_view_3(m8@) =~= Seq::<Seq<Seq<u8>>>::empty());
    while k < SECTIONS
        invariant
            total == bytes@.len(),
            6 <= pos <= total,
            0 <= k <= 10,
            m16@.len() == (if k < 6 {
                k
            } else {
                6
            }),
            m8@.len() == (if k < 6 {
                0
            } else {
                k - 6
            }),
            decode_spec(bytes@) == decode_from(bytes@, pos as int, k as int, rows_view_3(m16@), rows_view_3(m8@)),
        decreases 10 - k,
    {
        if total - pos < 12 {
            return Some(Err(String::from_str("truncated header")));
        }
        let rows = read_le32(bytes, pos);
        let len = read_le32(bytes, pos + 4);
        let plen = read_le32(bytes, pos + 8);
        let start = pos + 12;
        if plen as usize > total - start {
            return Some(Err(String::from_str("truncated section payload")));
        }
        let end = start + plen as usize;
        let payload = slice_subrange(bytes, start, end);
        let raw = match inflate(payload) {
            Ok(v) => v,
            Err(e) => {
                let mut text = String::from_str("inflate: ");
                crate::text::push_str(&mut text, e.as_str());
                return Some(Err(text));
            },
        };
        proof {
            assert(rows * len <= 0xffff_ffffu64 * 0xffff_ffffu64) by (nonlinear_arith)
                requires
                    rows <= 0xffff_ffffu64,
                    len <= 0xffff_ffffu64,
            ;
        }
        let n: u64 = rows as u64 * len as u64;
        let size = raw.len() as u64;
        if k < MOVE_SECTIONS {
            if size % 2 != 0 || size / 2 != n {
                return Some(Err(String::from_str("section size mismatch (u16)")));
            }
            let table = undelta(&raw, rows as usize, len as usize);
            let ghost before = rows_view_3(m16@);
            m16.push(table);
            assert(rows_view_3(m16@) =~= before.push(undelta_spec(raw@, rows as int, len as int)));
        } else {
            if size != n / 2 + n % 2 {
                return Some(Err(String::from_str("section size mismatch (u8)")));
            }
            if rows > 0 && len == 0 {
                return None;
            }
            let table = unpack_nibbles(&raw, rows, len);
            let ghost before = rows_view_3(m8@);
            m8.push(table);
            assert(rows_view_3(m8@) =~= before.push(unnibble_spec(raw@, rows as int, len as int)));
        }
        pos = end;
        k += 1;
    }
    let t = TableData { move_tables: m16, pruning_tables: m8 };
    Some(Ok(t))
}

/// Decode a packed table.
pub fn decode_packed(bytes: &[u8]) -> (r: Result<TableData, String>)
    requires
        decode_spec(bytes@) is Some,
    ensures
        r matches Ok(t) ==> decode_spec(bytes@) == Some(Ok::<TableView, Seq<char>>(t.view_pair()))
            && t.move_tables@.len() == 6 && t.pruning_tables@.len() == 4,
        r matches Err(e) ==> decode_spec(bytes@) == Some(Err::<TableView, Seq<char>>(e@)),
{
    match try_decode_packed(bytes) {
        Some(r) => r,
        None => {
            assert(false);
            Err(String::new())
        },
    }
}

// ---------------------------------------------------- raw section bytes

/// A row of u16 values as little-endian bytes.
pub open spec fn le16_row(r: Seq<u16>) -> Seq<u8> {
    Seq::new(
        (2 * r.len()) as nat,
        |k: int|
            if k % 2 == 0 {
                (r[k / 2] % 256) as u8
            } else {
                (r[k / 2] / 256) as u8
            },
    )
}

/// A u16 table's cells, row by row, each as two little-endian bytes.
pub fn u16s(t: &Vec<Vec<u16>>) -> (r: Vec<u8>)
    ensures
        r@ == rows_view(t@).map_values(|row: Seq<u16>| le16_row(row)).flatten(),
{
    let ghost rows = rows_view(t@).map_values(|row: Seq<u16>| le16_row(row));
    let mut out: Vec<u8> = Vec::new();
    let mut i: usize = 0;
    while i < t.len()
        invariant
            0 <= i <= t@.len(),
            rows == rows_view(t@).map_values(|row: Seq<u16>| le16_row(row)),
            out@ == rows.take(i as int).flatten(),
        decreases t@.len() - i,
    {
        let row = &t[i];
        let ghost before = out@;
        let mut j: usize = 0;
        while j < row.len()
            invariant
                0 <= j <= row@.len(),
                out@ == before + le16_row(row@).take(2 * j),
            decreases row@.len() - j,
        {
            let v = row[j];
            out.push((v % 256) as u8);
            out.push((v / 256) as u8);
            assert(out@ =~= before + le16_row(row@).take(2 * (j + 1)));
            j += 1;
        }
        proof {
            assert(le16_row(row@).take(2 * j) =~= le16_row(row@));
            assert(rows[i as int] == le16_row(row@));
            assert(rows.take(i + 1) =~= rows.take(i as int).push(rows[i as int]));
            rows.take(i as int).lemma_flatten_push(rows[i as int]);
        }
        i += 1;
    }
    assert(rows.take(t@.len() as int) =~= rows);
    out
}

/// A u8 table's cells, row by row.
pub fn u8s(t: &Vec<Vec<u8>>) -> (r: Vec<u8>)
    ensures
        r@ == rows_view(t@).flatten(),
{
    let ghost rows = rows_view(t@);
    let mut out: Vec<u8> = Vec::new();
    let mut i: usize = 0;
    while i < t.len()
        invariant
            0 <= i <= t@.len(),
            rows == rows_view(t@),
            out@ == rows.take(i as int).flatten(),
        decreases t@.len() - i,
    {
        let row = &t[i];
        let ghost before = out@;
        let mut j: usize = 0;
        while j < row.len()
            invariant
                0 <= j <= row@.len(),
                out@ == before + row@.take(j as int),
            decreases row@.len() - j,
        {
            out.push(row[j]);
            assert(out@ =~= before + row@.take(j + 1));
            j += 1;
        }
        proof {
            assert(row@.take(j as int) =~= row@);
            assert(rows.take(i + 1) =~= rows.take(i as int).push(rows[i as int]));
            rows.take(i as int).lemma_flatten_push(rows[i as int]);
        }
        i += 1;
    }
    assert(rows.take(t@.len() as int) =~= rows);
    out
}

} // verus!
