//! The layout of a solver table in bincode's standard encoding, read far
//! enough to check every length prefix before the table is decoded: six
//! move tables (rows of varint `u16`) then four pruning tables (rows of
//! bytes), each a varint row count followed by its rows, each row a varint
//! length followed by its entries.
//!
//! A length prefix that claims more elements than there are bytes left can
//! never be met (every element takes at least one byte), and the decoder
//! would first try to reserve room for all of them.

use vstd::prelude::*;

verus! {

/// Where a scan of the layout ends.
#[derive(Clone, Copy, PartialEq, Eq, Structural, Debug)]
pub enum Scan {
    /// The part was read; the next part starts at this position.
    Next(usize),
    /// The bytes end, or hold a marker the decoder refuses, before any
    /// length prefix claims too much: the decoder stops there with an error.
    Stops,
    /// A length prefix claims more elements than bytes remain.
    TooLong,
}

/// Little-endian value of `n` bytes at `pos`.
pub open spec fn le_bytes(b: Seq<u8>, pos: int, n: nat) -> int
    decreases n,
{
    if n == 0 {
        0
    } else {
        b[pos] + 256 * le_bytes(b, pos + 1, (n - 1) as nat)
    }
}

/// A varint length (bincode's `u64` varint): a byte up to 250 is the
/// value; 251, 252 and 253 are followed by 2, 4 or 8 little-endian bytes.
/// The value and the position after it, or `None` when the bytes end or
/// the marker is refused.
pub open spec fn varint_len(b: Seq<u8>, pos: int) -> Option<(int, int)> {
    if pos < 0 || pos >= b.len() {
        None
    } else {
        let m = b[pos];
        let w: nat = if m == 251 {
            2
        } else if m == 252 {
            4
        } else if m == 253 {
            8
        } else {
            0
        };
        if m <= 250 {
            Some((m as int, pos + 1))
        } else if w == 0 || pos + 1 + w > b.len() {
            None
        } else {
            Some((le_bytes(b, pos + 1, w), pos + 1 + w))
        }
    }
}

/// The position after `n` varint `u16` entries (a byte up to 250, or 251
/// and two bytes), or `None` when the bytes end or a marker is refused.
pub open spec fn skip_u16s(b: Seq<u8>, pos: int, n: int) -> Option<int>
    decreases n,
{
    if n <= 0 {
        Some(pos)
    } else if pos < 0 || pos >= b.len() {
        None
    } else if b[pos] <= 250 {
        skip_u16s(b, pos + 1, n - 1)
    } else if b[pos] == 251 && pos + 3 <= b.len() {
        skip_u16s(b, pos + 3, n - 1)
    } else {
        None
    }
}

/// Scans `rows` rows from `pos`: of varint `u16` entries when `wide`, of
/// bytes otherwise.
pub open spec fn scan_rows(b: Seq<u8>, pos: int, rows: int, wide: bool) -> Scan
    decreases rows,
{
    if rows <= 0 {
        Scan::Next(pos as usize)
    } else {
        match varint_len(b, pos) {
            None => Scan::Stops,
            Some((n, p)) => if n > b.len() - p {
                Scan::TooLong
            } else if wide {
                match skip_u16s(b, p, n) {
                    None => Scan::Stops,
                    Some(q) => scan_rows(b, q, rows - 1, wide),
                }
            } else {
                scan_rows(b, p + n, rows - 1, wide)
            },
        }
    }
}

/// Scans the tables from number `k` (0 to 5 move tables, 6 to 9 pruning
/// tables) on, starting at `pos`.
pub open spec fn scan_tables(b: Seq<u8>, pos: int, k: int) -> Scan
    decreases 10 - k,
{
    if k >= 10 {
        Scan::Next(pos as usize)
    } else {
        match varint_len(b, pos) {
            None => Scan::Stops,
            Some((n, p)) => if n > b.len() - p {
                Scan::TooLong
            } else {
                match scan_rows(b, p, n, k < 6) {
                    Scan::Next(q) => scan_tables(b, q as int, k + 1),
                    other => other,
                }
            },
        }
    }
}

/// Every length prefix the decoder reads claims no more elements than
/// bytes remain.
pub open spec fn prefixes_fit(b: Seq<u8>) -> bool {
    scan_tables(b, 0, 0) != Scan::TooLong
}

fn read_varint_len(b: &[u8], pos: usize) -> (r: Option<(u64, usize)>)
    ensures
        match r {
            Some((v, p)) => varint_len(b@, pos as int) == Some((v as int, p as int)),
            None => varint_len(b@, pos as int) is None,
        },
{
    if pos >= b.len() {
        return None;
    }
    let m = b[pos];
    if m <= 250 {
        return Some((m as u64, pos + 1));
    }
    let w: usize = if m == 251 {
        2
    } else if m == 252 {
        4
    } else if m == 253 {
        8
    } else {
        0
    };
    if w == 0 || w > b.len() - pos - 1 {
        return None;
    }
    let mut v: u64 = 0;
    let mut i: usize = w;
    proof {
        assert(le_bytes(b@, pos + 1 + w, 0) == 0);
    }
    while i > 0
        invariant
            0 <= i <= w,
            w <= 8,
            pos + 1 + w <= b.len(),
            v as int == le_bytes(b@, pos + 1 + i, (w - i) as nat),
            v < pow256((w - i) as nat),
        decreases i,
    {
        i -= 1;
        let byte = b[pos + 1 + i];
        proof {
            let n = (w - i - 1) as nat;
            lemma_pow256_step(n);
            assert(v < pow256(n));
            assert(256 * pow256(n) <= 0x1_0000_0000_0000_0000);
            assert(v * 256 + byte < 0x1_0000_0000_0000_0000) by (nonlinear_arith)
                requires
                    v < pow256(n),
                    256 * pow256(n) <= 0x1_0000_0000_0000_0000,
                    byte < 256,
            ;
        }
        v = v * 256 + byte as u64;
        proof {
            assert(le_bytes(b@, pos + 1 + i, (w - i) as nat) == b@[pos + 1 + i] + 256 * le_bytes(
                b@,
                pos + 1 + i + 1,
                (w - i - 1) as nat,
            ));
        }
    }
    Some((v, pos + 1 + w))
}

proof fn lemma_le_nonneg(b: Seq<u8>, pos: int, n: nat)
    ensures
        le_bytes(b, pos, n) >= 0,
    decreases n,
{
    if n > 0 {
        lemma_le_nonneg(b, pos + 1, (n - 1) as nat);
    }
}

/// `256^n`.
pub open spec fn pow256(n: nat) -> int
    decreases n,
{
    if n == 0 {
        1
    } else {
        256 * pow256((n - 1) as nat)
    }
}

proof fn lemma_pow256_step(n: nat)
    requires
        n < 8,
    ensures
        pow256(n + 1) == 256 * pow256(n),
        pow256(n + 1) <= pow256(8),
        pow256(8) == 0x1_0000_0000_0000_0000,
{
    reveal_with_fuel(pow256, 9);
    if n < 7 {
        lemma_pow256_mono(n + 1, 8);
    }
}

proof fn lemma_pow256_mono(a: nat, b: nat)
    requires
        a <= b,
    ensures
        pow256(a) <= pow256(b),
        pow256(a) >= 1,
    decreases b,
{
    if b > a {
        lemma_pow256_mono(a, (b - 1) as nat);
    } else if a > 0 {
        lemma_pow256_mono((a - 1) as nat, (a - 1) as nat);
    }
}

fn skip_entries(b: &[u8], pos: usize, n: u64) -> (r: Option<usize>)
    ensures
        match r {
            Some(q) => skip_u16s(b@, pos as int, n as int) == Some(q as int),
            None => skip_u16s(b@, pos as int, n as int) is None,
        },
{
    let mut p = pos;
    let mut left = n;
    while left > 0
        invariant
            skip_u16s(b@, p as int, left as int) == skip_u16s(b@, pos as int, n as int),
        decreases left,
    {
        if p >= b.len() {
            return None;
        }
        if b[p] <= 250 {
            p = p + 1;
        } else if b[p] == 251 && b.len() - p >= 3 {
            p = p + 3;
        } else {
            return None;
        }
        left -= 1;
    }
    Some(p)
}

fn scan_table_rows(b: &[u8], pos: usize, rows: u64, wide: bool) -> (r: Scan)
    requires
        pos <= b@.len(),
    ensures
        r == scan_rows(b@, pos as int, rows as int, wide),
{
    let mut p = pos;
    let mut left = rows;
    while left > 0
        invariant
            p <= b@.len() || left == 0,
            scan_rows(b@, p as int, left as int, wide) == scan_rows(b@, pos as int, rows as int, wide),
        decreases left,
    {
        match read_varint_len(b, p) {
            None => {
                return Scan::Stops;
            },
            Some((n, q)) => {
                if n > (b.len() - q) as u64 {
                    return Scan::TooLong;
                }
                if wide {
                    match skip_entries(b, q, n) {
                        None => {
                            return Scan::Stops;
                        },
                        Some(e) => {
                            proof {
                                lemma_skip_within(b@, q as int, n as int);
                            }
                            p = e;
                        },
                    }
                } else {
                    p = q + n as usize;
                }
            },
        }
        left -= 1;
    }
    Scan::Next(p)
}

proof fn lemma_skip_within(b: Seq<u8>, pos: int, n: int)
    requires
        skip_u16s(b, pos, n) is Some,
        0 <= pos,
    ensures
        pos <= skip_u16s(b, pos, n)->0 <= b.len() || (n <= 0 && skip_u16s(b, pos, n)->0 == pos),
    decreases n,
{
    if n > 0 {
        if b[pos] <= 250 {
            lemma_skip_within(b, pos + 1, n - 1);
        } else {
            lemma_skip_within(b, pos + 3, n - 1);
        }
    }
}

/// Whether every length prefix of a bincode solver table fits in the bytes
/// that follow it (see `prefixes_fit`).
pub fn table_prefixes_fit(b: &[u8]) -> (r: bool)
    ensures
        r == prefixes_fit(b@),
{
    let mut p: usize = 0;
    let mut k: usize = 0;
    while k < 10
        invariant
            0 <= k <= 10,
            p <= b@.len(),
            scan_tables(b@, p as int, k as int) == scan_tables(b@, 0, 0),
        decreases 10 - k,
    {
        match read_varint_len(b, p) {
            None => {
                return true;
            },
            Some((n, q)) => {
                if n > (b.len() - q) as u64 {
                    return false;
                }
                match scan_table_rows(b, q, n, k < 6) {
                    Scan::Next(e) => {
                        proof {
                            lemma_rows_within(b@, q as int, n as int, k < 6);
                        }
                        p = e;
                    },
                    Scan::Stops => {
                        return true;
                    },
                    Scan::TooLong => {
                        return false;
                    },
                }
            },
        }
        k += 1;
    }
    true
}

proof fn lemma_rows_within(b: Seq<u8>, pos: int, rows: int, wide: bool)
    requires
        scan_rows(b, pos, rows, wide) matches Scan::Next(_),
        0 <= pos <= b.len(),
    ensures
        scan_rows(b, pos, rows, wide) matches Scan::Next(q) && q <= b.len(),
    decreases rows,
{
    if rows > 0 {
        let (n, p) = varint_len(b, pos)->0;
        if wide {
            let q = skip_u16s(b, p, n)->0;
            lemma_skip_within(b, p, n);
            lemma_rows_within(b, q, rows - 1, wide);
        } else {
            assert(p <= b.len());
            if b[pos] > 250 {
                let w: nat = if b[pos] == 251 { 2 } else if b[pos] == 252 { 4 } else { 8 };
                lemma_le_nonneg(b, pos + 1, w);
            }
            lemma_rows_within(b, p + n, rows - 1, wide);
        }
    } else {
    }
}

} // verus!
