//! Base64 for binary values in the store's JSON dump (standard alphabet,
//! `=` padding).

use vstd::prelude::*;
use crate::text::string_push;

verus! {

/// Digit `v` (0..64) of the alphabet `A-Z a-z 0-9 + /`.
pub open spec fn b64_char(v: u32) -> char {
    if v < 26 {
        (65 + v) as char
    } else if v < 52 {
        (97 + (v - 26)) as char
    } else if v < 62 {
        (48 + (v - 52)) as char
    } else if v == 62 {
        '+'
    } else {
        '/'
    }
}

/// The value of an alphabet byte (0 for a byte outside the alphabet).
pub open spec fn b64_value(c: u8) -> u32 {
    if 65 <= c <= 90 {
        (c - 65) as u32
    } else if 97 <= c <= 122 {
        (c - 97 + 26) as u32
    } else if 48 <= c <= 57 {
        (c - 48 + 52) as u32
    } else if c == 43 {
        62
    } else if c == 47 {
        63
    } else {
        0
    }
}

/// Byte `i` of `d`, 0 past the end.
pub open spec fn byte_or_zero(d: Seq<u8>, i: int) -> u32 {
    if 0 <= i < d.len() {
        d[i] as u32
    } else {
        0
    }
}

/// The first three bytes (zeros past the end) as a 24-bit group.
pub open spec fn group(d: Seq<u8>) -> u32 {
    (byte_or_zero(d, 0) << 16u32) | (byte_or_zero(d, 1) << 8u32) | byte_or_zero(d, 2)
}

/// Six-bit digit `i` (0..4, most significant first) of a 24-bit group.
pub open spec fn sextet(n: u32, i: int) -> u32 {
    if i == 0 {
        (n >> 18u32) & 63
    } else if i == 1 {
        (n >> 12u32) & 63
    } else if i == 2 {
        (n >> 6u32) & 63
    } else {
        n & 63
    }
}

/// Four output characters for a group carrying `k` (1..=3) bytes.
pub open spec fn b64_quad(n: u32, k: int) -> Seq<char> {
    seq![
        b64_char(sextet(n, 0)),
        b64_char(sextet(n, 1)),
        if k >= 2 {
            b64_char(sextet(n, 2))
        } else {
            '='
        },
        if k >= 3 {
            b64_char(sextet(n, 3))
        } else {
            '='
        },
    ]
}

/// Base64 of `d`: each group of three bytes (the last one possibly
/// shorter) becomes four characters, padded with `=`.
pub open spec fn base64_spec(d: Seq<u8>) -> Seq<char>
    decreases d.len(),
{
    if d.len() == 0 {
        seq![]
    } else {
        let k: int = if d.len() < 3 {
            d.len() as int
        } else {
            3
        };
        b64_quad(group(d), k) + base64_spec(d.skip(k))
    }
}

/// The group a chunk of up to four digits spells (missing digits 0).
pub open spec fn quad_value(f: Seq<u8>) -> u32 {
    (b64_value(f[0]) << 18u32) | (if f.len() > 1 {
        b64_value(f[1]) << 12u32
    } else {
        0
    }) | (if f.len() > 2 {
        b64_value(f[2]) << 6u32
    } else {
        0
    }) | (if f.len() > 3 {
        b64_value(f[3])
    } else {
        0
    })
}

/// The first `m` (0..=3) bytes of a 24-bit group.
pub open spec fn group_bytes(n: u32, m: int) -> Seq<u8> {
    let all = seq![((n >> 16u32) & 255) as u8, ((n >> 8u32) & 255) as u8, (n & 255) as u8];
    all.take(m)
}

/// Decoded bytes of digits with padding removed: each chunk of up to four
/// digits gives `len * 6 / 8` bytes.
pub open spec fn b64_decode_spec(f: Seq<u8>) -> Seq<u8>
    decreases f.len(),
{
    if f.len() == 0 {
        seq![]
    } else {
        let k: int = if f.len() < 4 {
            f.len() as int
        } else {
            4
        };
        group_bytes(quad_value(f.take(k)), k * 6 / 8) + b64_decode_spec(f.skip(k))
    }
}

/// Not the padding character.
pub open spec fn not_pad(c: u8) -> bool {
    c != 61
}

/// The bytes without padding characters.
pub open spec fn without_pad(s: Seq<u8>) -> Seq<u8> {
    s.filter(|c: u8| not_pad(c))
}

/// Characters as bytes (for ASCII text, its UTF-8 bytes).
pub open spec fn ascii_bytes(s: Seq<char>) -> Seq<u8> {
    s.map_values(|c: char| c as u8)
}

fn b64_digit(v: u32) -> (c: char)
    requires
        v < 64,
    ensures
        c == b64_char(v),
{
    if v < 26 {
        ((65 + v) as u8) as char
    } else if v < 52 {
        ((97 + (v - 26)) as u8) as char
    } else if v < 62 {
        ((48 + (v - 52)) as u8) as char
    } else if v == 62 {
        '+'
    } else {
        '/'
    }
}

fn b64_byte_value(c: u8) -> (v: u32)
    ensures
        v == b64_value(c),
{
    if 65 <= c && c <= 90 {
        (c - 65) as u32
    } else if 97 <= c && c <= 122 {
        (c - 97 + 26) as u32
    } else if 48 <= c && c <= 57 {
        (c - 48 + 52) as u32
    } else if c == 43 {
        62
    } else if c == 47 {
        63
    } else {
        0
    }
}

proof fn lemma_sextet_bound(n: u32, i: int)
    ensures
        sextet(n, i) < 64,
{
    let a = (n >> 18u32) & 63;
    let b = (n >> 12u32) & 63;
    let c = (n >> 6u32) & 63;
    let d = n & 63;
    assert(a < 64 && b < 64 && c < 64 && d < 64) by (bit_vector)
        requires
            a == (n >> 18u32) & 63,
            b == (n >> 12u32) & 63,
            c == (n >> 6u32) & 63,
            d == n & 63,
    ;
}

/// Base64 of `data`.
pub fn base64_encode(data: &[u8]) -> (r: String)
    ensures
        r@ == base64_spec(data@),
{
    let mut out = String::new();
    let len = data.len();
    let mut p: usize = 0;
    assert(data@.skip(0) =~= data@);
    assert(out@ + base64_spec(data@) =~= base64_spec(data@));
    while p < len
        invariant
            len == data@.len(),
            0 <= p <= len,
            out@ + base64_spec(data@.skip(p as int)) == base64_spec(data@),
        decreases len - p,
    {
        let ghost rest = data@.skip(p as int);
        let k: usize = if len - p < 3 {
            len - p
        } else {
            3
        };
        let b0 = data[p] as u32;
        let b1 = if k > 1 {
            data[p + 1] as u32
        } else {
            0
        };
        let b2 = if k > 2 {
            data[p + 2] as u32
        } else {
            0
        };
        let n = (b0 << 16u32) | (b1 << 8u32) | b2;
        assert(n == group(rest));
        proof {
            lemma_sextet_bound(n, 0);
            lemma_sextet_bound(n, 1);
            lemma_sextet_bound(n, 2);
            lemma_sextet_bound(n, 3);
        }
        let ghost before = out@;
        string_push(&mut out, b64_digit((n >> 18u32) & 63));
        string_push(&mut out, b64_digit((n >> 12u32) & 63));
        if k >= 2 {
            string_push(&mut out, b64_digit((n >> 6u32) & 63));
        } else {
            string_push(&mut out, '=');
        }
        if k >= 3 {
            string_push(&mut out, b64_digit(n & 63));
        } else {
            string_push(&mut out, '=');
        }
        proof {
            assert(out@ =~= before + b64_quad(n, k as int));
            assert(rest.skip(k as int) =~= data@.skip(p + k));
            assert(before + b64_quad(n, k as int) + base64_spec(rest.skip(k as int)) =~= before
                + base64_spec(rest));
        }
        p += k;
    }
    assert(data@.skip(len as int) =~= Seq::<u8>::empty());
    assert(out@ + Seq::<char>::empty() =~= out@);
    out
}

/// Bytes decoded from base64 text given as bytes; `=` anywhere is skipped
/// and a byte outside the alphabet counts as digit 0.
pub fn base64_decode(s: &[u8]) -> (r: Vec<u8>)
    ensures
        r@ == b64_decode_spec(without_pad(s@)),
{
    let mut f: Vec<u8> = Vec::new();
    let mut i: usize = 0;
    while i < s.len()
        invariant
            0 <= i <= s@.len(),
            f@ == without_pad(s@.take(i as int)),
        decreases s@.len() - i,
    {
        let ghost before = s@.take(i as int);
        let ghost prev = f@;
        if s[i] != 61 {
            f.push(s[i]);
        }
        proof {
            let now = s@.take(i + 1);
            assert(now =~= before.push(s@[i as int]));
            assert(now.drop_last() =~= before);
            reveal(Seq::filter);
            assert(without_pad(now) == (if not_pad(now.last()) {
                without_pad(before).push(now.last())
            } else {
                without_pad(before)
            }));
            assert(f@ =~= without_pad(now));
        }
        i += 1;
    }
    assert(s@.take(s@.len() as int) =~= s@);
    let len = f.len();
    let mut out: Vec<u8> = Vec::new();
    let mut p: usize = 0;
    assert(f@.skip(0) =~= f@);
    assert(out@ + b64_decode_spec(f@) =~= b64_decode_spec(f@));
    while p < len
        invariant
            len == f@.len(),
            0 <= p <= len,
            out@ + b64_decode_spec(f@.skip(p as int)) == b64_decode_spec(f@),
        decreases len - p,
    {
        let ghost rest = f@.skip(p as int);
        let k: usize = if len - p < 4 {
            len - p
        } else {
            4
        };
        let t0 = b64_byte_value(f[p]) << 18u32;
        let t1 = if k > 1 {
            b64_byte_value(f[p + 1]) << 12u32
        } else {
            0
        };
        let t2 = if k > 2 {
            b64_byte_value(f[p + 2]) << 6u32
        } else {
            0
        };
        let t3 = if k > 3 {
            b64_byte_value(f[p + 3])
        } else {
            0
        };
        let n = t0 | t1 | t2 | t3;
        proof {
            let c = rest.take(k as int);
            assert(c[0] == f@[p as int]);
            assert(k > 1 ==> c[1] == f@[p + 1]);
            assert(k > 2 ==> c[2] == f@[p + 2]);
            assert(k > 3 ==> c[3] == f@[p + 3]);
            assert(n == quad_value(c));
        }
        let ghost before = out@;
        let produced = k * 6 / 8;
        if produced > 0 {
            out.push(((n >> 16u32) & 255) as u8);
        }
        if produced > 1 {
            out.push(((n >> 8u32) & 255) as u8);
        }
        if produced > 2 {
            out.push((n & 255) as u8);
        }
        proof {
            assert(out@ =~= before + group_bytes(n, produced as int));
            assert(rest.skip(k as int) =~= f@.skip(p + k));
            assert(before + group_bytes(n, produced as int) + b64_decode_spec(rest.skip(k as int))
                =~= before + b64_decode_spec(rest));
        }
        p += k;
    }
    assert(f@.skip(len as int) =~= Seq::<u8>::empty());
    assert(out@ + Seq::<u8>::empty() =~= out@);
    out
}

proof fn lemma_without_pad_add(a: Seq<u8>, b: Seq<u8>)
    ensures
        without_pad(a + b) == without_pad(a) + without_pad(b),
    decreases b.len(),
{
    reveal(Seq::filter);
    if b.len() == 0 {
        assert(a + b =~= a);
        assert(without_pad(a) + without_pad(b) =~= without_pad(a));
    } else {
        lemma_without_pad_add(a, b.drop_last());
        assert((a + b).drop_last() =~= a + b.drop_last());
        assert((a + b).last() == b.last());
        if not_pad(b.last()) {
            assert(without_pad(a + b) =~= without_pad(a) + without_pad(b));
        } else {
            assert(without_pad(a + b) =~= without_pad(a) + without_pad(b));
        }
    }
}

proof fn lemma_without_pad_one(x: u8)
    ensures
        without_pad(seq![x]) == (if not_pad(x) {
            seq![x]
        } else {
            Seq::<u8>::empty()
        }),
{
    reveal(Seq::filter);
    assert(seq![x].drop_last() =~= Seq::<u8>::empty());
    assert(without_pad(Seq::<u8>::empty()) =~= Seq::<u8>::empty());
}

proof fn lemma_b64_char(v: u32)
    requires
        v < 64,
    ensures
        not_pad(b64_char(v) as u8),
        b64_value(b64_char(v) as u8) == v,
{
}

proof fn lemma_group_bits(b0: u32, b1: u32, b2: u32)
    by (bit_vector)
    requires
        b0 < 256,
        b1 < 256,
        b2 < 256,
    ensures
        ({
            let n = (b0 << 16u32) | (b1 << 8u32) | b2;
            let s0 = (n >> 18u32) & 63;
            let s1 = (n >> 12u32) & 63;
            let s2 = (n >> 6u32) & 63;
            let s3 = n & 63;
            &&& ((s0 << 18u32) | (s1 << 12u32) | (s2 << 6u32) | s3) == n
            &&& b2 == 0 ==> ((s0 << 18u32) | (s1 << 12u32) | (s2 << 6u32) | 0u32) == n
            &&& b1 == 0 && b2 == 0 ==> ((s0 << 18u32) | (s1 << 12u32) | 0u32 | 0u32) == n
            &&& (n >> 16u32) & 255 == b0
            &&& (n >> 8u32) & 255 == b1
            &&& n & 255 == b2
        }),
{
}

/// The digits one group contributes after padding is removed, and what
/// they decode to.
proof fn lemma_chunk(d: Seq<u8>, k: int)
    requires
        d.len() > 0,
        k == (if d.len() < 3 {
            d.len() as int
        } else {
            3
        }),
    ensures
        ({
            let fq = without_pad(ascii_bytes(b64_quad(group(d), k)));
            &&& fq.len() == k + 1
            &&& group_bytes(quad_value(fq), (k + 1) * 6 / 8) == d.take(k)
        }),
{
    let n = group(d);
    let b0 = byte_or_zero(d, 0);
    let b1 = byte_or_zero(d, 1);
    let b2 = byte_or_zero(d, 2);
    lemma_group_bits(b0, b1, b2);
    let q = b64_quad(n, k);
    lemma_sextet_bound(n, 0);
    lemma_sextet_bound(n, 1);
    lemma_sextet_bound(n, 2);
    lemma_sextet_bound(n, 3);
    let x0 = b64_char(sextet(n, 0)) as u8;
    let x1 = b64_char(sextet(n, 1)) as u8;
    let x2 = q[2] as u8;
    let x3 = q[3] as u8;
    lemma_b64_char(sextet(n, 0));
    lemma_b64_char(sextet(n, 1));
    lemma_b64_char(sextet(n, 2));
    lemma_b64_char(sextet(n, 3));
    assert(ascii_bytes(q) =~= seq![x0] + seq![x1] + seq![x2] + seq![x3]);
    lemma_without_pad_one(x0);
    lemma_without_pad_one(x1);
    lemma_without_pad_one(x2);
    lemma_without_pad_one(x3);
    lemma_without_pad_add(seq![x0] + seq![x1] + seq![x2], seq![x3]);
    lemma_without_pad_add(seq![x0] + seq![x1], seq![x2]);
    lemma_without_pad_add(seq![x0], seq![x1]);
    let fq = without_pad(ascii_bytes(q));
    assert(fq.len() == k + 1);
    assert(quad_value(fq) == ((sextet(n, 0) << 18u32) | (sextet(n, 1) << 12u32) | (if k >= 2 {
        sextet(n, 2) << 6u32
    } else {
        0
    }) | (if k >= 3 {
        sextet(n, 3)
    } else {
        0
    })));
    assert((k + 1) * 6 / 8 == k);
    if k == 1 {
        assert(b1 == 0 && b2 == 0);
    } else if k == 2 {
        assert(b2 == 0);
    }
    assert(quad_value(fq) == n);
    assert(group_bytes(n, k) =~= d.take(k));
}

/// Decoding the base64 text of any bytes gives the bytes back.
pub proof fn lemma_base64_round_trip(d: Seq<u8>)
    ensures
        b64_decode_spec(without_pad(ascii_bytes(base64_spec(d)))) == d,
    decreases d.len(),
{
    if d.len() == 0 {
        reveal(Seq::filter);
        assert(ascii_bytes(base64_spec(d)) =~= Seq::<u8>::empty());
    } else {
        let k: int = if d.len() < 3 {
            d.len() as int
        } else {
            3
        };
        let q = b64_quad(group(d), k);
        let rest = d.skip(k);
        lemma_base64_round_trip(rest);
        lemma_chunk(d, k);
        let e_rest = ascii_bytes(base64_spec(rest));
        assert(ascii_bytes(base64_spec(d)) =~= ascii_bytes(q) + e_rest);
        lemma_without_pad_add(ascii_bytes(q), e_rest);
        let fq = without_pad(ascii_bytes(q));
        let f = fq + without_pad(e_rest);
        if k < 3 {
            assert(rest.len() == 0);
            reveal(Seq::filter);
            assert(e_rest =~= Seq::<u8>::empty());
            assert(without_pad(e_rest) =~= Seq::<u8>::empty());
        }
        let chunk: int = if f.len() < 4 {
            f.len() as int
        } else {
            4
        };
        assert(chunk == k + 1);
        assert(f.take(chunk) =~= fq);
        assert(f.skip(chunk) =~= without_pad(e_rest));
        assert(d.take(k) + rest =~= d);
    }
}

} // verus!
