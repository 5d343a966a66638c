//! Translation tables: a minimal RFC 4180 reader for `key,text` files.
//! Quoted fields may contain commas, doubled quotes and newlines. The
//! first row is a header; later rows with a non-empty key and a second
//! field become entries.

use vstd::prelude::*;
use crate::lang::str_equal;
use crate::text::str_chars;

verus! {

/// End of a quoted field's text starting at `i` (just after the opening
/// quote): the first quote that is not doubled, or the end of the input.
pub open spec fn quoted_end(cs: Seq<char>, i: int) -> int
    decreases cs.len() - i,
{
    if i < 0 || i >= cs.len() {
        i
    } else if cs[i] == '"' {
        if i + 1 < cs.len() && cs[i + 1] == '"' {
            quoted_end(cs, i + 2)
        } else {
            i
        }
    } else {
        quoted_end(cs, i + 1)
    }
}

/// End of an unquoted field starting at `i`: the first comma or line
/// break, or the end of the input.
pub open spec fn plain_end(cs: Seq<char>, i: int) -> int
    decreases cs.len() - i,
{
    if i < 0 || i >= cs.len() || cs[i] == ',' || cs[i] == '\n' || cs[i] == '\r' {
        i
    } else {
        plain_end(cs, i + 1)
    }
}

/// Doubled quotes collapsed to single quotes, left to right.
pub open spec fn unescape(raw: Seq<char>) -> Seq<char>
    decreases raw.len(),
{
    if raw.len() == 0 {
        seq![]
    } else if raw.len() >= 2 && raw[0] == '"' && raw[1] == '"' {
        seq!['"'] + unescape(raw.subrange(2, raw.len() as int))
    } else {
        seq![raw[0]] + unescape(raw.subrange(1, raw.len() as int))
    }
}

/// One field at `i`: its text and the position after it.
pub open spec fn field_spec(cs: Seq<char>, i: int) -> (Seq<char>, int) {
    if cs[i] == '"' {
        let e = quoted_end(cs, i + 1);
        let stop = if e < cs.len() {
            e
        } else {
            cs.len() as int
        };
        (unescape(cs.subrange(i + 1, stop)), e + 1)
    } else {
        let e = plain_end(cs, i);
        (cs.subrange(i, e), e)
    }
}

/// The first position at or after `i` that is not a line break.
pub open spec fn skip_breaks(cs: Seq<char>, i: int) -> int
    decreases cs.len() - i,
{
    if 0 <= i < cs.len() && (cs[i] == '\r' || cs[i] == '\n') {
        skip_breaks(cs, i + 1)
    } else {
        i
    }
}

/// The entries from position `i` on, with the current row's fields so far
/// and whether the current row is the header.
pub open spec fn rows_spec(cs: Seq<char>, i: int, row: Seq<Seq<char>>, header: bool) -> Seq<
    (Seq<char>, Seq<char>),
>
    decreases cs.len() + 1 - i,
{
    if i < 0 || i >= cs.len() {
        seq![]
    } else {
        let (f, j) = field_spec(cs, i);
        let row2 = row.push(f);
        if j < i {
            seq![]
        } else if 0 <= j < cs.len() && cs[j] == ',' {
            rows_spec(cs, j + 1, row2, header)
        } else {
            let k = skip_breaks(cs, j);
            let entry: Seq<(Seq<char>, Seq<char>)> = if !header && row2.len() >= 2 && row2[0].len()
                > 0 {
                seq![(row2[0], row2[1])]
            } else {
                seq![]
            };
            if k <= i || k > cs.len() + 1 {
                seq![]
            } else {
                entry + rows_spec(cs, k, seq![], false)
            }
        }
    }
}

proof fn lemma_quoted_end_bounds(cs: Seq<char>, i: int)
    requires
        0 <= i,
    ensures
        i <= quoted_end(cs, i),
        i <= cs.len() ==> quoted_end(cs, i) <= cs.len(),
        quoted_end(cs, i) < cs.len() ==> cs[quoted_end(cs, i)] == '"',
    decreases cs.len() - i,
{
    if i < cs.len() {
        if cs[i] == '"' {
            if i + 1 < cs.len() && cs[i + 1] == '"' {
                lemma_quoted_end_bounds(cs, i + 2);
            }
        } else {
            lemma_quoted_end_bounds(cs, i + 1);
        }
    }
}

proof fn lemma_plain_end_bounds(cs: Seq<char>, i: int)
    requires
        0 <= i <= cs.len(),
    ensures
        i <= plain_end(cs, i) <= cs.len(),
        plain_end(cs, i) < cs.len() ==> (cs[plain_end(cs, i)] == ',' || cs[plain_end(cs, i)]
            == '\n' || cs[plain_end(cs, i)] == '\r'),
    decreases cs.len() - i,
{
    if i < cs.len() && !(cs[i] == ',' || cs[i] == '\n' || cs[i] == '\r') {
        lemma_plain_end_bounds(cs, i + 1);
    }
}

proof fn lemma_skip_breaks_bounds(cs: Seq<char>, i: int)
    requires
        0 <= i,
    ensures
        i <= skip_breaks(cs, i),
        i <= cs.len() ==> skip_breaks(cs, i) <= cs.len(),
        0 <= i < cs.len() && (cs[i] == '\r' || cs[i] == '\n') ==> i < skip_breaks(cs, i),
    decreases cs.len() - i,
{
    if 0 <= i < cs.len() && (cs[i] == '\r' || cs[i] == '\n') {
        lemma_skip_breaks_bounds(cs, i + 1);
    }
}

fn quoted_end_exec(cs: &Vec<char>, start: usize) -> (e: usize)
    requires
        start <= cs@.len(),
    ensures
        e as int == quoted_end(cs@, start as int),
        start <= e <= cs@.len(),
{
    proof {
        lemma_quoted_end_bounds(cs@, start as int);
    }
    let n = cs.len();
    let mut e = start;
    while e < n
        invariant
            start <= e <= n,
            n == cs@.len(),
            quoted_end(cs@, e as int) == quoted_end(cs@, start as int),
        decreases n - e,
    {
        if cs[e] == '"' {
            if e + 1 < n && cs[e + 1] == '"' {
                e += 2;
                continue;
            }
            return e;
        }
        e += 1;
    }
    e
}

fn plain_end_exec(cs: &Vec<char>, start: usize) -> (e: usize)
    requires
        start <= cs@.len(),
    ensures
        e as int == plain_end(cs@, start as int),
        start <= e <= cs@.len(),
{
    proof {
        lemma_plain_end_bounds(cs@, start as int);
    }
    let n = cs.len();
    let mut e = start;
    while e < n && cs[e] != ',' && cs[e] != '\n' && cs[e] != '\r'
        invariant
            start <= e <= n,
            n == cs@.len(),
            plain_end(cs@, e as int) == plain_end(cs@, start as int),
        decreases n - e,
    {
        e += 1;
    }
    e
}

/// `raw` with doubled quotes collapsed.
fn unescape_exec(cs: &Vec<char>, start: usize, stop: usize) -> (r: String)
    requires
        start <= stop <= cs@.len(),
    ensures
        r@ == unescape(cs@.subrange(start as int, stop as int)),
    decreases stop - start,
{
    let mut out = String::new();
    if start == stop {
        assert(cs@.subrange(start as int, stop as int) =~= Seq::<char>::empty());
        return out;
    }
    let raw = Ghost(cs@.subrange(start as int, stop as int));
    if stop - start >= 2 && cs[start] == '"' && cs[start + 1] == '"' {
        crate::text::string_push(&mut out, '"');
        let rest = unescape_exec(cs, start + 2, stop);
        crate::text::push_str(&mut out, rest.as_str());
        assert(raw@.subrange(2, raw@.len() as int) =~= cs@.subrange(start + 2, stop as int));
    } else {
        crate::text::string_push(&mut out, cs[start]);
        let rest = unescape_exec(cs, start + 1, stop);
        crate::text::push_str(&mut out, rest.as_str());
        assert(raw@.subrange(1, raw@.len() as int) =~= cs@.subrange(start + 1, stop as int));
    }
    out
}

/// The characters `cs[start..stop]` as a string.
fn slice_string(cs: &Vec<char>, start: usize, stop: usize) -> (r: String)
    requires
        start <= stop <= cs@.len(),
    ensures
        r@ == cs@.subrange(start as int, stop as int),
{
    let mut out = String::new();
    let mut i = start;
    while i < stop
        invariant
            start <= i <= stop,
            stop <= cs@.len(),
            out@ == cs@.subrange(start as int, i as int),
        decreases stop - i,
    {
        crate::text::string_push(&mut out, cs[i]);
        i += 1;
        assert(out@ =~= cs@.subrange(start as int, i as int));
    }
    out
}

/// Parse a `key,text` table: the entries in file order (a later entry for
/// the same key overrides an earlier one on lookup).
pub fn parse_csv(src: &str) -> (r: Vec<(String, String)>)
    requires
        src@.len() < usize::MAX,
    ensures
        r@.map_values(|e: (String, String)| (e.0@, e.1@)) == rows_spec(src@, 0, seq![], true),
{
    let cs = str_chars(src);
    let n = cs.len();
    let mut out: Vec<(String, String)> = Vec::new();
    let mut row: Vec<String> = Vec::new();
    let mut header = true;
    let mut i: usize = 0;
    assert(row@.map_values(|f: String| f@) =~= Seq::<Seq<char>>::empty());
    assert(out@.map_values(|e: (String, String)| (e.0@, e.1@)) =~= Seq::<(Seq<char>, Seq<char>)>::empty());
    assert(Seq::<(Seq<char>, Seq<char>)>::empty() + rows_spec(cs@, 0, seq![], true) =~= rows_spec(cs@, 0, seq![], true));
    while i < n
        invariant
            n == cs@.len(),
            n < usize::MAX,
            cs@ == src@,
            0 <= i <= n + 1,
            i > n ==> rows_spec(cs@, i as int, row@.map_values(|f: String| f@), header) == Seq::<
                (Seq<char>, Seq<char>),
            >::empty(),
            rows_spec(cs@, 0, seq![], true) == out@.map_values(|e: (String, String)| (e.0@, e.1@))
                + rows_spec(cs@, i as int, row@.map_values(|f: String| f@), header),
        decreases n + 1 - i,
    {
        let ghost rv = row@.map_values(|f: String| f@);
        let ghost before = out@.map_values(|e: (String, String)| (e.0@, e.1@));
        let field: String;
        let j: usize;
        if cs[i] == '"' {
            let e = quoted_end_exec(&cs, i + 1);
            field = unescape_exec(&cs, i + 1, e);
            j = e + 1;
        } else {
            let e = plain_end_exec(&cs, i);
            field = slice_string(&cs, i, e);
            j = e;
        }
        assert(field_spec(cs@, i as int) == (field@, j as int));
        row.push(field);
        assert(row@.map_values(|f: String| f@) =~= rv.push(field_spec(cs@, i as int).0));
        if j < n && cs[j] == ',' {
            i = j + 1;
            continue;
        }
        let mut k = j;
        while k < n && (cs[k] == '\r' || cs[k] == '\n')
            invariant
                j <= k <= n + 1,
                n == cs@.len(),
                skip_breaks(cs@, k as int) == skip_breaks(cs@, j as int),
            decreases n - k,
        {
            k += 1;
        }
        assert(skip_breaks(cs@, k as int) == k as int);
        assert(i < k) by {
            lemma_skip_breaks_bounds(cs@, j as int);
            if cs@[i as int] != '"' {
                lemma_plain_end_bounds(cs@, i as int);
            }
        }
        if !header && row.len() >= 2 && str_chars(row[0].as_str()).len() > 0 {
            let key = slice_chars_string(&row[0]);
            let value = slice_chars_string(&row[1]);
            out.push((key, value));
        }
        proof {
            let r2 = rv.push(field_spec(cs@, i as int).0);
            assert(out@.map_values(|e: (String, String)| (e.0@, e.1@)) =~= before + (if !header
                && r2.len() >= 2 && r2[0].len() > 0 {
                seq![(r2[0], r2[1])]
            } else {
                seq![]
            }));
        }
        header = false;
        row = Vec::new();
        assert(row@.map_values(|f: String| f@) =~= Seq::<Seq<char>>::empty());
        i = k;
    }
    assert(rows_spec(cs@, i as int, row@.map_values(|f: String| f@), header) == Seq::<
        (Seq<char>, Seq<char>),
    >::empty());
    assert(out@.map_values(|e: (String, String)| (e.0@, e.1@)) + Seq::<(Seq<char>, Seq<char>)>::empty()
        =~= out@.map_values(|e: (String, String)| (e.0@, e.1@)));
    out
}

/// A copy of a string.
fn slice_chars_string(s: &String) -> (r: String)
    ensures
        r@ == s@,
{
    s.clone()
}

/// The value of the last entry with this key.
pub fn csv_lookup(table: &Vec<(String, String)>, key: &str) -> (r: Option<String>)
    ensures
        match r {
            Some(v) => exists|i: int|
                0 <= i < table@.len() && table@[i].0@ == key@ && table@[i].1@ == v@ && forall|j: int|
                    i < j < table@.len() ==> table@[j].0@ != key@,
            None => forall|j: int| 0 <= j < table@.len() ==> table@[j].0@ != key@,
        },
{
    let mut i = table.len();
    while i > 0
        invariant
            0 <= i <= table@.len(),
            forall|j: int| i <= j < table@.len() ==> table@[j].0@ != key@,
        decreases i,
    {
        i -= 1;
        if str_equal(table[i].0.as_str(), key) {
            return Some(table[i].1.clone());
        }
    }
    None
}


/// Entry `i` is the last entry of the table with this key.
pub open spec fn last_with_key(t: Seq<(String, String)>, key: Seq<char>, i: int) -> bool {
    &&& 0 <= i < t.len()
    &&& t[i].0@ == key
    &&& forall|j: int| i < j < t.len() ==> t[j].0@ != key
}

/// The interface text for a key: English when the language is English or
/// has no table; otherwise the table's text for the key (its last entry),
/// falling back to English where that is missing or empty.
pub fn translate(english: bool, table: Option<&Vec<(String, String)>>, key: &str, en: &str) -> (r: String)
    ensures
        (english || table is None) ==> r@ == en@,
        match table {
            Some(t) => !english ==> ((exists|i: int|
                last_with_key(t@, key@, i) && t@[i].1@.len() > 0 && r@ == t@[i].1@) || ((forall|i: int|
                last_with_key(t@, key@, i) ==> t@[i].1@.len() == 0) && r@ == en@)),
            None => true,
        },
{
    if english {
        return String::from_str(en);
    }
    match table {
        None => String::from_str(en),
        Some(t) => match csv_lookup(t, key) {
            Some(v) => {
                if crate::text::str_chars(v.as_str()).len() > 0 {
                    proof {
                        let k = choose|k: int|
                            0 <= k < t@.len() && t@[k].0@ == key@ && t@[k].1@ == v@ && forall|j: int|
                                k < j < t@.len() ==> t@[j].0@ != key@;
                        assert(last_with_key(t@, key@, k));
                    }
                    v
                } else {
                    proof {
                        assert forall|i: int| last_with_key(t@, key@, i) implies t@[i].1@.len() == 0 by {
                            let k = choose|k: int|
                                0 <= k < t@.len() && t@[k].0@ == key@ && t@[k].1@ == v@ && forall|j: int|
                                    k < j < t@.len() ==> t@[j].0@ != key@;
                            if i < k {
                            } else if k < i {
                            }
                        }
                    }
                    String::from_str(en)
                }
            },
            None => {
                assert forall|i: int| last_with_key(t@, key@, i) implies t@[i].1@.len() == 0 by {
                    assert(t@[i].0@ != key@);
                }
                String::from_str(en)
            },
        },
    }
}

} // verus!
