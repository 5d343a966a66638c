//! Standard move notation: printing moves and algorithms, and parsing
//! `U U' U2 Uw u M E S x y z` with groups, repetition and inversion such as
//! `(R U R' U')2` and `(R U R' U')'`.

use vstd::prelude::*;
use crate::facelet::Face;
use crate::moves::{inverse_moves, Alg, Move, RotAxis, SliceKind, Turns};
use crate::text::{is_whitespace, push_str, string_push, str_chars, white_space};

verus! {

/// Notation suffix of a turn amount.
pub open spec fn suffix_chars(t: Turns) -> Seq<char> {
    match t {
        Turns::Cw => seq![],
        Turns::Half => seq!['2'],
        Turns::Ccw => seq!['\''],
    }
}

impl Turns {
    /// Notation suffix: nothing, `2` or `'`.
    pub fn suffix(self) -> (r: &'static str)
        ensures
            r@ == suffix_chars(self),
    {
        proof {
            reveal_strlit("");
            reveal_strlit("2");
            reveal_strlit("'");
        }
        match self {
            Turns::Cw => "",
            Turns::Half => "2",
            Turns::Ccw => "'",
        }
    }
}

/// Notation of a single move, e.g. `R`, `Rw'`, `M2`, `y'`.
pub open spec fn move_chars(m: Move) -> Seq<char> {
    match m {
        Move::Face(f, t) => seq![f.letter_spec()] + suffix_chars(t),
        Move::Wide(f, t) => seq![f.letter_spec(), 'w'] + suffix_chars(t),
        Move::Slice(s, t) => seq![
            match s {
                SliceKind::M => 'M',
                SliceKind::E => 'E',
                SliceKind::S => 'S',
            },
        ] + suffix_chars(t),
        Move::Rot(a, t) => seq![
            match a {
                RotAxis::X => 'x',
                RotAxis::Y => 'y',
                RotAxis::Z => 'z',
            },
        ] + suffix_chars(t),
    }
}

/// Notation of a move sequence: the moves separated by single spaces.
pub open spec fn alg_chars(ms: Seq<Move>) -> Seq<char>
    decreases ms.len(),
{
    if ms.len() == 0 {
        seq![]
    } else if ms.len() == 1 {
        move_chars(ms[0])
    } else {
        move_chars(ms[0]) + seq![' '] + alg_chars(ms.drop_first())
    }
}

impl Move {
    /// The move in standard notation.
    pub fn to_string(&self) -> (r: String)
        ensures
            r@ == move_chars(*self),
    {
        let mut out = String::new();
        let t = match *self {
            Move::Face(f, t) => {
                string_push(&mut out, f.letter());
                t
            },
            Move::Wide(f, t) => {
                string_push(&mut out, f.letter());
                string_push(&mut out, 'w');
                t
            },
            Move::Slice(s, t) => {
                string_push(
                    &mut out,
                    match s {
                        SliceKind::M => 'M',
                        SliceKind::E => 'E',
                        SliceKind::S => 'S',
                    },
                );
                t
            },
            Move::Rot(a, t) => {
                string_push(
                    &mut out,
                    match a {
                        RotAxis::X => 'x',
                        RotAxis::Y => 'y',
                        RotAxis::Z => 'z',
                    },
                );
                t
            },
        };
        push_str(&mut out, t.suffix());
        assert(out@ =~= move_chars(*self));
        out
    }
}

impl Alg {
    /// The algorithm in standard notation, moves separated by spaces.
    pub fn to_string(&self) -> (r: String)
        ensures
            r@ == alg_chars(self@),
    {
        let mut out = String::new();
        let n = self.0.len();
        let mut k: usize = n;
        let ghost ms = self@;
        // Built back to front: `out` holds the notation of the last moves.
        let mut parts: Vec<String> = Vec::new();
        let mut i: usize = 0;
        while i < n
            invariant
                0 <= i <= n,
                n == ms.len(),
                ms == self@,
                parts@.len() == i,
                forall|j: int| 0 <= j < i ==> (#[trigger] parts@[j])@ == move_chars(ms[j]),
            decreases n - i,
        {
            parts.push(self.0[i].to_string());
            i += 1;
        }
        while k > 0
            invariant
                0 <= k <= n,
                n == ms.len(),
                parts@.len() == n,
                forall|j: int| 0 <= j < n ==> (#[trigger] parts@[j])@ == move_chars(ms[j]),
                out@ == alg_chars(ms.subrange(k as int, n as int)),
            decreases k,
        {
            k -= 1;
            let mut piece = String::new();
            push_str(&mut piece, parts[k].as_str());
            let ghost tail = ms.subrange(k as int + 1, n as int);
            assert(ms.subrange(k as int, n as int).drop_first() =~= tail);
            if k + 1 < n {
                string_push(&mut piece, ' ');
            }
            push_str(&mut piece, out.as_str());
            proof {
                let sub = ms.subrange(k as int, n as int);
                assert(sub[0] == ms[k as int]);
                if k + 1 < n {
                    assert(piece@ =~= move_chars(sub[0]) + seq![' '] + alg_chars(sub.drop_first()));
                } else {
                    assert(sub.len() == 1);
                    assert(piece@ =~= move_chars(sub[0]));
                }
            }
            out = piece;
        }
        assert(ms.subrange(0, n as int) =~= ms);
        out
    }
}

/// An inversion mark: apostrophe, right single quote, backtick or prime.
pub open spec fn is_prime_spec(c: char) -> bool {
    c == '\'' || c == '\u{2019}' || c == '`' || c == '\u{2032}'
}

fn is_prime(c: char) -> (b: bool)
    ensures
        b == is_prime_spec(c),
{
    c == '\'' || c == '\u{2019}' || c == '`' || c == '\u{2032}'
}

/// The face a move letter names (upper case, or lower case for wide).
pub open spec fn face_letter(c: char) -> Option<Face> {
    if c == 'U' || c == 'u' {
        Some(Face::U)
    } else if c == 'R' || c == 'r' {
        Some(Face::R)
    } else if c == 'F' || c == 'f' {
        Some(Face::F)
    } else if c == 'D' || c == 'd' {
        Some(Face::D)
    } else if c == 'L' || c == 'l' {
        Some(Face::L)
    } else if c == 'B' || c == 'b' {
        Some(Face::B)
    } else {
        None
    }
}

fn face_letter_exec(c: char) -> (r: Option<Face>)
    ensures
        r == face_letter(c),
{
    if c == 'U' || c == 'u' {
        Some(Face::U)
    } else if c == 'R' || c == 'r' {
        Some(Face::R)
    } else if c == 'F' || c == 'f' {
        Some(Face::F)
    } else if c == 'D' || c == 'd' {
        Some(Face::D)
    } else if c == 'L' || c == 'l' {
        Some(Face::L)
    } else if c == 'B' || c == 'b' {
        Some(Face::B)
    } else {
        None
    }
}

pub open spec fn is_lower(c: char) -> bool {
    'a' <= c <= 'z'
}

/// Turn suffix at `j`: `2` (optionally followed by a prime, still a half
/// turn), a prime (optionally followed by `2`, a half turn), or `3`; the
/// turn and the position after it.
pub open spec fn suffix_spec(cs: Seq<char>, j: int) -> (Turns, int) {
    let n = cs.len() as int;
    if j < n && cs[j] == '2' {
        if j + 1 < n && is_prime_spec(cs[j + 1]) {
            (Turns::Half, j + 2)
        } else {
            (Turns::Half, j + 1)
        }
    } else if j < n && is_prime_spec(cs[j]) {
        if j + 1 < n && cs[j + 1] == '2' {
            (Turns::Half, j + 2)
        } else {
            (Turns::Ccw, j + 1)
        }
    } else if j < n && cs[j] == '3' {
        (Turns::Ccw, j + 1)
    } else {
        (Turns::Cw, j)
    }
}

/// Error text of an unknown move letter.
pub open spec fn unknown_move_msg(c: char) -> Seq<char> {
    "unknown move '"@ + seq![c] + "'"@
}

/// The base (clockwise) move of the letter at `i` and the position after it.
pub open spec fn base_spec(cs: Seq<char>, i: int) -> Option<(Move, int)> {
    let c = cs[i];
    let j = i + 1;
    match face_letter(c) {
        Some(f) => if is_lower(c) {
            Some((Move::Wide(f, Turns::Cw), j))
        } else if j < cs.len() && cs[j] == 'w' {
            Some((Move::Wide(f, Turns::Cw), j + 1))
        } else {
            Some((Move::Face(f, Turns::Cw), j))
        },
        None => if c == 'M' {
            Some((Move::Slice(SliceKind::M, Turns::Cw), j))
        } else if c == 'E' {
            Some((Move::Slice(SliceKind::E, Turns::Cw), j))
        } else if c == 'S' {
            Some((Move::Slice(SliceKind::S, Turns::Cw), j))
        } else if c == 'x' {
            Some((Move::Rot(RotAxis::X, Turns::Cw), j))
        } else if c == 'y' {
            Some((Move::Rot(RotAxis::Y, Turns::Cw), j))
        } else if c == 'z' {
            Some((Move::Rot(RotAxis::Z, Turns::Cw), j))
        } else {
            None
        },
    }
}

/// One move at position `i`: the move and the position after it, or the
/// error position and message.
pub open spec fn parse_move_spec(cs: Seq<char>, i: int) -> Result<(Move, int), (int, Seq<char>)> {
    match base_spec(cs, i) {
        Some((m, j)) => {
            let (t, k) = suffix_spec(cs, j);
            Ok((Move::with_turns(m, t), k))
        },
        None => Err((i, unknown_move_msg(cs[i]))),
    }
}

/// The first position at or after `i` that is not whitespace.
pub open spec fn skip_ws(cs: Seq<char>, i: int) -> int
    decreases cs.len() - i,
{
    if 0 <= i < cs.len() && white_space(cs[i]) {
        skip_ws(cs, i + 1)
    } else {
        i
    }
}

/// `unit` repeated `n` times.
pub open spec fn repeat_moves(unit: Seq<Move>, n: nat) -> Seq<Move>
    decreases n,
{
    if n == 0 {
        seq![]
    } else {
        repeat_moves(unit, (n - 1) as nat) + unit
    }
}

/// `out` in front of a parse result.
pub open spec fn prepend(
    out: Seq<Move>,
    r: Result<(Seq<Move>, int), (int, Seq<char>)>,
) -> Result<(Seq<Move>, int), (int, Seq<char>)> {
    match r {
        Ok((rest, e)) => Ok((out + rest, e)),
        Err(e) => Err(e),
    }
}

pub open spec fn digit_value(c: char) -> int {
    c as int - '0' as int
}

pub open spec fn is_digit(c: char) -> bool {
    '0' <= c <= '9'
}

/// A move sequence from position `i` at group nesting `depth`: it ends at
/// the end of the input or at a `)` (an error at depth 0). A group is
/// `( ... )`, optionally followed by one repetition digit (1..9) and
/// optionally by an inversion mark.
pub open spec fn parse_seq_spec(cs: Seq<char>, i: int, depth: int) -> Result<
    (Seq<Move>, int),
    (int, Seq<char>),
>
    decreases cs.len() - i,
{
    let n = cs.len() as int;
    let i1 = skip_ws(cs, i);
    if i < 0 || i1 < i || i1 > n {
        Err((i, seq![]))
    } else if i1 >= n {
        Ok((seq![], i1))
    } else if cs[i1] == ')' {
        if depth == 0 {
            Err((i1, "unmatched ')'"@))
        } else {
            Ok((seq![], i1))
        }
    } else if cs[i1] == '(' {
        match parse_seq_spec(cs, i1 + 1, depth + 1) {
            Err(e) => Err(e),
            Ok((inner, j)) => if j >= n || j < 0 || cs[j] != ')' {
                Err((j, "expected ')'"@))
            } else {
                let j1 = j + 1;
                if j1 < n && is_digit(cs[j1]) && digit_value(cs[j1]) == 0 {
                    Err((j1, "repetition count must be >= 1"@))
                } else {
                    let (reps, j2) = if j1 < n && is_digit(cs[j1]) {
                        (digit_value(cs[j1]), j1 + 1)
                    } else {
                        (1, j1)
                    };
                    let (inv, j3) = if j2 < n && is_prime_spec(cs[j2]) {
                        (true, j2 + 1)
                    } else {
                        (false, j2)
                    };
                    let unit = if inv {
                        inverse_moves(inner)
                    } else {
                        inner
                    };
                    if j3 <= i || j3 > n {
                        Err((j3, seq![]))
                    } else {
                        prepend(repeat_moves(unit, reps as nat), parse_seq_spec(cs, j3, depth))
                    }
                }
            },
        }
    } else {
        match parse_move_spec(cs, i1) {
            Err(e) => Err(e),
            Ok((m, j)) => if j <= i || j > n {
                Err((j, seq![]))
            } else {
                prepend(seq![m], parse_seq_spec(cs, j, depth))
            },
        }
    }
}

/// Parse result of a whole string: the moves, or the error position and
/// message (an unconsumed `)` at the top level is unmatched).
pub open spec fn parse_spec(cs: Seq<char>) -> Result<Seq<Move>, (int, Seq<char>)> {
    match parse_seq_spec(cs, 0, 0) {
        Ok((ms, e)) => if e < cs.len() {
            Err((e, "unexpected '"@ + seq![cs[e]] + "'"@))
        } else {
            Ok(ms)
        },
        Err(e) => Err(e),
    }
}

/// A notation error: the character position and a description.
#[derive(Clone, PartialEq, Eq, Debug)]
pub struct ParseError {
    pub position: usize,
    pub message: String,
}

impl ParseError {
    /// Human-readable description of the error.
    pub fn to_string(&self) -> (r: String)
        ensures
            r@ == "parse error at char "@ + crate::text::decimal(self.position as nat) + ": "@
                + self.message@,
    {
        let mut out = String::new();
        push_str(&mut out, "parse error at char ");
        crate::text::push_decimal(&mut out, self.position as u64);
        push_str(&mut out, ": ");
        push_str(&mut out, self.message.as_str());
        out
    }
}

/// The parse error for an error position and message.
pub open spec fn matches_error(e: ParseError, spec: (int, Seq<char>)) -> bool {
    e.position as int == spec.0 && e.message@ == spec.1
}

fn error(position: usize, message: &str) -> (e: ParseError)
    ensures
        e.position == position,
        e.message@ == message@,
{
    ParseError { position, message: message.to_owned() }
}

fn parse_move(chars: &Vec<char>, i: usize) -> (r: Result<(Move, usize), ParseError>)
    requires
        i < chars@.len(),
    ensures
        match r {
            Ok((m, j)) => parse_move_spec(chars@, i as int) == Ok::<(Move, int), (int, Seq<char>)>(
                (m, j as int),
            ) && i < j <= chars@.len(),
            Err(e) => parse_move_spec(chars@, i as int) matches Err(x) && matches_error(e, x),
        },
{
    let n = chars.len();
    let c = chars[i];
    let mut j = i + 1;
    let base = match face_letter_exec(c) {
        Some(f) => {
            if 'a' <= c && c <= 'z' {
                Move::Wide(f, Turns::Cw)
            } else if j < n && chars[j] == 'w' {
                j += 1;
                Move::Wide(f, Turns::Cw)
            } else {
                Move::Face(f, Turns::Cw)
            }
        },
        None => {
            if c == 'M' {
                Move::Slice(SliceKind::M, Turns::Cw)
            } else if c == 'E' {
                Move::Slice(SliceKind::E, Turns::Cw)
            } else if c == 'S' {
                Move::Slice(SliceKind::S, Turns::Cw)
            } else if c == 'x' {
                Move::Rot(RotAxis::X, Turns::Cw)
            } else if c == 'y' {
                Move::Rot(RotAxis::Y, Turns::Cw)
            } else if c == 'z' {
                Move::Rot(RotAxis::Z, Turns::Cw)
            } else {
                let mut message = String::new();
                push_str(&mut message, "unknown move '");
                string_push(&mut message, c);
                push_str(&mut message, "'");
                assert(message@ =~= unknown_move_msg(c));
                return Err(ParseError { position: i, message });
            }
        },
    };
    assert(base_spec(chars@, i as int) == Some((base, j as int)));
    let mut turns = Turns::Cw;
    if j < n && chars[j] == '2' {
        j += 1;
        turns = Turns::Half;
        if j < n && is_prime(chars[j]) {
            j += 1;
        }
    } else if j < n && is_prime(chars[j]) {
        j += 1;
        turns = Turns::Ccw;
        if j < n && chars[j] == '2' {
            j += 1;
            turns = Turns::Half;
        }
    } else if j < n && chars[j] == '3' {
        j += 1;
        turns = Turns::Ccw;
    }
    let m = match base {
        Move::Face(f, _) => Move::Face(f, turns),
        Move::Wide(f, _) => Move::Wide(f, turns),
        Move::Slice(s, _) => Move::Slice(s, turns),
        Move::Rot(a, _) => Move::Rot(a, turns),
    };
    Ok((m, j))
}

proof fn lemma_repeat_step(unit: Seq<Move>, r: nat)
    ensures
        repeat_moves(unit, r + 1) == repeat_moves(unit, r) + unit,
{
}

fn parse_seq(chars: &Vec<char>, i0: usize, depth: usize) -> (r: Result<(Vec<Move>, usize), ParseError>)
    requires
        i0 <= chars@.len(),
        depth <= i0,
    ensures
        match r {
            Ok((ms, e)) => parse_seq_spec(chars@, i0 as int, depth as int) == Ok::<
                (Seq<Move>, int),
                (int, Seq<char>),
            >((ms@, e as int)) && i0 <= e <= chars@.len(),
            Err(err) => parse_seq_spec(chars@, i0 as int, depth as int) matches Err(x)
                && matches_error(err, x),
        },
    decreases chars@.len() - i0,
{
    let n = chars.len();
    let ghost cs = chars@;
    let mut out: Vec<Move> = Vec::new();
    let mut i = i0;
    loop
        invariant
            n == cs.len(),
            cs == chars@,
            i0 <= i <= n,
            depth <= i0,
            parse_seq_spec(cs, i0 as int, depth as int) == prepend(
                out@,
                parse_seq_spec(cs, i as int, depth as int),
            ),
        decreases n - i,
    {
        let ghost start = i;
        while i < n && is_whitespace(chars[i])
            invariant
                start <= i <= n,
                n == cs.len(),
                cs == chars@,
                skip_ws(cs, start as int) == skip_ws(cs, i as int),
            decreases n - i,
        {
            i += 1;
        }
        assert(skip_ws(cs, i as int) == i as int);
        let ghost i1 = i;
        if i >= n {
            assert(parse_seq_spec(cs, start as int, depth as int) == Ok::<
                (Seq<Move>, int),
                (int, Seq<char>),
            >((seq![], i as int)));
            assert(out@ + seq![] =~= out@);
            return Ok((out, i));
        }
        let c = chars[i];
        if c == ')' {
            if depth == 0 {
                return Err(error(i, "unmatched ')'"));
            }
            assert(out@ + seq![] =~= out@);
            return Ok((out, i));
        }
        if c == '(' {
            let (inner, j) = match parse_seq(chars, i + 1, depth + 1) {
                Ok(x) => x,
                Err(e) => {
                    return Err(e);
                },
            };
            if j >= n || chars[j] != ')' {
                return Err(error(j, "expected ')'"));
            }
            let mut k = j + 1;
            let mut reps: usize = 1;
            if k < n && '0' <= chars[k] && chars[k] <= '9' {
                reps = ((chars[k] as u32) - ('0' as u32)) as usize;
                if reps == 0 {
                    return Err(error(k, "repetition count must be >= 1"));
                }
                k += 1;
            }
            let inverted = if k < n && is_prime(chars[k]) {
                k += 1;
                true
            } else {
                false
            };
            let unit = if inverted {
                Alg(inner).inverse().0
            } else {
                inner
            };
            let ghost before = out@;
            let mut r: usize = 0;
            while r < reps
                invariant
                    0 <= r <= reps,
                    out@ == before + repeat_moves(unit@, r as nat),
                decreases reps - r,
            {
                let mut t: usize = 0;
                let ghost mid = out@;
                while t < unit.len()
                    invariant
                        0 <= t <= unit@.len(),
                        out@ == mid + unit@.subrange(0, t as int),
                    decreases unit@.len() - t,
                {
                    out.push(unit[t]);
                    t += 1;
                    assert(out@ =~= mid + unit@.subrange(0, t as int));
                }
                assert(unit@.subrange(0, unit@.len() as int) =~= unit@);
                proof {
                    lemma_repeat_step(unit@, r as nat);
                    assert(out@ =~= before + repeat_moves(unit@, (r + 1) as nat));
                }
                r += 1;
            }
            proof {
                let rest = parse_seq_spec(cs, k as int, depth as int);
                assert(parse_seq_spec(cs, start as int, depth as int) == prepend(
                    repeat_moves(unit@, reps as nat),
                    rest,
                ));
                match rest {
                    Ok((rs, e)) => {
                        assert(before + (repeat_moves(unit@, reps as nat) + rs) =~= out@ + rs);
                    },
                    Err(_) => {},
                }
            }
            i = k;
            continue;
        }
        match parse_move(chars, i) {
            Ok((m, j)) => {
                let ghost before = out@;
                out.push(m);
                proof {
                    let rest = parse_seq_spec(cs, j as int, depth as int);
                    match rest {
                        Ok((rs, e)) => {
                            assert(before + (seq![m] + rs) =~= out@ + rs);
                        },
                        Err(_) => {},
                    }
                }
                i = j;
            },
            Err(e) => {
                return Err(e);
            },
        }
    }
}

impl Alg {
    /// Parse standard notation: `U U' U2 Uw u M E S x y z`, with groups and
    /// repetition/inversion: `(R U R' U')2`, `(R U R' U')'`.
    pub fn parse(s: &str) -> (r: Result<Alg, ParseError>)
        ensures
            match r {
                Ok(a) => parse_spec(s@) == Ok::<Seq<Move>, (int, Seq<char>)>(a@),
                Err(e) => parse_spec(s@) matches Err(x) && matches_error(e, x),
            },
    {
        let chars = str_chars(s);
        let (moves, i) = match parse_seq(&chars, 0, 0) {
            Ok(x) => x,
            Err(e) => {
                return Err(e);
            },
        };
        if i < chars.len() {
            let mut message = String::new();
            push_str(&mut message, "unexpected '");
            string_push(&mut message, chars[i]);
            push_str(&mut message, "'");
            assert(message@ =~= "unexpected '"@ + seq![chars@[i as int]] + "'"@);
            return Err(ParseError { position: i, message });
        }
        Ok(Alg(moves))
    }
}

proof fn lemma_letter_parses(f: Face)
    ensures
        face_letter(f.letter_spec()) == Some(f),
        !is_lower(f.letter_spec()),
        !white_space(f.letter_spec()),
{
}

/// A move's notation followed by a space or the end of the input parses
/// back to the move.
proof fn lemma_move_round_trip(cs: Seq<char>, i: int, m: Move)
    requires
        0 <= i,
        i + move_chars(m).len() <= cs.len(),
        cs.subrange(i, i + move_chars(m).len()) == move_chars(m),
        i + move_chars(m).len() == cs.len() || cs[i + move_chars(m).len()] == ' ',
    ensures
        parse_move_spec(cs, i) == Ok::<(Move, int), (int, Seq<char>)>(
            (m, i + move_chars(m).len()),
        ),
        !white_space(cs[i]),
        cs[i] != '(' && cs[i] != ')',
{
    let mc = move_chars(m);
    let e = i + mc.len();
    assert forall|k: int| 0 <= k < mc.len() implies cs[i + k] == #[trigger] mc[k] by {
        assert(cs.subrange(i, e)[k] == cs[i + k]);
    }
    let first = mc[0];
    assert(cs[i] == first) by {
        assert(cs[i + 0] == mc[0]);
    }
    let (body, t) = match m {
        Move::Face(f, t) => (1int, t),
        Move::Wide(f, t) => (2int, t),
        Move::Slice(_, t) => (1int, t),
        Move::Rot(_, t) => (1int, t),
    };
    assert(mc =~= mc.subrange(0, body) + suffix_chars(t));
    let sl = suffix_chars(t).len() as int;
    let j = i + body;
    assert(e == j + sl);
    match t {
        Turns::Cw => {},
        Turns::Half => {
            assert(cs[j] == '2') by {
                assert(cs[i + body] == mc[body]);
            }
        },
        Turns::Ccw => {
            assert(cs[j] == '\'') by {
                assert(cs[i + body] == mc[body]);
            }
        },
    }
    assert(suffix_spec(cs, j) == (t, e));
    match m {
        Move::Face(f, _) => {
            lemma_letter_parses(f);
            assert(first == f.letter_spec());
            if j < cs.len() {
                assert(cs[j] != 'w');
            }
        },
        Move::Wide(f, _) => {
            lemma_letter_parses(f);
            assert(first == f.letter_spec());
            assert(cs[i + 1] == 'w') by {
                assert(cs[i + 1] == mc[1]);
            }
        },
        _ => {},
    }
}

proof fn lemma_seq_round_trip(cs: Seq<char>, p: int, i: int, ms: Seq<Move>)
    requires
        0 <= p <= i <= cs.len(),
        skip_ws(cs, p) == i,
        cs.subrange(i, cs.len() as int) == alg_chars(ms),
    ensures
        parse_seq_spec(cs, p, 0) == Ok::<(Seq<Move>, int), (int, Seq<char>)>((ms, cs.len() as int)),
    decreases ms.len(),
{
    let n = cs.len() as int;
    if ms.len() == 0 {
        assert(i == n);
        assert(parse_seq_spec(cs, p, 0) == Ok::<(Seq<Move>, int), (int, Seq<char>)>(
            (seq![], n),
        ));
        assert(ms =~= seq![]);
    } else {
        let m = ms[0];
        let mc = move_chars(m);
        let e = i + mc.len();
        let tail = cs.subrange(i, n);
        if ms.len() == 1 {
            assert(tail == mc);
            assert(e == n);
            assert(cs.subrange(i, e) =~= mc);
        } else {
            assert(tail == mc + seq![' '] + alg_chars(ms.drop_first()));
            assert(cs.subrange(i, e) =~= mc) by {
                assert forall|k: int| 0 <= k < mc.len() implies cs.subrange(i, e)[k] == mc[k] by {
                    assert(tail[k] == cs[i + k]);
                }
            }
            assert(cs[e] == ' ') by {
                assert(tail[mc.len() as int] == cs[e]);
            }
        }
        lemma_move_round_trip(cs, i, m);
        assert(parse_move_spec(cs, i) == Ok::<(Move, int), (int, Seq<char>)>((m, e)));
        if ms.len() == 1 {
            assert(skip_ws(cs, e) == e);
            assert(parse_seq_spec(cs, e, 0) == Ok::<(Seq<Move>, int), (int, Seq<char>)>(
                (seq![], n),
            ));
            assert(seq![m] + seq![] =~= ms);
        } else {
            let rest = ms.drop_first();
            assert(cs.subrange(e + 1, n) =~= alg_chars(rest)) by {
                assert forall|k: int| 0 <= k < n - (e + 1) implies cs.subrange(e + 1, n)[k]
                    == alg_chars(rest)[k] by {
                    assert(tail[mc.len() + 1 + k] == cs[e + 1 + k]);
                }
            }
            assert(white_space(cs[e]));
            if e + 1 < n {
                assert(skip_ws(cs, e + 1) == e + 1) by {
                    if rest.len() > 0 {
                        lemma_first_char_not_ws(cs, e + 1, rest);
                    }
                }
            }
            assert(skip_ws(cs, e) == e + 1);
            lemma_seq_round_trip(cs, e, e + 1, rest);
            assert(seq![m] + rest =~= ms);
        }
    }
}

proof fn lemma_first_char_not_ws(cs: Seq<char>, i: int, ms: Seq<Move>)
    requires
        0 <= i < cs.len(),
        ms.len() > 0,
        cs.subrange(i, cs.len() as int) == alg_chars(ms),
    ensures
        !white_space(cs[i]),
{
    let m = ms[0];
    let tail = cs.subrange(i, cs.len() as int);
    if ms.len() == 1 {
        assert(tail == move_chars(m));
    } else {
        assert(tail == move_chars(m) + seq![' '] + alg_chars(ms.drop_first()));
    }
    assert(tail[0] == cs[i]);
    match m {
        Move::Face(f, t) => {
            lemma_letter_parses(f);
        },
        Move::Wide(f, t) => {
            lemma_letter_parses(f);
        },
        _ => {},
    }
}

/// Printing an algorithm and parsing the text gives the algorithm back.
pub proof fn lemma_print_parse_round_trip(ms: Seq<Move>)
    ensures
        parse_spec(alg_chars(ms)) == Ok::<Seq<Move>, (int, Seq<char>)>(ms),
{
    let cs = alg_chars(ms);
    assert(cs.subrange(0, cs.len() as int) =~= cs);
    if ms.len() > 0 && cs.len() > 0 {
        lemma_first_char_not_ws(cs, 0, ms);
    }
    if ms.len() > 0 {
        assert(cs.len() > 0) by {
            let m = ms[0];
            if ms.len() == 1 {
            } else {
            }
            assert(move_chars(m).len() > 0);
        }
    }
    lemma_seq_round_trip(cs, 0, 0, ms);
}

} // verus!
