//! Small text helpers the renderer is built on: splitting text into lines,
//! repeating a glyph, and writing a number in decimal.

use vstd::prelude::*;
use vstd::string::*;

verus! {

/// Splits at every newline, keeping every piece: `n` newlines give `n + 1`
/// pieces, so a trailing newline ends with an empty piece.
pub open spec fn split_nl(s: Seq<char>) -> Seq<Seq<char>>
    decreases s.len(),
{
    if s.len() == 0 {
        seq![Seq::<char>::empty()]
    } else if s[0] == '\n' {
        seq![Seq::<char>::empty()] + split_nl(s.drop_first())
    } else {
        let rest = split_nl(s.drop_first());
        seq![seq![s[0]] + rest[0]] + rest.drop_first()
    }
}

/// A split has at least one piece.
pub proof fn lemma_split_nl_len(s: Seq<char>)
    ensures
        split_nl(s).len() >= 1,
    decreases s.len(),
{
    if s.len() != 0 {
        lemma_split_nl_len(s.drop_first());
    }
}

/// Drops one trailing carriage return, as line splitting does for `\r\n`
/// line endings.
pub open spec fn strip_cr(l: Seq<char>) -> Seq<char> {
    if l.len() > 0 && l.last() == '\r' {
        l.drop_last()
    } else {
        l
    }
}

/// The lines of a text: pieces between newlines, where a final newline is a
/// terminator rather than a separator (so it adds no empty final line), and
/// each line loses one trailing carriage return.  The empty text has no
/// lines.  Lines are measured and addressed in characters throughout.
pub open spec fn spec_lines(s: Seq<char>) -> Seq<Seq<char>> {
    let ps = split_nl(s);
    let qs = if ps.last().len() == 0 {
        ps.drop_last()
    } else {
        ps
    };
    qs.map_values(|l: Seq<char>| strip_cr(l))
}

/// Prepends `p` to the first piece of a non-empty piece list; the shape the
/// splitting loop's invariant is written in.
pub open spec fn cons_piece(p: Seq<char>, ps: Seq<Seq<char>>) -> Seq<Seq<char>> {
    seq![p + ps[0]] + ps.drop_first()
}

/// Prepending nothing changes nothing.
proof fn lemma_cons_piece_empty(ps: Seq<Seq<char>>)
    requires
        ps.len() >= 1,
    ensures
        cons_piece(Seq::empty(), ps) == ps,
{
    assert(cons_piece(Seq::empty(), ps) =~~= ps);
}

/// Computes the lines of a text, as `spec_lines` describes them.
#[verifier::loop_isolation(false)]
pub fn split_lines(s: &str) -> (r: Vec<String>)
    ensures
        r.deep_view() == spec_lines(s@),
{
    let n: usize = s.unicode_len();
    let mut pieces: Vec<String> = Vec::new();
    let mut start: usize = 0;
    proof {
        lemma_split_nl_len(s@);
        lemma_cons_piece_empty(split_nl(s@));
        assert(s@.skip(0) =~= s@);
    }
    for i in 0..n
        invariant
            start <= i <= n,
            n == s@.len(),
            pieces.deep_view() + cons_piece(s@.subrange(start as int, i as int), split_nl(s@.skip(i as int)))
                =~~= split_nl(s@),
    {
        proof {
            assert(s@.skip(i as int).drop_first() =~= s@.skip(i + 1));
            lemma_split_nl_len(s@.skip(i + 1));
        }
        if s.get_char(i) == '\n' {
            let piece = String::from_str(s.substring_char(start, i));
            pieces.push(piece);
            start = i + 1;
            proof {
                assert(s@.subrange(start as int, i + 1) =~= Seq::<char>::empty());
                assert(pieces.deep_view() + cons_piece(
                    s@.subrange(start as int, i + 1),
                    split_nl(s@.skip(i + 1)),
                ) =~~= split_nl(s@));
            }
        } else {
            proof {
                assert(s@.subrange(start as int, i as int) + seq![s@[i as int]] =~= s@.subrange(
                    start as int,
                    i + 1,
                ));
                assert(pieces.deep_view() + cons_piece(
                    s@.subrange(start as int, i + 1),
                    split_nl(s@.skip(i + 1)),
                ) =~~= split_nl(s@));
            }
        }
    }
    let last = String::from_str(s.substring_char(start, n));
    pieces.push(last);
    proof {
        assert(s@.skip(n as int) =~= Seq::<char>::empty());
        assert(pieces.deep_view() =~~= split_nl(s@));
    }
    if pieces[pieces.len() - 1].as_str().is_empty() {
        pieces.pop();
    }
    let ghost qs = pieces.deep_view();
    let mut out: Vec<String> = Vec::new();
    for j in 0..pieces.len()
        invariant
            qs == pieces.deep_view(),
            out.deep_view() =~~= qs.map_values(|l: Seq<char>| strip_cr(l)).take(j as int),
    {
        let piece = &pieces[j];
        let len: usize = piece.as_str().unicode_len();
        if len > 0 && piece.as_str().get_char(len - 1) == '\r' {
            let stripped = String::from_str(piece.as_str().substring_char(0, len - 1));
            proof {
                assert(piece@.subrange(0, len - 1) =~= piece@.drop_last());
            }
            out.push(stripped);
        } else {
            let copy = piece.clone();
            out.push(copy);
        }
        proof {
            assert(out.deep_view() =~~= qs.map_values(|l: Seq<char>| strip_cr(l)).take(j + 1));
        }
    }
    proof {
        assert(out.deep_view() =~~= spec_lines(s@));
    }
    out
}

/// `unit` written `n` times in a row.
pub open spec fn spec_repeat(unit: Seq<char>, n: nat) -> Seq<char>
    decreases n,
{
    if n == 0 {
        Seq::empty()
    } else {
        spec_repeat(unit, (n - 1) as nat) + unit
    }
}

/// Builds `unit` repeated `n` times.
#[verifier::loop_isolation(false)]
pub fn repeat_str(unit: &str, n: usize) -> (r: String)
    ensures
        r@ == spec_repeat(unit@, n as nat),
{
    let mut out = String::new();
    proof {
        assert(out@ =~= spec_repeat(unit@, 0));
    }
    for i in 0..n
        invariant
            out@ == spec_repeat(unit@, i as nat),
    {
        out.append(unit);
    }
    out
}

/// The character for one decimal digit.
pub open spec fn digit_char(d: nat) -> char {
    if d == 0 {
        '0'
    } else if d == 1 {
        '1'
    } else if d == 2 {
        '2'
    } else if d == 3 {
        '3'
    } else if d == 4 {
        '4'
    } else if d == 5 {
        '5'
    } else if d == 6 {
        '6'
    } else if d == 7 {
        '7'
    } else if d == 8 {
        '8'
    } else {
        '9'
    }
}

/// `n` written in decimal, most significant digit first, no sign and no
/// leading zeros (a single zero for 0).
pub open spec fn spec_decimal(n: nat) -> Seq<char>
    decreases n,
{
    if n < 10 {
        seq![digit_char(n)]
    } else {
        spec_decimal(n / 10) + seq![digit_char(n % 10)]
    }
}

/// One decimal digit as text.
fn digit_str(d: u64) -> (r: &'static str)
    requires
        d < 10,
    ensures
        r@ == seq![digit_char(d as nat)],
{
    proof {
        reveal_strlit("0");
        reveal_strlit("1");
        reveal_strlit("2");
        reveal_strlit("3");
        reveal_strlit("4");
        reveal_strlit("5");
        reveal_strlit("6");
        reveal_strlit("7");
        reveal_strlit("8");
        reveal_strlit("9");
    }
    match d {
        0 => "0",
        1 => "1",
        2 => "2",
        3 => "3",
        4 => "4",
        5 => "5",
        6 => "6",
        7 => "7",
        8 => "8",
        _ => "9",
    }
}

/// Writes `n` in decimal.
pub fn decimal_string(n: u64) -> (r: String)
    ensures
        r@ == spec_decimal(n as nat),
    decreases n,
{
    if n < 10 {
        String::from_str(digit_str(n))
    } else {
        let mut s = decimal_string(n / 10);
        s.append(digit_str(n % 10));
        s
    }
}

} // verus!
