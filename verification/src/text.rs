//! What the registry does with a line that the operator typed: cutting it
//! into tokens, and reading a token as a count.

use vstd::prelude::*;
use vstd::string::*;

verus! {

/// The view of a list of strings: the list of their views.
pub open spec fn names_view(v: Seq<String>) -> Seq<Seq<char>> {
    Seq::new(v.len(), |i: int| v[i]@)
}

/// The characters that Unicode lists as white space.
pub open spec fn is_space(c: char) -> bool {
    let n = c as u32;
    ||| 0x09 <= n <= 0x0d
    ||| n == 0x20
    ||| n == 0x85
    ||| n == 0xa0
    ||| n == 0x1680
    ||| 0x2000 <= n <= 0x200a
    ||| n == 0x2028
    ||| n == 0x2029
    ||| n == 0x202f
    ||| n == 0x205f
    ||| n == 0x3000
}

/// Whether `c` is white space.
pub fn is_whitespace(c: char) -> (b: bool)
    ensures
        b == is_space(c),
{
    let n = c as u32;
    (0x09 <= n && n <= 0x0d) || n == 0x20 || n == 0x85 || n == 0xa0 || n == 0x1680 || (0x2000 <= n
        && n <= 0x200a) || n == 0x2028 || n == 0x2029 || n == 0x202f || n == 0x205f || n == 0x3000
}

/// How many characters of white space `s` starts with.
pub open spec fn leading_spaces(s: Seq<char>) -> nat
    decreases s.len(),
{
    if s.len() > 0 && is_space(s[0]) {
        1 + leading_spaces(s.drop_first())
    } else {
        0
    }
}

/// How many characters of white space `s` ends with.
pub open spec fn trailing_spaces(s: Seq<char>) -> nat
    decreases s.len(),
{
    if s.len() > 0 && is_space(s.last()) {
        1 + trailing_spaces(s.drop_last())
    } else {
        0
    }
}

/// `s` without the white space at its start and at its end.
pub open spec fn trimmed(s: Seq<char>) -> Seq<char> {
    let rest = s.skip(leading_spaces(s) as int);
    rest.take(rest.len() - trailing_spaces(rest))
}

/// The pieces in order, with `sep` between each two neighbours.
pub open spec fn joined(pieces: Seq<Seq<char>>, sep: char) -> Seq<char>
    decreases pieces.len(),
{
    if pieces.len() == 0 {
        Seq::empty()
    } else if pieces.len() == 1 {
        pieces[0]
    } else {
        joined(pieces.drop_last(), sep) + seq![sep] + pieces.last()
    }
}

/// The first of the tokens, or the empty text where there is none.
pub open spec fn first_or_empty(tokens: Seq<Seq<char>>) -> Seq<char> {
    if tokens.len() == 0 {
        Seq::empty()
    } else {
        tokens[0]
    }
}

/// Whether no piece holds a space.
pub open spec fn spaceless(pieces: Seq<Seq<char>>) -> bool {
    forall|i: int| 0 <= i < pieces.len() ==> !(#[trigger] pieces[i]).contains(' ')
}

/// What follows the last space of `s`: all of `s` where it holds none.
spec fn last_piece(s: Seq<char>) -> Seq<char>
    decreases s.len(),
{
    if s.len() == 0 || s.last() == ' ' {
        Seq::empty()
    } else {
        last_piece(s.drop_last()).push(s.last())
    }
}

proof fn lemma_last_piece(x: Seq<char>, y: Seq<char>)
    requires
        !y.contains(' '),
        x.len() == 0 || x.last() == ' ',
    ensures
        last_piece(x + y) == y,
    decreases y.len(),
{
    if y.len() == 0 {
        assert(x + y =~= x);
        assert(last_piece(x) =~= y);
    } else {
        assert(y.contains(y.last()));
        assert((x + y).last() == y.last());
        assert((x + y).drop_last() =~= x + y.drop_last());
        assert forall|i: int| 0 <= i < y.drop_last().len() implies y.drop_last()[i] != ' ' by {
            assert(y.contains(y[i]));
        }
        lemma_last_piece(x, y.drop_last());
        assert(y.drop_last().push(y.last()) =~= y);
    }
}

proof fn lemma_joined_ends(pieces: Seq<Seq<char>>)
    requires
        pieces.len() >= 1,
        spaceless(pieces),
    ensures
        last_piece(joined(pieces, ' ')) == pieces.last(),
        pieces.len() == 1 ==> !joined(pieces, ' ').contains(' '),
        pieces.len() > 1 ==> joined(pieces, ' ').contains(' '),
{
    assert(!pieces.last().contains(' '));
    if pieces.len() == 1 {
        assert(Seq::<char>::empty() + pieces[0] =~= pieces[0]);
        lemma_last_piece(Seq::empty(), pieces[0]);
    } else {
        let x = joined(pieces.drop_last(), ' ') + seq![' '];
        assert(x.last() == ' ');
        lemma_last_piece(x, pieces.last());
        let all = joined(pieces, ' ');
        assert(all[x.len() - 1] == ' ');
    }
}

/// The tokens of a line that is not blank are the only ones there can be:
/// two rows of pieces, each with at least one piece and no space in any,
/// that give the same text when joined by single spaces are the same row.
pub proof fn law_pieces_unique(p: Seq<Seq<char>>, q: Seq<Seq<char>>)
    requires
        p.len() >= 1,
        q.len() >= 1,
        spaceless(p),
        spaceless(q),
        joined(p, ' ') == joined(q, ' '),
    ensures
        p == q,
    decreases p.len(),
{
    lemma_joined_ends(p);
    lemma_joined_ends(q);
    if p.len() == 1 {
        assert(p =~= q);
    } else {
        let a = joined(p.drop_last(), ' ');
        let b = joined(q.drop_last(), ' ');
        let all = joined(p, ' ');
        assert(all == a + seq![' '] + p.last());
        assert(all == b + seq![' '] + q.last());
        assert(a.len() == b.len());
        assert(a =~= all.take(a.len() as int));
        assert(b =~= all.take(b.len() as int));
        law_pieces_unique(p.drop_last(), q.drop_last());
        assert(p =~= p.drop_last().push(p.last()));
        assert(q =~= q.drop_last().push(q.last()));
    }
}

/// Where the trimmed line starts and ends within `line`.
fn trim_bounds(line: &str) -> (r: (usize, usize))
    ensures
        r.0 <= r.1 <= line@.len(),
        line@.subrange(r.0 as int, r.1 as int) == trimmed(line@),
{
    let n = line.unicode_len();
    let ghost s = line@;
    let mut a: usize = 0;
    assert(s.skip(0) =~= s);
    while a < n && is_whitespace(line.get_char(a))
        invariant
            a <= n,
            n == s.len(),
            s == line@,
            leading_spaces(s) == a + leading_spaces(s.skip(a as int)),
        decreases n - a,
    {
        assert(s.skip(a as int).drop_first() =~= s.skip(a + 1));
        a += 1;
    }
    let ghost rest = s.skip(a as int);
    assert(leading_spaces(rest) == 0);
    let mut b: usize = n;
    assert(rest.take(n - a) =~= rest);
    while b > a && is_whitespace(line.get_char(b - 1))
        invariant
            a <= b <= n,
            n == s.len(),
            s == line@,
            rest == s.skip(a as int),
            trailing_spaces(rest) == (n - b) + trailing_spaces(rest.take(b - a)),
        decreases b,
    {
        assert(rest.take(b - a).last() == s[b - 1]);
        assert(rest.take(b - a).drop_last() =~= rest.take(b - 1 - a));
        b -= 1;
    }
    assert(trailing_spaces(rest.take(b - a)) == 0) by {
        if b > a {
            assert(rest.take(b - a).last() == s[b - 1]);
        }
    }
    assert(rest.take(b - a) =~= s.subrange(a as int, b as int));
    (a, b)
}

/// The tokens of a line: the line without the white space around it, cut at
/// every single space. A blank line has no tokens. Any other line has at
/// least one; no token holds a space, and the tokens joined by single spaces
/// are the trimmed line. Two spaces in a row give an empty token between
/// them.
pub fn tokens(line: &str) -> (v: Vec<String>)
    ensures
        (v@.len() == 0) == (trimmed(line@).len() == 0),
        spaceless(names_view(v@)),
        joined(names_view(v@), ' ') == trimmed(line@),
{
    let (a, b) = trim_bounds(line);
    let ghost s = line@;
    let mut v: Vec<String> = Vec::new();
    if a == b {
        assert(joined(names_view(v@), ' ') =~= trimmed(line@));
        return v;
    }
    let mut from: usize = a;
    let mut i: usize = a;
    proof {
        assert(names_view(v@).push(s.subrange(from as int, i as int)).len() == 1);
        assert(s.subrange(a as int, a as int) =~= Seq::<char>::empty());
    }
    while i < b
        invariant
            a <= from <= i <= b <= s.len(),
            s == line@,
            spaceless(names_view(v@)),
            forall|j: int| from <= j < i ==> s[j] != ' ',
            joined(names_view(v@).push(s.subrange(from as int, i as int)), ' ') == s.subrange(
                a as int,
                i as int,
            ),
        decreases b - i,
    {
        let ghost done = names_view(v@);
        let ghost piece = s.subrange(from as int, i as int);
        if line.get_char(i) == ' ' {
            let t = line.substring_char(from, i);
            v.push(String::from_str(t));
            proof {
                assert(!piece.contains(' '));
                assert(names_view(v@) =~= done.push(piece));
                let next = s.subrange(i + 1, i + 1);
                assert(next =~= Seq::<char>::empty());
                let all = done.push(piece).push(next);
                assert(all.drop_last() =~= done.push(piece));
                assert(all.last() == next);
                assert(joined(all, ' ') == joined(done.push(piece), ' ') + seq![' '] + next);
                assert(joined(all, ' ') =~= s.subrange(a as int, i + 1));
            }
            from = i + 1;
        } else {
            proof {
                let longer = s.subrange(from as int, i + 1);
                assert(longer =~= piece.push(s[i as int]));
                let before = done.push(piece);
                let after = done.push(longer);
                assert(before.drop_last() =~= done);
                assert(after.drop_last() =~= done);
                assert(before.last() == piece && after.last() == longer);
                assert(joined(after, ' ') =~= joined(before, ' ').push(s[i as int])) by {
                    if done.len() == 0 {
                        assert(joined(before, ' ') == piece);
                        assert(joined(after, ' ') == longer);
                    } else {
                        assert(joined(before, ' ') == joined(done, ' ') + seq![' '] + piece);
                        assert(joined(after, ' ') == joined(done, ' ') + seq![' '] + longer);
                    }
                }
                assert(s.subrange(a as int, i + 1) =~= s.subrange(a as int, i as int).push(
                    s[i as int],
                ));
            }
        }
        i += 1;
    }
    let ghost done = names_view(v@);
    let ghost piece = s.subrange(from as int, b as int);
    v.push(String::from_str(line.substring_char(from, b)));
    proof {
        assert(!piece.contains(' '));
        assert(names_view(v@) =~= done.push(piece));
    }
    v
}

/// Whether `c` is one of the digits `0` to `9`.
pub open spec fn is_digit(c: char) -> bool {
    0x30 <= c as u32 <= 0x39
}

/// The number that a row of digits writes in base ten.
pub open spec fn decimal(digits: Seq<char>) -> nat
    decreases digits.len(),
{
    if digits.len() == 0 {
        0
    } else {
        10 * decimal(digits.drop_last()) + (digits.last() as u32 - 0x30) as nat
    }
}

/// Whether every character of `s` is a digit.
pub open spec fn all_digits(s: Seq<char>) -> bool {
    forall|i: int| 0 <= i < s.len() ==> is_digit(#[trigger] s[i])
}

/// A token without the `+` that it may start with.
pub open spec fn unsigned_part(token: Seq<char>) -> Seq<char> {
    if token.len() > 0 && token[0] == '+' {
        token.drop_first()
    } else {
        token
    }
}

/// The count that a token writes: an optional `+`, then one or more digits,
/// whose number fits in 32 bits. Any other token writes none.
pub open spec fn count_of(token: Seq<char>) -> Option<u32> {
    let digits = unsigned_part(token);
    if digits.len() > 0 && all_digits(digits) && decimal(digits) <= u32::MAX {
        Some(decimal(digits) as u32)
    } else {
        None
    }
}

/// A row of digits writes no smaller a number than any row it starts with.
proof fn lemma_decimal_grows(digits: Seq<char>, k: int)
    requires
        0 <= k <= digits.len(),
        all_digits(digits),
    ensures
        decimal(digits.take(k)) <= decimal(digits),
    decreases digits.len(),
{
    if k == digits.len() {
        assert(digits.take(k) =~= digits);
    } else {
        assert(digits.drop_last().take(k) =~= digits.take(k));
        lemma_decimal_grows(digits.drop_last(), k);
    }
}

/// Reads a token as a count.
pub fn parse_count(token: &str) -> (r: Option<u32>)
    ensures
        r == count_of(token@),
{
    let n = token.unicode_len();
    let start: usize = if n > 0 && token.get_char(0) == '+' {
        1
    } else {
        0
    };
    let ghost digits = unsigned_part(token@);
    assert(digits =~= token@.skip(start as int));
    if start == n {
        return None;
    }
    let mut acc: u32 = 0;
    let mut i: usize = start;
    assert(digits.take(0) =~= Seq::<char>::empty());
    while i < n
        invariant
            start <= i <= n,
            n == token@.len(),
            digits == unsigned_part(token@),
            digits == token@.skip(start as int),
            all_digits(digits.take(i - start)),
            acc == decimal(digits.take(i - start)),
        decreases n - i,
    {
        let c = token.get_char(i);
        let code = c as u32;
        assert(digits[i - start] == c);
        if code < 0x30 || code > 0x39 {
            return None;
        }
        let d: u32 = code - 0x30;
        proof {
            assert(digits.take(i + 1 - start).drop_last() =~= digits.take(i - start));
            assert(digits.take(i + 1 - start).last() == c);
        }
        if acc > (u32::MAX - d) / 10 {
            proof {
                if all_digits(digits) {
                    lemma_decimal_grows(digits, i + 1 - start);
                }
            }
            return None;
        }
        acc = acc * 10 + d;
        i += 1;
    }
    assert(digits.take(n - start) =~= digits);
    Some(acc)
}

} // verus!
