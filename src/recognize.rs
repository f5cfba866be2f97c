//! Classifying a committed line as a definition, a call or an equation.
use vstd::prelude::*;
use crate::chars::sub_chars;

verus! {

/// Whether `c` is alphanumeric in Unicode's sense.
pub uninterp spec fn alphanumeric(c: char) -> bool;

/// An ASCII letter or digit.
pub open spec fn is_ascii_alphanumeric(c: char) -> bool {
    ('a' <= c && c <= 'z') || ('A' <= c && c <= 'Z') || ('0' <= c && c <= '9')
}

/// A character of a name: an alphanumeric character, or `_`. Within ASCII
/// the alphanumeric characters are the letters and the digits.
pub open spec fn is_word_char(c: char) -> bool {
    if (c as u32) < 128 {
        is_ascii_alphanumeric(c) || c == '_'
    } else {
        alphanumeric(c) || c == '_'
    }
}

/// A decimal digit of a number literal: ASCII `0` to `9`, the digits whose
/// values the arithmetic reads.
pub open spec fn is_digit(c: char) -> bool {
    '0' <= c && c <= '9'
}

/// The end of the run of name characters that starts at `i`.
pub open spec fn word_end(s: Seq<char>, i: int) -> int
    decreases s.len() - i,
{
    if 0 <= i < s.len() && is_word_char(s[i]) {
        word_end(s, i + 1)
    } else {
        i
    }
}

/// The end of the run of digits that starts at `i`.
pub open spec fn digit_end(s: Seq<char>, i: int) -> int
    decreases s.len() - i,
{
    if 0 <= i < s.len() && is_digit(s[i]) {
        digit_end(s, i + 1)
    } else {
        i
    }
}

/// The end of the text that starts at `i`: the next line break, or the end.
pub open spec fn text_end(s: Seq<char>, i: int) -> int
    decreases s.len() - i,
{
    if 0 <= i < s.len() && s[i] != '\n' {
        text_end(s, i + 1)
    } else {
        i
    }
}

/// `s` holds `p` at `i`.
pub open spec fn has_at(s: Seq<char>, i: int, p: Seq<char>) -> bool {
    0 <= i && i + p.len() <= s.len() && s.subrange(i, i + p.len()) == p
}

/// What separates a definition's name from its body.
pub open spec fn def_marker() -> Seq<char> {
    seq!['(', 'x', ')', ':', '=', ' ']
}

/// What separates an equation's name from its target.
pub open spec fn solve_marker() -> Seq<char> {
    seq![' ', '=', ' ']
}

/// The three shapes a committed line can take, in the order they are tried.
#[derive(PartialEq, Eq, Structural, Clone, Copy, Debug)]
pub enum Shape {
    Definition,
    Call,
    Solve,
}

/// A match of `shape` starts at `i`: a name, then for a definition `(x):= `
/// and a body of at least one character; for a call `(`, digits and `)`;
/// for an equation ` = ` and digits.
pub open spec fn matches_at(shape: Shape, s: Seq<char>, i: int) -> bool {
    let j = word_end(s, i);
    &&& 0 <= i < s.len()
    &&& is_word_char(s[i])
    &&& match shape {
        Shape::Definition => has_at(s, j, def_marker()) && text_end(s, j + 6) > j + 6,
        Shape::Call => has_at(s, j, seq!['(']) && digit_end(s, j + 1) > j + 1 && has_at(
            s,
            digit_end(s, j + 1),
            seq![')'],
        ),
        Shape::Solve => has_at(s, j, solve_marker()) && digit_end(s, j + 3) > j + 3,
    }
}

/// The leftmost position at or after `i` where `shape` matches.
pub open spec fn first_match(shape: Shape, s: Seq<char>, i: int) -> Option<int>
    decreases s.len() - i,
{
    if i < 0 || i >= s.len() {
        None
    } else if matches_at(shape, s, i) {
        Some(i)
    } else {
        first_match(shape, s, i + 1)
    }
}

/// The name of a match at `i`.
pub open spec fn name_at(s: Seq<char>, i: int) -> Seq<char> {
    s.subrange(i, word_end(s, i))
}

/// The second field of a match of `shape` at `i`: a definition's body, a
/// call's argument digits or an equation's target digits.
pub open spec fn field_at(shape: Shape, s: Seq<char>, i: int) -> Seq<char> {
    let j = word_end(s, i);
    match shape {
        Shape::Definition => s.subrange(j + 6, text_end(s, j + 6)),
        Shape::Call => s.subrange(j + 1, digit_end(s, j + 1)),
        Shape::Solve => s.subrange(j + 3, digit_end(s, j + 3)),
    }
}

/// What a committed line holds.
#[derive(Debug)]
pub enum Recognized {
    Definition { name: Vec<char>, body: Vec<char> },
    Call { name: Vec<char>, arg: Vec<char> },
    Solve { name: Vec<char>, target: Vec<char> },
    Unrecognized,
}

/// `r` is a match of `shape` at the leftmost place where it matches `s`,
/// with its name and second field.
pub open spec fn is_first(shape: Shape, s: Seq<char>, name: Seq<char>, field: Seq<char>) -> bool {
    &&& first_match(shape, s, 0) is Some
    &&& name == name_at(s, first_match(shape, s, 0)->0)
    &&& field == field_at(shape, s, first_match(shape, s, 0)->0)
}

/// Relies on `char::is_alphanumeric`: whether `c` is alphabetic or numeric
/// in Unicode. Within ASCII exactly the letters and the digits are.
#[verifier::external_body]
fn is_alphanumeric(c: char) -> (r: bool)
    ensures
        r == alphanumeric(c),
        (c as u32) < 128 ==> (r <==> is_ascii_alphanumeric(c)),
{
    c.is_alphanumeric()
}

fn is_word_char_exec(c: char) -> (r: bool)
    ensures
        r == is_word_char(c),
{
    is_alphanumeric(c) || c == '_'
}

fn word_end_exec(s: &Vec<char>, i: usize) -> (r: usize)
    requires
        i <= s@.len(),
    ensures
        r == word_end(s@, i as int),
        i <= r <= s@.len(),
{
    let mut k = i;
    while k < s.len() && is_word_char_exec(s[k])
        invariant
            i <= k <= s@.len(),
            word_end(s@, k as int) == word_end(s@, i as int),
        decreases s@.len() - k,
    {
        k = k + 1;
    }
    k
}

fn digit_end_exec(s: &Vec<char>, i: usize) -> (r: usize)
    requires
        i <= s@.len(),
    ensures
        r == digit_end(s@, i as int),
        i <= r <= s@.len(),
{
    let mut k = i;
    while k < s.len() && '0' <= s[k] && s[k] <= '9'
        invariant
            i <= k <= s@.len(),
            digit_end(s@, k as int) == digit_end(s@, i as int),
        decreases s@.len() - k,
    {
        k = k + 1;
    }
    k
}

fn text_end_exec(s: &Vec<char>, i: usize) -> (r: usize)
    requires
        i <= s@.len(),
    ensures
        r == text_end(s@, i as int),
        i <= r <= s@.len(),
{
    let mut k = i;
    while k < s.len() && s[k] != '\n'
        invariant
            i <= k <= s@.len(),
            text_end(s@, k as int) == text_end(s@, i as int),
        decreases s@.len() - k,
    {
        k = k + 1;
    }
    k
}

fn has_at_exec(s: &Vec<char>, i: usize, p: &Vec<char>) -> (r: bool)
    ensures
        r == has_at(s@, i as int, p@),
{
    if i > s.len() || p.len() > s.len() - i {
        return false;
    }
    let mut k: usize = 0;
    while k < p.len()
        invariant
            k <= p@.len(),
            i + p@.len() <= s@.len(),
            s@.len() <= usize::MAX,
            forall|m: int| 0 <= m < k ==> s@[i + m] == p@[m],
        decreases p@.len() - k,
    {
        if s[i + k] != p[k] {
            assert(s@.subrange(i as int, i + p@.len())[k as int] != p@[k as int]);
            return false;
        }
        k = k + 1;
    }
    assert(s@.subrange(i as int, i + p@.len()) =~= p@);
    true
}

fn marker(shape: Shape) -> (r: Vec<char>)
    ensures
        shape == Shape::Definition ==> r@ == def_marker(),
        shape == Shape::Call ==> r@ == seq!['('],
        shape == Shape::Solve ==> r@ == solve_marker(),
{
    let r = match shape {
        Shape::Definition => vec!['(', 'x', ')', ':', '=', ' '],
        Shape::Call => vec!['('],
        Shape::Solve => vec![' ', '=', ' '],
    };
    assert(shape == Shape::Definition ==> r@ =~= def_marker());
    assert(shape == Shape::Call ==> r@ =~= seq!['(']);
    assert(shape == Shape::Solve ==> r@ =~= solve_marker());
    r
}

/// Whether a match of `shape` starts at `i`.
pub fn matches_at_exec(shape: Shape, s: &Vec<char>, i: usize) -> (r: bool)
    ensures
        r == matches_at(shape, s@, i as int),
{
    if i >= s.len() || !is_word_char_exec(s[i]) {
        return false;
    }
    let j = word_end_exec(s, i);
    let m = marker(shape);
    if !has_at_exec(s, j, &m) {
        return false;
    }
    match shape {
        Shape::Definition => text_end_exec(s, j + 6) > j + 6,
        Shape::Call => {
            let k = digit_end_exec(s, j + 1);
            let close = vec![')'];
            assert(close@ =~= seq![')']);
            k > j + 1 && has_at_exec(s, k, &close)
        },
        Shape::Solve => digit_end_exec(s, j + 3) > j + 3,
    }
}

/// The leftmost position where `shape` matches `s`.
pub fn find_first(shape: Shape, s: &Vec<char>) -> (r: Option<usize>)
    ensures
        r matches Some(i) ==> first_match(shape, s@, 0) == Some(i as int) && matches_at(
            shape,
            s@,
            i as int,
        ),
        r is None ==> first_match(shape, s@, 0) is None,
{
    let mut i: usize = 0;
    while i < s.len()
        invariant
            i <= s@.len(),
            first_match(shape, s@, i as int) == first_match(shape, s@, 0),
        decreases s@.len() - i,
    {
        if matches_at_exec(shape, s, i) {
            return Some(i);
        }
        i = i + 1;
    }
    None
}

/// Classifies a line. A definition is tried first, then a call, then an
/// equation; the first shape that matches anywhere in the line wins, at its
/// leftmost match.
pub fn recognize(s: &Vec<char>) -> (r: Recognized)
    ensures
        match r {
            Recognized::Definition { name, body } => is_first(Shape::Definition, s@, name@, body@),
            Recognized::Call { name, arg } => {
                &&& first_match(Shape::Definition, s@, 0) is None
                &&& is_first(Shape::Call, s@, name@, arg@)
            },
            Recognized::Solve { name, target } => {
                &&& first_match(Shape::Definition, s@, 0) is None
                &&& first_match(Shape::Call, s@, 0) is None
                &&& is_first(Shape::Solve, s@, name@, target@)
            },
            Recognized::Unrecognized => {
                &&& first_match(Shape::Definition, s@, 0) is None
                &&& first_match(Shape::Call, s@, 0) is None
                &&& first_match(Shape::Solve, s@, 0) is None
            },
        },
{
    if let Some(i) = find_first(Shape::Definition, s) {
        assert(matches_at(Shape::Definition, s@, i as int));
        let j = word_end_exec(s, i);
        assert(def_marker().len() == 6);
        let n = s.len();
        assert(j + 6 <= n);
        let e = text_end_exec(s, j + 6);
        return Recognized::Definition { name: sub_chars(s, i, j), body: sub_chars(s, j + 6, e) };
    }
    if let Some(i) = find_first(Shape::Call, s) {
        assert(matches_at(Shape::Call, s@, i as int));
        let j = word_end_exec(s, i);
        assert(seq!['('].len() == 1);
        let n = s.len();
        assert(j + 1 <= n);
        let e = digit_end_exec(s, j + 1);
        return Recognized::Call { name: sub_chars(s, i, j), arg: sub_chars(s, j + 1, e) };
    }
    if let Some(i) = find_first(Shape::Solve, s) {
        assert(matches_at(Shape::Solve, s@, i as int));
        let j = word_end_exec(s, i);
        assert(solve_marker().len() == 3);
        let n = s.len();
        assert(j + 3 <= n);
        let e = digit_end_exec(s, j + 3);
        return Recognized::Solve { name: sub_chars(s, i, j), target: sub_chars(s, j + 3, e) };
    }
    Recognized::Unrecognized
}

} // verus!
