//! Reading a position from text.

use vstd::prelude::*;
use crate::grid::Coord;
use crate::position::Position;

verus! {

/// The refusal of a text that is no position.
#[derive(Clone, Copy, Debug, PartialEq, Eq, Structural)]
pub struct MalformedPosition;

/// Whether `c` is one of the ten decimal digits.
pub open spec fn is_digit(c: char) -> bool {
    '0' <= c <= '9'
}

/// The value of a decimal digit.
pub open spec fn digit_value(c: char) -> int {
    c as int - '0' as int
}

/// The number that a run of decimal digits stands for.
pub open spec fn decimal(s: Seq<char>) -> int
    decreases s.len(),
{
    if s.len() == 0 {
        0
    } else {
        decimal(s.drop_last()) * 10 + digit_value(s.last())
    }
}

/// Whether `s` is a run of at least one decimal digit.
pub open spec fn is_digits(s: Seq<char>) -> bool {
    s.len() > 0 && forall|i: int| 0 <= i < s.len() ==> is_digit(#[trigger] s[i])
}

/// The digits of a numeral: what follows its plus sign, if it has one.
pub open spec fn unsigned(s: Seq<char>) -> Seq<char> {
    if s.len() > 0 && s[0] == '+' {
        s.drop_first()
    } else {
        s
    }
}

/// The number that `s` stands for: `s` is a run of decimal digits, with or
/// without a plus sign before it, and the number fits the machine's word.
/// Anything else, white space included, stands for no number.
pub open spec fn number(s: Seq<char>) -> Option<int> {
    if is_digits(unsigned(s)) && decimal(unsigned(s)) <= usize::MAX {
        Some(decimal(unsigned(s)))
    } else {
        None
    }
}

/// Whether the one and only comma of `s` stands at index `i`.
pub open spec fn sole_comma(s: Seq<char>, i: int) -> bool {
    &&& 0 <= i < s.len()
    &&& s[i] == ','
    &&& forall|j: int| 0 <= j < s.len() && j != i ==> s[j] != ','
}

/// The position that `s` stands for: two numbers with one comma between
/// them, the row first.
pub open spec fn parsed(s: Seq<char>) -> Option<Coord> {
    if exists|i: int| sole_comma(s, i) {
        let i = choose|i: int| sole_comma(s, i);
        match (number(s.take(i)), number(s.skip(i + 1))) {
            (Some(row), Some(col)) => Some((row, col)),
            _ => None,
        }
    } else {
        None
    }
}

/// The characters of a text.
fn chars_of(s: &str) -> (v: Vec<char>)
    ensures
        v@ == s@,
{
    let mut v: Vec<char> = Vec::new();
    for c in it: s.chars()
        invariant
            it.seq() == s@,
            v@ == it.seq().take(it.index()),
    {
        v.push(c);
    }
    v
}

/// The index of the first comma at or after `from`.
fn find_comma(v: &Vec<char>, from: usize) -> (r: Option<usize>)
    requires
        from <= v.len(),
    ensures
        match r {
            Some(i) => from <= i < v.len() && v[i as int] == ',' && forall|j: int|
                from <= j < i ==> v[j] != ',',
            None => forall|j: int| from <= j < v.len() ==> v[j] != ',',
        },
{
    let mut i: usize = from;
    while i < v.len()
        invariant
            from <= i <= v.len(),
            forall|j: int| from <= j < i ==> v[j] != ',',
        decreases v.len() - i,
    {
        if v[i] == ',' {
            return Some(i);
        }
        i = i + 1;
    }
    None
}

/// A run of digits stands for a number that is not negative.
pub proof fn lemma_decimal_nonnegative(s: Seq<char>)
    requires
        forall|i: int| 0 <= i < s.len() ==> is_digit(#[trigger] s[i]),
    ensures
        decimal(s) >= 0,
    decreases s.len(),
{
    if s.len() > 0 {
        lemma_decimal_nonnegative(s.drop_last());
    }
}

/// The first digits of a run stand for no more than the whole run.
pub proof fn lemma_decimal_prefix(s: Seq<char>, k: int)
    requires
        forall|i: int| 0 <= i < s.len() ==> is_digit(#[trigger] s[i]),
        0 <= k <= s.len(),
    ensures
        decimal(s.take(k)) <= decimal(s),
    decreases s.len(),
{
    if k == s.len() {
        assert(s.take(k) =~= s);
    } else {
        lemma_decimal_prefix(s.drop_last(), k);
        lemma_decimal_nonnegative(s.drop_last());
        assert(s.drop_last().take(k) =~= s.take(k));
    }
}

/// Reads the numeral that the characters from `from` up to `to` spell.
fn parse_number(v: &Vec<char>, from: usize, to: usize) -> (r: Option<usize>)
    requires
        from <= to <= v.len(),
    ensures
        match r {
            Some(n) => number(v@.subrange(from as int, to as int)) == Some(n as int),
            None => number(v@.subrange(from as int, to as int)) is None,
        },
{
    let ghost text = v@.subrange(from as int, to as int);
    let mut i: usize = from;
    if i < to && v[i] == '+' {
        i = i + 1;
    }
    let start = i;
    let ghost body = v@.subrange(start as int, to as int);
    if i == to {
        return None;
    }
    let mut n: usize = 0;
    while i < to
        invariant
            start <= i <= to <= v.len(),
            start < to,
            text == v@.subrange(from as int, to as int),
            body == v@.subrange(start as int, to as int),
            unsigned(text) == body,
            forall|j: int| start <= j < i ==> is_digit(#[trigger] v[j]),
            n == decimal(v@.subrange(start as int, i as int)),
        decreases to - i,
    {
        let c = v[i];
        if c < '0' || c > '9' {
            assert(!is_digit(body[i - start]));
            return None;
        }
        let d = (c as u32 - '0' as u32) as usize;
        let ghost longer = v@.subrange(start as int, i as int + 1);
        assert(longer.drop_last() =~= v@.subrange(start as int, i as int));
        if n > (usize::MAX - d) / 10 {
            proof {
                if is_digits(body) {
                    assert(body.take(i + 1 - start) =~= longer);
                    lemma_decimal_prefix(body, i + 1 - start);
                }
            }
            return None;
        }
        n = n * 10 + d;
        i = i + 1;
    }
    Some(n)
}

/// Reads a position written as `row,column`: two unsigned decimal
/// numbers with one comma between them and nothing else.
pub fn parse_position(s: &str) -> (r: Result<Position, MalformedPosition>)
    ensures
        match r {
            Ok(p) => parsed(s@) == Some(p@),
            Err(_) => parsed(s@) is None,
        },
{
    let v = chars_of(s);
    let first = find_comma(&v, 0);
    if first.is_none() {
        return Err(MalformedPosition);
    }
    let i = first.unwrap();
    if find_comma(&v, i + 1).is_some() {
        return Err(MalformedPosition);
    }
    proof {
        assert(sole_comma(s@, i as int));
    }
    let row = parse_number(&v, 0, i);
    let col = parse_number(&v, i + 1, v.len());
    if row.is_some() && col.is_some() {
        Ok(Position { row: row.unwrap(), col: col.unwrap() })
    } else {
        Err(MalformedPosition)
    }
}

} // verus!
