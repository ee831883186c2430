//! Coordinates on the grid.

use vstd::prelude::*;

verus! {

/// A cell of the grid by row and column, counted from the top left corner
/// of the wall ring: the playing area spans rows and columns 1 to 8.
#[derive(Clone, Copy, Debug, PartialEq, Eq, Structural)]
pub struct Position {
    pub row: usize,
    pub col: usize,
}

impl View for Position {
    type V = (int, int);

    open spec fn view(&self) -> (int, int) {
        (self.row as int, self.col as int)
    }
}

impl DeepView for Position {
    type V = (int, int);

    open spec fn deep_view(&self) -> (int, int) {
        self.view()
    }
}

/// The character of the decimal digit `d`.
pub open spec fn digit_char(d: int) -> char {
    ('0' as int + d) as char
}

/// The decimal numeral of `n`, without leading zeros.
pub open spec fn numeral(n: nat) -> Seq<char>
    decreases n,
{
    if n < 10 {
        seq![digit_char(n as int)]
    } else {
        numeral(n / 10).push(digit_char((n % 10) as int))
    }
}

/// A coordinate as text: row and column in round brackets, with a comma
/// and a blank between them.
pub open spec fn coord_text(p: (int, int)) -> Seq<char> {
    "("@ + numeral(p.0 as nat) + ", "@ + numeral(p.1 as nat) + ")"@
}

/// The text of one decimal digit.
fn digit_text(d: usize) -> (t: &'static str)
    requires
        d < 10,
    ensures
        t@ == seq![digit_char(d as int)],
{
    proof {
        reveal_strlit("0");
        reveal_strlit("1");
        reveal_strlit("2");
        reveal_strlit("3");
        reveal_strlit("4");
        reveal_strlit("5");
        reveal_strlit("6");
        reveal_strlit("7");
        reveal_strlit("8");
        reveal_strlit("9");
    }
    let t = if d == 0 {
        "0"
    } else if d == 1 {
        "1"
    } else if d == 2 {
        "2"
    } else if d == 3 {
        "3"
    } else if d == 4 {
        "4"
    } else if d == 5 {
        "5"
    } else if d == 6 {
        "6"
    } else if d == 7 {
        "7"
    } else if d == 8 {
        "8"
    } else {
        "9"
    };
    t
}

/// Writes the decimal numeral of `n` at the end of `s`.
fn push_numeral(s: &mut String, n: usize)
    ensures
        final(s)@ == old(s)@ + numeral(n as nat),
    decreases n,
{
    if n >= 10 {
        push_numeral(s, n / 10);
    }
    s.append(digit_text(n % 10));
}

impl Position {
    /// The position as text, such as `(3, 5)`.
    pub fn to_string(&self) -> (s: String)
        ensures
            s@ == coord_text(self@),
    {
        let mut s = String::from_str("(");
        push_numeral(&mut s, self.row);
        s.append(", ");
        push_numeral(&mut s, self.col);
        s.append(")");
        s
    }
}

} // verus!
