//! The board as text.

use vstd::prelude::*;
use crate::cell::FieldValue;
use crate::field::Field;
use crate::grid::{cell_on, Grid};
use crate::position::Position;

verus! {

/// The line above the board, which numbers the columns of the playing area.
pub open spec fn header() -> Seq<char> {
    "  1 2 3 4 5 6 7 8"@
}

/// How one cell is drawn. A wall cell is not drawn at all.
pub open spec fn symbol(v: FieldValue) -> Seq<char> {
    match v {
        FieldValue::Black => "B "@,
        FieldValue::White => "W "@,
        FieldValue::Wall => ""@,
        FieldValue::Empty => "+ "@,
    }
}

/// What stands before the cells of row `r`: the row's number for a row of
/// the playing area, nothing for a wall row.
pub open spec fn label(r: int) -> Seq<char> {
    if r == 1 {
        "1 "@
    } else if r == 2 {
        "2 "@
    } else if r == 3 {
        "3 "@
    } else if r == 4 {
        "4 "@
    } else if r == 5 {
        "5 "@
    } else if r == 6 {
        "6 "@
    } else if r == 7 {
        "7 "@
    } else if r == 8 {
        "8 "@
    } else {
        ""@
    }
}

/// The first `n` cells of row `r` as drawn.
pub open spec fn drawn_cells(g: Grid, r: int, n: int) -> Seq<char>
    decreases n,
{
    if n <= 0 {
        Seq::empty()
    } else {
        drawn_cells(g, r, n - 1) + symbol(cell_on(g, (r, n - 1)))
    }
}

/// Row `r` as drawn: its label, its ten cells, and the end of the line.
pub open spec fn drawn_row(g: Grid, r: int) -> Seq<char> {
    label(r) + drawn_cells(g, r, 10) + "\n"@
}

/// The first `n` rows as drawn.
pub open spec fn drawn_rows(g: Grid, n: int) -> Seq<char>
    decreases n,
{
    if n <= 0 {
        Seq::empty()
    } else {
        drawn_rows(g, n - 1) + drawn_row(g, n - 1)
    }
}

/// The drawing of the whole board: the header, then the ten rows. The
/// upper wall row is empty and so ends the header's line.
pub open spec fn drawing(g: Grid) -> Seq<char> {
    header() + drawn_rows(g, 10)
}

/// The text that stands for a cell.
fn symbol_of(v: FieldValue) -> (t: &'static str)
    ensures
        t@ == symbol(v),
{
    match v {
        FieldValue::Black => "B ",
        FieldValue::White => "W ",
        FieldValue::Wall => "",
        FieldValue::Empty => "+ ",
    }
}

/// The text that stands before the cells of a row.
fn label_of(r: usize) -> (t: &'static str)
    ensures
        t@ == label(r as int),
{
    if r == 1 {
        "1 "
    } else if r == 2 {
        "2 "
    } else if r == 3 {
        "3 "
    } else if r == 4 {
        "4 "
    } else if r == 5 {
        "5 "
    } else if r == 6 {
        "6 "
    } else if r == 7 {
        "7 "
    } else if r == 8 {
        "8 "
    } else {
        ""
    }
}

impl Field {
    /// Draws the board: a header with the column numbers, then one line
    /// for each row with its number and its cells, `B` for black, `W` for
    /// white and `+` for an empty cell.
    pub fn to_string(&self) -> (s: String)
        ensures
            s@ == drawing(self@),
    {
        let ghost g = self@;
        let mut s = String::from_str("  1 2 3 4 5 6 7 8");
        let mut row: usize = 0;
        while row < 10
            invariant
                row <= 10,
                g == self@,
                s@ == header() + drawn_rows(g, row as int),
            decreases 10 - row,
        {
            let ghost before = s@;
            s.append(label_of(row));
            let mut col: usize = 0;
            while col < 10
                invariant
                    row < 10,
                    col <= 10,
                    g == self@,
                    s@ == before + (label(row as int) + drawn_cells(g, row as int, col as int)),
                decreases 10 - col,
            {
                let v = self.get(Position { row, col });
                s.append(symbol_of(v));
                col = col + 1;
            }
            s.append("\n");
            row = row + 1;
        }
        s
    }
}

} // verus!
