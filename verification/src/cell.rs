//! Cell kinds and sides.

use vstd::prelude::*;

verus! {

/// What one cell of the grid holds.
#[derive(Clone, Copy, Debug, PartialEq, Eq, Hash, Structural)]
pub enum FieldValue {
    Black,
    White,
    Wall,
    Empty,
}

/// One of the two players.
#[derive(Clone, Copy, Debug, PartialEq, Eq, Hash, Structural)]
pub enum Side {
    Black,
    White,
}

impl Side {
    /// The cell kind of this side's own pieces.
    pub open spec fn cell(self) -> FieldValue {
        match self {
            Side::Black => FieldValue::Black,
            Side::White => FieldValue::White,
        }
    }

    /// The other player.
    pub open spec fn opponent(self) -> Side {
        match self {
            Side::Black => Side::White,
            Side::White => Side::Black,
        }
    }

    /// The cell kind of this side's own pieces.
    pub fn to_cell(self) -> (v: FieldValue)
        ensures
            v == self.cell(),
    {
        match self {
            Side::Black => FieldValue::Black,
            Side::White => FieldValue::White,
        }
    }

    /// The other player.
    pub fn other(self) -> (s: Side)
        ensures
            s == self.opponent(),
    {
        match self {
            Side::Black => Side::White,
            Side::White => Side::Black,
        }
    }
}

} // verus!
