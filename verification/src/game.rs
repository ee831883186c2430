//! The course of a game: whose turn it is, when a turn is passed, when the
//! game is over and who has won.

use vstd::prelude::*;
use crate::cell::{FieldValue, Side};
use crate::field::{Field, InvalidMove};
use crate::capture::{apply_move, legal_moves};
use crate::grid::{initial_grid, Grid};
use crate::position::Position;
use crate::tally::{count, Tally};

verus! {

/// How a game has ended.
#[derive(Clone, Copy, Debug, PartialEq, Eq, Structural)]
pub enum Outcome {
    BlackWins,
    WhiteWins,
    Draw,
}

/// What is to happen at the start of a turn.
#[derive(Debug)]
pub enum TurnStart {
    /// The side to move has no legal placement: its turn was passed.
    Skip,
    /// The side to move is to choose among these placements.
    Ask(Vec<Position>),
}

/// What follows a placement.
#[derive(Clone, Copy, Debug, PartialEq, Eq, Structural)]
pub enum Progress {
    /// The game goes on with the other side.
    Continue,
    /// Neither side has a legal placement left.
    Finished,
}

/// Whether the game on `g` is over: neither side has a legal placement.
pub open spec fn finished(g: Grid) -> bool {
    legal_moves(g, Side::Black).len() == 0 && legal_moves(g, Side::White).len() == 0
}

/// What follows a placement that has left the grid `g`.
pub open spec fn progress_on(g: Grid) -> Progress {
    if finished(g) {
        Progress::Finished
    } else {
        Progress::Continue
    }
}

/// The side to move after a placement of `mover`: the other side while the
/// game goes on. When the game is finished the turn is not passed on.
pub open spec fn mover_after(mover: Side, progress: Progress) -> Side {
    match progress {
        Progress::Continue => mover.opponent(),
        Progress::Finished => mover,
    }
}

/// While the game is not over, a side that cannot move is followed by one
/// that can: no two turns in a row are passed.
pub proof fn lemma_one_pass_at_most(g: Grid, mover: Side)
    requires
        !finished(g),
        legal_moves(g, mover).len() == 0,
    ensures
        legal_moves(g, mover.opponent()).len() > 0,
{
}

/// The result of a game by the number of black and of white cells: the
/// side with more cells wins, equal numbers are a draw.
pub open spec fn result_of(black: nat, white: nat) -> Outcome {
    if black > white {
        Outcome::BlackWins
    } else if black < white {
        Outcome::WhiteWins
    } else {
        Outcome::Draw
    }
}

/// The result that a tally of cells stands for.
pub fn outcome_of(t: &Tally) -> (o: Outcome)
    ensures
        o == result_of(t.black as nat, t.white as nat),
{
    if t.black > t.white {
        Outcome::BlackWins
    } else if t.black < t.white {
        Outcome::WhiteWins
    } else {
        Outcome::Draw
    }
}

/// A game in progress: the board and the side whose turn it is.
pub struct Game {
    pub field: Field,
    pub mover: Side,
}

impl Game {
    /// A new game: the starting position, black to move.
    pub fn new() -> (game: Game)
        ensures
            game.field@ == initial_grid(),
            game.mover == Side::Black,
    {
        Game { field: Field::new(), mover: Side::Black }
    }

    /// Opens the turn of the side to move. Where that side has no legal
    /// placement the turn passes to the other side and the board stays as
    /// it is; else the side's legal placements are handed out and nothing
    /// changes.
    pub fn begin_turn(&mut self) -> (start: TurnStart)
        ensures
            final(self).field@ == old(self).field@,
            match start {
                TurnStart::Skip => legal_moves(old(self).field@, old(self).mover).len() == 0
                    && final(self).mover == old(self).mover.opponent(),
                TurnStart::Ask(moves) => moves.len() > 0 && moves.deep_view() == legal_moves(
                    old(self).field@,
                    old(self).mover,
                ) && final(self).mover == old(self).mover,
            },
    {
        let moves = self.field.search_available_positions(self.mover);
        if moves.len() == 0 {
            self.mover = self.mover.other();
            TurnStart::Skip
        } else {
            TurnStart::Ask(moves)
        }
    }

    /// Places a piece of the side to move at `pos`. An illegal placement
    /// is refused and nothing changes. After a legal one the game is
    /// finished if neither side can place a piece; else the turn passes to
    /// the other side.
    pub fn place(&mut self, pos: Position) -> (r: Result<Progress, InvalidMove>)
        ensures
            match r {
                Ok(progress) => legal_moves(old(self).field@, old(self).mover).contains(pos@)
                    && final(self).field@ == apply_move(old(self).field@, pos@, old(self).mover)
                    && progress == progress_on(final(self).field@) && final(self).mover
                    == mover_after(old(self).mover, progress),
                Err(refusal) => !legal_moves(old(self).field@, old(self).mover).contains(pos@)
                    && refusal.position == pos && final(self).field@ == old(self).field@
                    && final(self).mover == old(self).mover,
            },
    {
        match self.field.put(pos, self.mover) {
            Err(refusal) => Err(refusal),
            Ok(_) => {
                if !self.field.can_put(Side::Black) && !self.field.can_put(Side::White) {
                    Ok(Progress::Finished)
                } else {
                    self.mover = self.mover.other();
                    Ok(Progress::Continue)
                }
            },
        }
    }

    /// The result of the game as the board stands: by the number of black
    /// and of white cells.
    pub fn outcome(&self) -> (o: Outcome)
        ensures
            o == result_of(
                count(self.field@, FieldValue::Black),
                count(self.field@, FieldValue::White),
            ),
    {
        let t = self.field.aggregate();
        outcome_of(&t)
    }
}

} // verus!
