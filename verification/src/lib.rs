//! A Reversi (Othello) board engine.
//!
//! The board is a 10x10 grid: an 8x8 playing area inside a one-cell ring of
//! wall cells. The engine finds the legal placements of a side, the cells a
//! placement captures, applies placements, and counts the cells of each kind.
//! Every function is verified against a mathematical model of the grid.

pub mod capture;
pub mod cell;
pub mod field;
pub mod game;
pub mod grid;
pub mod laws;
pub mod parse;
pub mod position;
pub mod render;
pub mod tally;

pub use cell::{FieldValue, Side};
pub use field::{Field, InvalidMove};
pub use game::{outcome_of, Game, Outcome, Progress, TurnStart};
pub use parse::{parse_position, MalformedPosition};
pub use position::Position;
pub use tally::Tally;
