//! The rules of Minesweeper as a board engine: mine placement, neighbour
//! counts, reveal with flood fill, flags, and win or loss.
//!
//! [`board::Board`] is the executable engine. Every operation on it is
//! described by [`model::BoardView`], a mathematical picture of the board on
//! which the rules are written down once, and against which the engine is
//! proved.

pub mod cell;
pub mod error;
pub mod random;
pub mod model;
mod counting;
mod flood;
pub mod laws;
pub mod board;
pub mod setup;
pub mod difficulty;
