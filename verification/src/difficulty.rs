//! The three classic board sizes.

use vstd::prelude::*;
use crate::error::config_error;

verus! {

/// A preset of board size and number of mines.
#[derive(Clone, Copy, Debug, PartialEq, Eq, Structural)]
pub enum Difficulty {
    Beginner,
    Intermediate,
    Expert,
}

impl Difficulty {
    /// Width, height and number of mines.
    pub open spec fn spec_params(self) -> (usize, usize, usize) {
        match self {
            Difficulty::Beginner => (9, 9, 10),
            Difficulty::Intermediate => (16, 16, 40),
            Difficulty::Expert => (25, 25, 99),
        }
    }

    /// The name of the choice.
    pub open spec fn spec_label(self) -> Seq<char> {
        match self {
            Difficulty::Beginner => "Beginner (9x9)"@,
            Difficulty::Intermediate => "Intermediate (16x16)"@,
            Difficulty::Expert => "Expert (25x25)"@,
        }
    }

    /// Width, height and number of mines, in this order. A board can be
    /// built from them.
    pub fn params(self) -> (p: (usize, usize, usize))
        ensures
            p == self.spec_params(),
            config_error(p.0 as int, p.1 as int, p.2 as int) is None,
    {
        match self {
            Difficulty::Beginner => (9, 9, 10),
            Difficulty::Intermediate => (16, 16, 40),
            Difficulty::Expert => (25, 25, 99),
        }
    }

    /// The name shown for the choice.
    pub fn label(self) -> (s: &'static str)
        ensures
            s@ == self.spec_label(),
    {
        match self {
            Difficulty::Beginner => "Beginner (9x9)",
            Difficulty::Intermediate => "Intermediate (16x16)",
            Difficulty::Expert => "Expert (25x25)",
        }
    }
}

} // verus!
