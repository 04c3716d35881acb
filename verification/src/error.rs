//! Why a board cannot be built.

use vstd::prelude::*;
use crate::model::{drawn_places, listed};

verus! {

/// A configuration that no board can have.
#[derive(Clone, Copy, Debug, PartialEq, Eq, Structural)]
pub enum BoardError {
    /// The width or the height is 0.
    EmptyGrid,
    /// The number of cells does not fit in `isize`.
    TooLarge,
    /// No cell would be left without a mine.
    TooManyMines,
    /// A mine is to lie outside the grid.
    MineOutOfBounds,
    /// A draw is not below the number of cells.
    DrawOutOfRange,
    /// The draws are used up before every mine has its place.
    TooFewDraws,
}

/// What is wrong with a grid of this size, if anything.
pub open spec fn grid_error(width: int, height: int) -> Option<BoardError> {
    if width <= 0 || height <= 0 {
        Some(BoardError::EmptyGrid)
    } else if width * height > isize::MAX {
        Some(BoardError::TooLarge)
    } else {
        None
    }
}

/// What is wrong with a grid of this size that is to hold this many mines,
/// if anything: the grid itself, or a number of mines that is not below the
/// number of cells.
pub open spec fn config_error(width: int, height: int, mine_count: int) -> Option<BoardError> {
    if grid_error(width, height) is Some {
        grid_error(width, height)
    } else if mine_count >= width * height {
        Some(BoardError::TooManyMines)
    } else {
        None
    }
}

/// What is wrong with a grid of this size that is to hold a mine at each
/// listed position and nowhere else, if anything: the grid itself, a position
/// outside it, or no cell left without a mine.
pub open spec fn layout_error(width: int, height: int, mines: Seq<(usize, usize)>) -> Option<
    BoardError,
> {
    if grid_error(width, height) is Some {
        grid_error(width, height)
    } else if exists|k: int|
        0 <= k < mines.len() && !((#[trigger] mines[k]).0 < width && mines[k].1 < height) {
        Some(BoardError::MineOutOfBounds)
    } else if forall|x: int, y: int|
        0 <= x < width && 0 <= y < height ==> #[trigger] listed(mines, x, y) {
        Some(BoardError::TooManyMines)
    } else {
        None
    }
}

/// What is wrong with a grid of this size that is to take its mines from the
/// given draws, if anything: the grid or the number of mines, a draw that is
/// not below the number of cells, or fewer distinct draws than mines.
pub open spec fn draws_error(width: int, height: int, mine_count: int, draws: Seq<usize>) -> Option<
    BoardError,
> {
    if config_error(width, height, mine_count) is Some {
        config_error(width, height, mine_count)
    } else if exists|k: int| 0 <= k < draws.len() && (#[trigger] draws[k]) >= width * height {
        Some(BoardError::DrawOutOfRange)
    } else if drawn_places(draws, mine_count as nat).len() < mine_count {
        Some(BoardError::TooFewDraws)
    } else {
        None
    }
}

impl BoardError {
    /// What a user is told.
    pub open spec fn text(self) -> Seq<char> {
        match self {
            BoardError::EmptyGrid => "the grid needs at least one row and one column"@,
            BoardError::TooLarge => "the grid has too many cells"@,
            BoardError::TooManyMines => "at least one cell must be free of mines"@,
            BoardError::MineOutOfBounds => "a mine lies outside the grid"@,
            BoardError::DrawOutOfRange => "a draw is not below the number of cells"@,
            BoardError::TooFewDraws => "the draws do not place every mine"@,
        }
    }

    /// The error in words.
    pub fn message(&self) -> (s: String)
        ensures
            s@ == self.text(),
    {
        match self {
            BoardError::EmptyGrid => "the grid needs at least one row and one column".to_string(),
            BoardError::TooLarge => "the grid has too many cells".to_string(),
            BoardError::TooManyMines => "at least one cell must be free of mines".to_string(),
            BoardError::MineOutOfBounds => "a mine lies outside the grid".to_string(),
            BoardError::DrawOutOfRange => "a draw is not below the number of cells".to_string(),
            BoardError::TooFewDraws => "the draws do not place every mine".to_string(),
        }
    }
}

} // verus!
