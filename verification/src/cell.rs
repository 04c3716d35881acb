//! A single grid position and what a renderer may show for it.

use vstd::prelude::*;

verus! {

/// One position of the grid.
#[derive(Clone, Copy, Debug, PartialEq, Eq, Structural)]
pub struct Cell {
    pub is_mine: bool,
    pub is_revealed: bool,
    pub is_flagged: bool,
    /// Mines among the up to eight cells around this one; 0 on a mine.
    pub neighbor_mines: u8,
}

/// What a renderer shows for a cell.
#[derive(Clone, Copy, Debug, PartialEq, Eq, Structural)]
pub enum CellDisplay {
    /// Not revealed, not flagged.
    Hidden,
    /// Not revealed, carrying a flag.
    Flagged,
    /// Revealed, no mine here and none around.
    Empty,
    /// Revealed, no mine here, this many around.
    Number(u8),
    /// Revealed, a mine.
    Mine,
}

/// The decimal digit `d` as a character.
pub open spec fn digit(d: nat) -> char {
    (d + 48) as u8 as char
}

/// `n` in decimal digits.
pub open spec fn decimal(n: nat) -> Seq<char>
    decreases n,
{
    if n < 10 {
        seq![digit(n)]
    } else {
        decimal(n / 10).push(digit(n % 10))
    }
}

impl CellDisplay {
    /// The text on the cell's button: a square on a hidden cell, a flag, a
    /// bomb, a blank for an empty cell, or the number in decimal digits.
    pub open spec fn label(self) -> Seq<char> {
        match self {
            CellDisplay::Hidden => seq!['\u{25A0}'],
            CellDisplay::Flagged => seq!['\u{1F6A9}'],
            CellDisplay::Mine => seq!['\u{1F4A3}'],
            CellDisplay::Empty => seq![' '],
            CellDisplay::Number(n) => decimal(n as nat),
        }
    }

    /// The character for the cell in a text grid: `#` on a hidden cell, `F`
    /// for a flag, `*` for a mine, a blank for an empty cell, or the number's
    /// last decimal digit.
    pub open spec fn glyph(self) -> char {
        match self {
            CellDisplay::Hidden => '#',
            CellDisplay::Flagged => 'F',
            CellDisplay::Mine => '*',
            CellDisplay::Empty => ' ',
            CellDisplay::Number(n) => digit((n % 10) as nat),
        }
    }
}

impl Cell {
    /// A hidden, unflagged cell without a mine.
    pub open spec fn blank() -> Cell {
        Cell { is_mine: false, is_revealed: false, is_flagged: false, neighbor_mines: 0 }
    }

    /// This cell, uncovered.
    pub open spec fn revealed(self) -> Cell {
        Cell { is_revealed: true, ..self }
    }

    /// This cell with its flag inverted.
    pub open spec fn flag_toggled(self) -> Cell {
        Cell { is_flagged: !self.is_flagged, ..self }
    }

    /// This cell holding a mine.
    pub open spec fn mined(self) -> Cell {
        Cell { is_mine: true, ..self }
    }

    /// The class a renderer picks a glyph by. A revealed cell shows what it
    /// holds whether or not a flag is still on it.
    pub open spec fn display(self) -> CellDisplay {
        if self.is_revealed {
            if self.is_mine {
                CellDisplay::Mine
            } else if self.neighbor_mines == 0 {
                CellDisplay::Empty
            } else {
                CellDisplay::Number(self.neighbor_mines)
            }
        } else if self.is_flagged {
            CellDisplay::Flagged
        } else {
            CellDisplay::Hidden
        }
    }

    pub fn new() -> (c: Cell)
        ensures
            c == Cell::blank(),
    {
        Cell { is_mine: false, is_revealed: false, is_flagged: false, neighbor_mines: 0 }
    }

    /// Classifies the cell for display.
    pub fn classify(&self) -> (d: CellDisplay)
        ensures
            d == self.display(),
    {
        if self.is_revealed {
            if self.is_mine {
                CellDisplay::Mine
            } else if self.neighbor_mines == 0 {
                CellDisplay::Empty
            } else {
                CellDisplay::Number(self.neighbor_mines)
            }
        } else if self.is_flagged {
            CellDisplay::Flagged
        } else {
            CellDisplay::Hidden
        }
    }
}

} // verus!
