//! The executable board.

use vstd::prelude::*;
use crate::cell::{Cell, CellDisplay};
use crate::flood::{
    flood_inv, is_source, lemma_flood_done, lemma_flood_finished, lemma_flood_start,
    lemma_flood_step, lemma_flood_take, visited,
};
use crate::model::{adjacent, hidden, BoardView};

verus! {

/// The grid of a game and how the game stands.
#[derive(Debug)]
pub struct Board {
    pub(crate) width: usize,
    pub(crate) height: usize,
    pub(crate) mine_count: usize,
    pub(crate) cells: Vec<Cell>,
    pub(crate) game_over: bool,
    pub(crate) win: bool,
}

impl View for Board {
    type V = BoardView;

    open(crate) spec fn view(&self) -> BoardView {
        BoardView {
            width: self.width as nat,
            height: self.height as nat,
            mine_count: self.mine_count as nat,
            cells: self.cells@,
            game_over: self.game_over,
            win: self.win,
        }
    }
}

impl Board {
    /// The invariant that every board handed out satisfies.
    pub open spec fn wf(&self) -> bool {
        self@.wf()
    }

    pub fn width(&self) -> (w: usize)
        ensures
            w == self@.width,
    {
        self.width
    }

    pub fn height(&self) -> (h: usize)
        ensures
            h == self@.height,
    {
        self.height
    }

    pub fn mine_count(&self) -> (n: usize)
        ensures
            n == self@.mine_count,
    {
        self.mine_count
    }

    pub fn is_game_over(&self) -> (b: bool)
        ensures
            b == self@.game_over,
    {
        self.game_over
    }

    pub fn did_win(&self) -> (b: bool)
        ensures
            b == self@.win,
    {
        self.win
    }

    /// Whether `(x, y)` is a position of the grid.
    pub fn in_bounds(&self, x: isize, y: isize) -> (b: bool)
        ensures
            b == self@.in_bounds(x as int, y as int),
    {
        x >= 0 && y >= 0 && (x as usize) < self.width && (y as usize) < self.height
    }

    /// The cell at `(x, y)`, if that is a position of the grid.
    pub fn cell(&self, x: usize, y: usize) -> (c: Option<Cell>)
        requires
            self.wf(),
        ensures
            c == if self@.in_bounds(x as int, y as int) {
                Some(self@.at(x as int, y as int))
            } else {
                None
            },
    {
        if x < self.width && y < self.height {
            let i = self.index(x, y);
            Some(self.cells[i])
        } else {
            None
        }
    }

    /// What a renderer shows for the cell at `(x, y)`.
    pub fn cell_display(&self, x: usize, y: usize) -> (d: CellDisplay)
        requires
            self.wf(),
            self@.in_bounds(x as int, y as int),
        ensures
            d == self@.at(x as int, y as int).display(),
    {
        let i = self.index(x, y);
        self.cells[i].classify()
    }

    /// The text on the button of the cell at `(x, y)`.
    pub fn cell_label(&self, x: usize, y: usize) -> (s: String)
        requires
            self.wf(),
            self@.in_bounds(x as int, y as int),
        ensures
            s@ == self@.at(x as int, y as int).display().label(),
    {
        proof {
            self@.lemma_count_at_most_eight(x as int, y as int);
            reveal_strlit("\u{25A0}");
            reveal_strlit("\u{1F6A9}");
            reveal_strlit("\u{1F4A3}");
            reveal_strlit(" ");
            reveal_strlit("1");
            reveal_strlit("2");
            reveal_strlit("3");
            reveal_strlit("4");
            reveal_strlit("5");
            reveal_strlit("6");
            reveal_strlit("7");
            reveal_strlit("8");
        }
        let text = match self.cell_display(x, y) {
            CellDisplay::Hidden => "\u{25A0}",
            CellDisplay::Flagged => "\u{1F6A9}",
            CellDisplay::Mine => "\u{1F4A3}",
            CellDisplay::Empty => " ",
            CellDisplay::Number(1) => "1",
            CellDisplay::Number(2) => "2",
            CellDisplay::Number(3) => "3",
            CellDisplay::Number(4) => "4",
            CellDisplay::Number(5) => "5",
            CellDisplay::Number(6) => "6",
            CellDisplay::Number(7) => "7",
            CellDisplay::Number(_) => "8",
        };
        assert(text@ =~= self@.at(x as int, y as int).display().label());
        text.to_string()
    }

    /// The character for the cell at `(x, y)` in a text grid.
    pub fn cell_glyph(&self, x: usize, y: usize) -> (c: char)
        requires
            self.wf(),
            self@.in_bounds(x as int, y as int),
        ensures
            c == self@.at(x as int, y as int).display().glyph(),
    {
        proof {
            self@.lemma_count_at_most_eight(x as int, y as int);
        }
        match self.cell_display(x, y) {
            CellDisplay::Hidden => '#',
            CellDisplay::Flagged => 'F',
            CellDisplay::Mine => '*',
            CellDisplay::Empty => ' ',
            CellDisplay::Number(n) => (n + 48) as char,
        }
    }

    /// Where the cell at `(x, y)` lies in `cells`.
    pub(crate) fn index(&self, x: usize, y: usize) -> (i: usize)
        requires
            self@.shaped(),
            self@.in_bounds(x as int, y as int),
        ensures
            i == self@.index(x as int, y as int),
            i < self.cells.len(),
    {
        proof {
            self@.lemma_index_in_range(x as int, y as int);
            assert(0 <= y * self.width <= y * self.width + x) by (nonlinear_arith);
        }
        y * self.width + x
    }

    /// 1 where `(x, y)` is a cell that holds a mine, else 0.
    fn mine_at(&self, x: isize, y: isize) -> (n: u8)
        requires
            self@.shaped(),
        ensures
            n == self@.mine_indicator(x as int, y as int),
    {
        if self.in_bounds(x, y) {
            let i = self.index(x as usize, y as usize);
            if self.cells[i].is_mine {
                1
            } else {
                0
            }
        } else {
            0
        }
    }

    /// Counts the mines around `(x, y)`.
    fn count_adjacent_mines(&self, x: usize, y: usize) -> (n: u8)
        requires
            self@.shaped(),
            self@.in_bounds(x as int, y as int),
        ensures
            n == self@.adjacent_mines(x as int, y as int),
    {
        proof {
            self@.lemma_coordinates_small(x as int, y as int);
        }
        let xi = x as isize;
        let yi = y as isize;
        self.mine_at(xi - 1, yi - 1) + self.mine_at(xi, yi - 1) + self.mine_at(xi + 1, yi - 1)
            + self.mine_at(xi - 1, yi) + self.mine_at(xi + 1, yi) + self.mine_at(xi - 1, yi + 1)
            + self.mine_at(xi, yi + 1) + self.mine_at(xi + 1, yi + 1)
    }

    /// Sets the count of every cell: the number of mines around it, and 0 on
    /// a mine.
    pub fn compute_neighbor_counts(&mut self)
        requires
            old(self)@.shaped(),
        ensures
            final(self)@ == old(self)@.after_recount(),
            final(self)@.counts_ok(),
            old(self).wf() ==> final(self)@ == old(self)@,
    {
        let ghost before = self@;
        let mut y: usize = 0;
        while y < self.height
            invariant
                y <= self.height,
                before.shaped(),
                self@.cells.len() == before.cells.len(),
                self@ == (BoardView { cells: self@.cells, ..before }),
                forall|cx: int, cy: int|
                    before.in_bounds(cx, cy) ==> #[trigger] self@.at(cx, cy) == if cy < y {
                        before.counted(cx, cy)
                    } else {
                        before.at(cx, cy)
                    },
            decreases self.height - y,
        {
            let mut x: usize = 0;
            while x < self.width
                invariant
                    y < self.height,
                    x <= self.width,
                    before.shaped(),
                    self@.cells.len() == before.cells.len(),
                    self@ == (BoardView { cells: self@.cells, ..before }),
                    forall|cx: int, cy: int|
                        before.in_bounds(cx, cy) ==> #[trigger] self@.at(cx, cy) == if cy < y || (cy
                            == y && cx < x) {
                            before.counted(cx, cy)
                        } else {
                            before.at(cx, cy)
                        },
                decreases self.width - x,
            {
                let i = self.index(x, y);
                let count = if self.cells[i].is_mine {
                    0
                } else {
                    self.count_adjacent_mines(x, y)
                };
                proof {
                    assert(self@.at(x as int, y as int) == before.at(x as int, y as int));
                    assert(count == before.expected_count(x as int, y as int)) by {
                        before.lemma_same_mines_same_counts(self@, x as int, y as int);
                    }
                }
                let ghost prev = self@;
                self.cells[i].neighbor_mines = count;
                proof {
                    assert forall|cx: int, cy: int| before.in_bounds(cx, cy) implies #[trigger] self@.at(
                        cx,
                        cy,
                    ) == if cy < y || (cy == y && cx < x + 1) {
                        before.counted(cx, cy)
                    } else {
                        before.at(cx, cy)
                    } by {
                        before.lemma_index_in_range(cx, cy);
                        if cx != x || cy != y {
                            if before.index(cx, cy) == before.index(x as int, y as int) {
                                before.lemma_index_injective(cx, cy, x as int, y as int);
                            }
                            assert(self@.at(cx, cy) == prev.at(cx, cy));
                        }
                    }
                }
                x += 1;
            }
            y += 1;
        }
        proof {
            let target = before.after_recount();
            assert forall|i: int| 0 <= i < self@.cells.len() implies self@.cells[i]
                == target.cells[i] by {
                before.lemma_index_onto(i);
                let cx = i % (before.width as int);
                let cy = i / (before.width as int);
                assert(self@.at(cx, cy) == before.counted(cx, cy));
            }
            assert(self@.cells =~= target.cells);
            before.lemma_recount_counts_ok();
        }
    }

    /// One step of the flood: looks at `(nx, ny)`, a position around the
    /// source in hand, uncovers the cell there if it is hidden and unflagged,
    /// and puts it on the list if it carries the flood on.
    fn flood_visit(
        &mut self,
        nx: usize,
        ny: usize,
        work: &mut Vec<(usize, usize)>,
        Ghost(before): Ghost<BoardView>,
        Ghost(start): Ghost<(int, int)>,
        Ghost(source): Ghost<(int, int)>,
    )
        requires
            flood_inv(before, old(self)@, old(work)@, start.0, start.1, Some(source)),
            is_source(before, old(self)@, start.0, start.1, source.0, source.1),
            adjacent(source.0, source.1, nx as int, ny as int),
        ensures
            flood_inv(before, final(self)@, final(work)@, start.0, start.1, Some(source)),
            is_source(before, final(self)@, start.0, start.1, source.0, source.1),
            visited(before, final(self)@, nx as int, ny as int),
            forall|x: int, y: int| #[trigger]
                visited(before, old(self)@, x, y) ==> visited(before, final(self)@, x, y),
            hidden(final(self)@.cells) <= hidden(old(self)@.cells),
            hidden(final(self)@.cells) == hidden(old(self)@.cells) ==> final(work)@ == old(work)@,
    {
        if nx < self.width && ny < self.height {
            let i = self.index(nx, ny);
            let cell = self.cells[i];
            if !cell.is_revealed && !cell.is_flagged {
                proof {
                    lemma_flood_step(
                        before,
                        self@,
                        work@,
                        start.0,
                        start.1,
                        source.0,
                        source.1,
                        nx as int,
                        ny as int,
                    );
                }
                self.cells[i].is_revealed = true;
                if cell.neighbor_mines == 0 && !cell.is_mine {
                    work.push((nx, ny));
                }
            }
        }
    }

    /// Uncovers what a flood from `(x, y)` reaches: every hidden, unflagged
    /// cell around `(x, y)`, and on from each cell so uncovered that has no
    /// mine on it or around it. A flag stops the flood. The cell at `(x, y)`
    /// itself is not looked at, and `(x, y)` need not lie on the grid: what
    /// counts is which cells lie around it.
    pub fn flood_reveal(&mut self, x: usize, y: usize)
        requires
            old(self)@.shaped(),
        ensures
            final(self)@ == old(self)@.after_flood(x as int, y as int),
            old(self).wf() ==> final(self).wf(),
    {
        let ghost before = self@;
        let ghost start = (x as int, y as int);
        proof {
            before.lemma_flood_same_layout(x as int, y as int);
            if before.wf() {
                before.lemma_same_layout_wf(before.after_flood(x as int, y as int));
            }
            before.lemma_width_small();
        }
        if x > self.width || y > self.height {
            proof {
                before.lemma_flood_from_afar(x as int, y as int);
            }
            return ;
        }
        let mut work: Vec<(usize, usize)> = Vec::new();
        work.push((x, y));
        proof {
            lemma_flood_start(before, x as int, y as int);
            assert(work@ =~= seq![(x, y)]);
        }
        while work.len() > 0
            invariant
                flood_inv(before, self@, work@, start.0, start.1, None),
                0 <= start.0 <= before.width <= isize::MAX,
                0 <= start.1 <= before.height <= isize::MAX,
                self.width == before.width,
                self.height == before.height,
            decreases hidden(self@.cells), work.len(),
        {
            proof {
                lemma_flood_take(before, self@, work@, start.0, start.1);
            }
            let (cx, cy) = work.pop().unwrap();
            let ghost source = (cx as int, cy as int);
            let right = cx + 1;
            let below = cy + 1;
            if cy > 0 {
                let above = cy - 1;
                if cx > 0 {
                    self.flood_visit(cx - 1, above, &mut work, Ghost(before), Ghost(start), Ghost(source));
                }
                self.flood_visit(cx, above, &mut work, Ghost(before), Ghost(start), Ghost(source));
                self.flood_visit(right, above, &mut work, Ghost(before), Ghost(start), Ghost(source));
            }
            if cx > 0 {
                self.flood_visit(cx - 1, cy, &mut work, Ghost(before), Ghost(start), Ghost(source));
            }
            self.flood_visit(right, cy, &mut work, Ghost(before), Ghost(start), Ghost(source));
            if cx > 0 {
                self.flood_visit(cx - 1, below, &mut work, Ghost(before), Ghost(start), Ghost(source));
            }
            self.flood_visit(cx, below, &mut work, Ghost(before), Ghost(start), Ghost(source));
            self.flood_visit(right, below, &mut work, Ghost(before), Ghost(start), Ghost(source));
            proof {
                lemma_flood_done(before, self@, work@, start.0, start.1, source.0, source.1);
            }
        }
        proof {
            assert(work@ =~= Seq::empty());
            lemma_flood_finished(before, self@, start.0, start.1);
        }
    }

    /// Whether every cell without a mine is revealed.
    pub fn check_win(&self) -> (won: bool)
        ensures
            won == self@.all_safe_revealed(),
    {
        let mut i: usize = 0;
        while i < self.cells.len()
            invariant
                i <= self.cells.len(),
                forall|j: int|
                    0 <= j < i ==> (#[trigger] self.cells@[j]).is_mine || self.cells@[j].is_revealed,
            decreases self.cells.len() - i,
        {
            if !self.cells[i].is_mine && !self.cells[i].is_revealed {
                assert(!self@.cells[i as int].is_mine && !self@.cells[i as int].is_revealed);
                return false;
            }
            i += 1;
        }
        true
    }

    /// The player reveals `(x, y)`.
    ///
    /// Nothing happens where the game is over, `(x, y)` is outside the grid,
    /// or the cell is revealed or flagged. A mine ends the game as lost.
    /// Any other cell is uncovered, with a flood from it if no mine is around
    /// it, and the game is won once no cell without a mine is left hidden.
    pub fn reveal_cell(&mut self, x: usize, y: usize)
        requires
            old(self).wf(),
        ensures
            final(self).wf(),
            final(self)@ == old(self)@.after_reveal(x as int, y as int),
    {
        if self.game_over || x >= self.width || y >= self.height {
            return ;
        }
        let ghost before = self@;
        let i = self.index(x, y);
        let cell = self.cells[i];
        if cell.is_revealed || cell.is_flagged {
            return ;
        }
        self.cells[i].is_revealed = true;
        let ghost opened = self@;
        proof {
            assert(opened == before.with_cell(
                x as int,
                y as int,
                before.at(x as int, y as int).revealed(),
            ));
            assert(before.same_layout(opened));
        }
        if cell.is_mine {
            self.game_over = true;
            self.win = false;
            proof {
                before.lemma_same_layout_wf(self@);
            }
            return ;
        }
        if cell.neighbor_mines == 0 {
            self.flood_reveal(x, y);
            proof {
                opened.lemma_flood_same_layout(x as int, y as int);
            }
        }
        let ghost swept = self@;
        if self.check_win() {
            self.game_over = true;
            self.win = true;
        }
        proof {
            assert(before.same_layout(swept));
            before.lemma_same_layout_wf(self@);
        }
    }

    /// The player sets or takes the flag at `(x, y)`. Nothing happens where
    /// the game is over, `(x, y)` is outside the grid, or the cell is
    /// revealed.
    pub fn toggle_flag(&mut self, x: usize, y: usize)
        requires
            old(self).wf(),
        ensures
            final(self).wf(),
            final(self)@ == old(self)@.after_toggle_flag(x as int, y as int),
    {
        if self.game_over || x >= self.width || y >= self.height {
            return ;
        }
        let ghost before = self@;
        let i = self.index(x, y);
        if !self.cells[i].is_revealed {
            let flagged = self.cells[i].is_flagged;
            self.cells[i].is_flagged = !flagged;
            proof {
                before.lemma_same_layout_wf(self@);
            }
        }
    }

    /// Uncovers every cell for show, whatever it holds and whether or not it
    /// carries a flag. How the game stands is not looked at and not changed.
    pub fn reveal_all(&mut self)
        requires
            old(self).wf(),
        ensures
            final(self).wf(),
            final(self)@ == old(self)@.after_reveal_all(),
    {
        let ghost before = self@;
        let mut i: usize = 0;
        while i < self.cells.len()
            invariant
                i <= self.cells.len(),
                self@ == (BoardView { cells: self@.cells, ..before }),
                self@.cells.len() == before.cells.len(),
                forall|j: int|
                    0 <= j < self@.cells.len() ==> #[trigger] self@.cells[j] == if j < i {
                        before.cells[j].revealed()
                    } else {
                        before.cells[j]
                    },
            decreases self.cells.len() - i,
        {
            self.cells[i].is_revealed = true;
            i += 1;
        }
        proof {
            assert(self@.cells =~= before.after_reveal_all().cells);
            before.lemma_same_layout_wf(self@);
        }
    }
}

} // verus!
