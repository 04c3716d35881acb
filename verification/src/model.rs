//! The board as a mathematical value, and the rules of the game stated on it.

use vstd::prelude::*;
use crate::cell::Cell;

verus! {

/// What a board is: its size, its cells row by row, and how the game stands.
pub struct BoardView {
    pub width: nat,
    pub height: nat,
    pub mine_count: nat,
    /// The cell at column `x` of row `y` is `cells[y * width + x]`.
    pub cells: Seq<Cell>,
    pub game_over: bool,
    pub win: bool,
}

/// Number of mines in a sequence of cells.
pub open spec fn mines(cells: Seq<Cell>) -> nat
    decreases cells.len(),
{
    if cells.len() == 0 {
        0
    } else {
        mines(cells.drop_last()) + if cells.last().is_mine { 1nat } else { 0nat }
    }
}

/// Number of cells in a sequence that are not revealed.
pub open spec fn hidden(cells: Seq<Cell>) -> nat
    decreases cells.len(),
{
    if cells.len() == 0 {
        0
    } else {
        hidden(cells.drop_last()) + if cells.last().is_revealed { 0nat } else { 1nat }
    }
}

/// `(x2, y2)` is one of the eight positions around `(x1, y1)`.
pub open spec fn adjacent(x1: int, y1: int, x2: int, y2: int) -> bool {
    &&& -1 <= x2 - x1 <= 1
    &&& -1 <= y2 - y1 <= 1
    &&& !(x1 == x2 && y1 == y2)
}

/// `(x, y)` is on the list.
pub open spec fn listed(list: Seq<(usize, usize)>, x: int, y: int) -> bool {
    exists|k: int| 0 <= k < list.len() && (#[trigger] list[k]).0 == x && list[k].1 == y
}

/// The places in `cells` that the given draws put a mine on: each draw in
/// turn names a place, until `quota` places are named. A draw that names a
/// place a second time adds nothing. So these are the first `quota` distinct
/// draws, or all of them where there are fewer.
pub open spec fn drawn_places(draws: Seq<usize>, quota: nat) -> Set<int>
    decreases draws.len(),
{
    if draws.len() == 0 {
        Set::empty()
    } else {
        let before = drawn_places(draws.drop_last(), quota);
        if before.len() < quota {
            before.insert(draws.last() as int)
        } else {
            before
        }
    }
}

/// `b` is one of the eight positions around `a`.
pub open spec fn next_to(a: (int, int), b: (int, int)) -> bool {
    adjacent(a.0, a.1, b.0, b.1)
}

impl BoardView {
    /// `(x, y)` is a position of the grid.
    pub open spec fn in_bounds(self, x: int, y: int) -> bool {
        0 <= x < self.width && 0 <= y < self.height
    }

    /// Where the cell at column `x` of row `y` lies in `cells`.
    pub open spec fn index(self, x: int, y: int) -> int {
        y * self.width + x
    }

    /// The cell at column `x` of row `y`.
    pub open spec fn at(self, x: int, y: int) -> Cell {
        self.cells[self.index(x, y)]
    }

    /// The grid is not empty, `cells` holds exactly its rows, and every
    /// position can be reached with signed offsets.
    pub open spec fn shaped(self) -> bool {
        &&& self.width > 0
        &&& self.height > 0
        &&& self.cells.len() == self.width * self.height
        &&& self.cells.len() <= isize::MAX
    }

    /// 1 where `(x, y)` is a cell of the grid that holds a mine, else 0.
    pub open spec fn mine_indicator(self, x: int, y: int) -> int {
        if self.in_bounds(x, y) && self.at(x, y).is_mine {
            1
        } else {
            0
        }
    }

    /// Number of mines among the cells of the grid around `(x, y)`.
    pub open spec fn adjacent_mines(self, x: int, y: int) -> int {
        self.mine_indicator(x - 1, y - 1) + self.mine_indicator(x, y - 1)
            + self.mine_indicator(x + 1, y - 1) + self.mine_indicator(x - 1, y)
            + self.mine_indicator(x + 1, y) + self.mine_indicator(x - 1, y + 1)
            + self.mine_indicator(x, y + 1) + self.mine_indicator(x + 1, y + 1)
    }

    /// The count that the cell at `(x, y)` has to carry.
    pub open spec fn expected_count(self, x: int, y: int) -> int {
        if self.at(x, y).is_mine {
            0
        } else {
            self.adjacent_mines(x, y)
        }
    }

    /// Every cell carries the number of mines around it, a mine carries 0.
    pub open spec fn counts_ok(self) -> bool {
        forall|x: int, y: int|
            self.in_bounds(x, y) ==> (#[trigger] self.at(x, y)).neighbor_mines
                == self.expected_count(x, y)
    }

    /// The cell at `(x, y)` with its count set right.
    pub open spec fn counted(self, x: int, y: int) -> Cell {
        Cell { neighbor_mines: self.expected_count(x, y) as u8, ..self.at(x, y) }
    }

    /// This board with the count of every cell set right.
    pub open spec fn after_recount(self) -> BoardView {
        BoardView {
            cells: Seq::new(
                self.cells.len(),
                |i: int| self.counted(i % (self.width as int), i / (self.width as int)),
            ),
            ..self
        }
    }

    /// The invariant of a board: the grid has its shape, exactly `mine_count`
    /// cells hold a mine and at least one does not, the counts are right, and
    /// a win is a finished game.
    pub open spec fn wf(self) -> bool {
        &&& self.shaped()
        &&& mines(self.cells) == self.mine_count
        &&& self.mine_count < self.cells.len()
        &&& self.counts_ok()
        &&& (self.win ==> self.game_over)
    }

    /// The flood may uncover the cell at `(x, y)`: it is hidden and carries
    /// no flag.
    pub open spec fn floodable(self, x: int, y: int) -> bool {
        &&& self.in_bounds(x, y)
        &&& !self.at(x, y).is_revealed
        &&& !self.at(x, y).is_flagged
    }

    /// Once uncovered, the cell at `(x, y)` carries the flood on: the flood
    /// may uncover it, and there is no mine on it or around it.
    pub open spec fn spreads(self, x: int, y: int) -> bool {
        &&& self.floodable(x, y)
        &&& !self.at(x, y).is_mine
        &&& self.at(x, y).neighbor_mines == 0
    }

    /// `p` is a way the flood takes: at least two positions, each next to the
    /// one before it; the flood may uncover every one after the first, and
    /// every one between the first and the last carries it on.
    pub open spec fn flood_path(self, p: Seq<(int, int)>) -> bool {
        &&& p.len() >= 2
        &&& forall|i: int, j: int|
            0 <= i && j == i + 1 && j < p.len() ==> next_to(#[trigger] p[i], #[trigger] p[j])
        &&& forall|i: int| 0 < i < p.len() ==> self.floodable((#[trigger] p[i]).0, p[i].1)
        &&& forall|i: int| 0 < i < p.len() - 1 ==> self.spreads((#[trigger] p[i]).0, p[i].1)
    }

    /// A flood that starts at `(x0, y0)` uncovers the cell at `(x, y)`.
    pub open spec fn flood_reaches(self, x0: int, y0: int, x: int, y: int) -> bool {
        exists|p: Seq<(int, int)>|
            #[trigger] self.flood_path(p) && p[0] == (x0, y0) && p.last() == (x, y)
    }

    /// The board after a flood from `(x0, y0)`: every cell that the flood
    /// reaches is revealed, and nothing else has changed. The start need not
    /// lie on the grid; the flood reaches the cells around it that do.
    pub open spec fn after_flood(self, x0: int, y0: int) -> BoardView {
        BoardView {
            cells: Seq::new(
                self.cells.len(),
                |i: int|
                    if self.flood_reaches(
                        x0,
                        y0,
                        i % (self.width as int),
                        i / (self.width as int),
                    ) {
                        self.cells[i].revealed()
                    } else {
                        self.cells[i]
                    },
            ),
            ..self
        }
    }

    /// A flood that starts more than one step off the grid reaches nothing.
    pub proof fn lemma_flood_from_afar(self, x0: int, y0: int)
        requires
            x0 < -1 || x0 > self.width || y0 < -1 || y0 > self.height,
        ensures
            forall|x: int, y: int| !self.flood_reaches(x0, y0, x, y),
            self.after_flood(x0, y0) == self,
    {
        assert forall|x: int, y: int| !self.flood_reaches(x0, y0, x, y) by {
            if self.flood_reaches(x0, y0, x, y) {
                let p = choose|p: Seq<(int, int)>|
                    #[trigger] self.flood_path(p) && p[0] == (x0, y0) && p.last() == (x, y);
                assert(next_to(p[0], p[1]));
                assert(self.floodable(p[1].0, p[1].1));
            }
        }
        assert(self.after_flood(x0, y0).cells =~= self.cells);
    }

    /// Every cell without a mine is revealed.
    pub open spec fn all_safe_revealed(self) -> bool {
        forall|i: int|
            0 <= i < self.cells.len() ==> (#[trigger] self.cells[i]).is_mine
                || self.cells[i].is_revealed
    }

    /// No cell is revealed or flagged, and the game is on.
    pub open spec fn fresh(self) -> bool {
        &&& !self.game_over
        &&& !self.win
        &&& forall|i: int|
            0 <= i < self.cells.len() ==> !(#[trigger] self.cells[i]).is_revealed
                && !self.cells[i].is_flagged
    }

    /// The board after a draw of `idx`: a mine lies on the cell at place
    /// `idx` of `cells`, which is the position `(idx % width, idx / width)`,
    /// and nothing else has changed.
    pub open spec fn after_draw(self, idx: int) -> BoardView {
        self.with_cell(
            idx % (self.width as int),
            idx / (self.width as int),
            self.cells[idx].mined(),
        )
    }

    /// This board with the cell at `(x, y)` replaced.
    pub open spec fn with_cell(self, x: int, y: int, c: Cell) -> BoardView {
        BoardView { cells: self.cells.update(self.index(x, y), c), ..self }
    }

    /// A reveal at `(x, y)` takes effect: the game is on, and the cell there
    /// is hidden and carries no flag.
    pub open spec fn can_reveal(self, x: int, y: int) -> bool {
        !self.game_over && self.floodable(x, y)
    }

    /// The board after the player reveals `(x, y)`.
    ///
    /// Where the reveal takes no effect, nothing changes. On a mine the cell
    /// is uncovered and the game is lost. Otherwise the cell is uncovered,
    /// a flood starts from it if no mine is around it, and the game is won
    /// if that leaves no cell without a mine hidden.
    pub open spec fn after_reveal(self, x: int, y: int) -> BoardView {
        if !self.can_reveal(x, y) {
            self
        } else {
            let opened = self.with_cell(x, y, self.at(x, y).revealed());
            if self.at(x, y).is_mine {
                BoardView { game_over: true, win: false, ..opened }
            } else {
                let swept = if self.at(x, y).neighbor_mines == 0 {
                    opened.after_flood(x, y)
                } else {
                    opened
                };
                if swept.all_safe_revealed() {
                    BoardView { game_over: true, win: true, ..swept }
                } else {
                    swept
                }
            }
        }
    }

    /// A flag can be set or taken at `(x, y)`: the game is on, and the cell
    /// there is hidden.
    pub open spec fn can_flag(self, x: int, y: int) -> bool {
        !self.game_over && self.in_bounds(x, y) && !self.at(x, y).is_revealed
    }

    /// The board after the player toggles the flag at `(x, y)`.
    pub open spec fn after_toggle_flag(self, x: int, y: int) -> BoardView {
        if self.can_flag(x, y) {
            self.with_cell(x, y, self.at(x, y).flag_toggled())
        } else {
            self
        }
    }

    /// The board with every cell uncovered, for show: flags and mines stay
    /// where they are, and the game stands as it stood.
    pub open spec fn after_reveal_all(self) -> BoardView {
        BoardView {
            cells: Seq::new(self.cells.len(), |i: int| self.cells[i].revealed()),
            ..self
        }
    }

    /// A way of the flood that ends on a cell which carries it on goes on to
    /// every cell around that one which the flood may uncover.
    pub proof fn lemma_path_extends(self, p: Seq<(int, int)>, x: int, y: int)
        requires
            self.flood_path(p),
            self.spreads(p.last().0, p.last().1),
            adjacent(p.last().0, p.last().1, x, y),
            self.floodable(x, y),
        ensures
            self.flood_path(p.push((x, y))),
            self.flood_reaches(p[0].0, p[0].1, x, y),
    {
        let q = p.push((x, y));
        assert forall|i: int, j: int| 0 <= i && j == i + 1 && j < q.len() implies next_to(
            #[trigger] q[i],
            #[trigger] q[j],
        ) by {
            if j < p.len() {
                assert(next_to(p[i], p[j]));
            }
        }
        assert forall|i: int| 0 < i < q.len() implies self.floodable((#[trigger] q[i]).0, q[i].1) by {
            if i < p.len() {
                assert(self.floodable(p[i].0, p[i].1));
            }
        }
        assert forall|i: int| 0 < i < q.len() - 1 implies self.spreads((#[trigger] q[i]).0, q[i].1) by {
            if i < p.len() - 1 {
                assert(self.spreads(p[i].0, p[i].1));
            }
        }
        assert(self.flood_path(q));
        assert(q[0] == (p[0].0, p[0].1) && q.last() == (x, y));
    }

    /// A way of the flood of more than two positions, cut short by its last,
    /// is a way of the flood, and it ends on a cell that carries the flood on.
    pub proof fn lemma_path_front(self, p: Seq<(int, int)>)
        requires
            self.flood_path(p),
            p.len() > 2,
        ensures
            self.flood_path(p.drop_last()),
            self.spreads(p.drop_last().last().0, p.drop_last().last().1),
            next_to(p.drop_last().last(), p.last()),
    {
        let front = p.drop_last();
        assert forall|i: int, j: int| 0 <= i && j == i + 1 && j < front.len() implies next_to(
            #[trigger] front[i],
            #[trigger] front[j],
        ) by {
            assert(next_to(p[i], p[j]));
        }
        assert forall|i: int| 0 < i < front.len() implies self.floodable(
            (#[trigger] front[i]).0,
            front[i].1,
        ) by {
            assert(self.floodable(p[i].0, p[i].1));
        }
        assert forall|i: int| 0 < i < front.len() - 1 implies self.spreads(
            (#[trigger] front[i]).0,
            front[i].1,
        ) by {
            assert(self.spreads(p[i].0, p[i].1));
        }
        assert(self.spreads(p[p.len() - 2].0, p[p.len() - 2].1));
        assert(next_to(p[p.len() - 2], p[p.len() - 1]));
    }

    /// Two boards that differ in their cells at most.
    pub open spec fn same_grid(self, other: BoardView) -> bool {
        &&& self == (BoardView { cells: self.cells, ..other })
        &&& self.cells.len() == other.cells.len()
    }

    /// Two boards of one size with the mines in the same places and the same
    /// counts on the cells.
    pub open spec fn same_layout(self, other: BoardView) -> bool {
        &&& self.width == other.width
        &&& self.height == other.height
        &&& self.mine_count == other.mine_count
        &&& self.cells.len() == other.cells.len()
        &&& forall|i: int|
            0 <= i < self.cells.len() ==> (#[trigger] other.cells[i]).is_mine
                == self.cells[i].is_mine && other.cells[i].neighbor_mines
                == self.cells[i].neighbor_mines
    }

    /// The invariant looks at the layout and at how the game stands, not at
    /// what is revealed or flagged.
    pub proof fn lemma_same_layout_wf(self, other: BoardView)
        requires
            self.wf(),
            self.same_layout(other),
            other.win ==> other.game_over,
        ensures
            other.wf(),
    {
        crate::counting::lemma_mines_same(self.cells, other.cells);
        assert forall|x: int, y: int| self.in_bounds(x, y) implies (#[trigger] other.at(
            x,
            y,
        )).is_mine == self.at(x, y).is_mine && other.at(x, y).neighbor_mines == self.at(
            x,
            y,
        ).neighbor_mines by {
            self.lemma_index_in_range(x, y);
        }
        assert forall|x: int, y: int| other.in_bounds(x, y) implies (#[trigger] other.at(
            x,
            y,
        )).neighbor_mines == other.expected_count(x, y) by {
            self.lemma_same_mines_same_counts(other, x, y);
            assert(self.at(x, y).neighbor_mines == self.expected_count(x, y));
        }
    }

    /// A flood changes nothing but what is revealed.
    pub proof fn lemma_flood_same_layout(self, x0: int, y0: int)
        ensures
            self.same_layout(self.after_flood(x0, y0)),
            self.after_flood(x0, y0).game_over == self.game_over,
            self.after_flood(x0, y0).win == self.win,
    {
    }

    /// On a board with its invariant no cell carries a count above 8.
    pub proof fn lemma_count_at_most_eight(self, x: int, y: int)
        requires
            self.wf(),
            self.in_bounds(x, y),
        ensures
            self.at(x, y).neighbor_mines <= 8,
    {
        assert(self.at(x, y).neighbor_mines == self.expected_count(x, y));
    }

    /// The counts depend on nothing but where the mines are.
    pub proof fn lemma_same_mines_same_counts(self, other: BoardView, x: int, y: int)
        requires
            self.width == other.width,
            self.height == other.height,
            forall|cx: int, cy: int|
                self.in_bounds(cx, cy) ==> (#[trigger] other.at(cx, cy)).is_mine == self.at(
                    cx,
                    cy,
                ).is_mine,
        ensures
            self.adjacent_mines(x, y) == other.adjacent_mines(x, y),
            self.in_bounds(x, y) ==> self.expected_count(x, y) == other.expected_count(x, y),
    {
    }

    /// After a recount every count is right.
    pub proof fn lemma_recount_counts_ok(self)
        requires
            self.shaped(),
        ensures
            self.after_recount().counts_ok(),
            self.after_recount().shaped(),
            mines(self.after_recount().cells) == mines(self.cells),
            self.counts_ok() ==> self.after_recount() == self,
            forall|x: int, y: int|
                self.in_bounds(x, y) ==> #[trigger] self.after_recount().at(x, y) == self.counted(
                    x,
                    y,
                ),
            forall|i: int|
                0 <= i < self.cells.len() ==> {
                    let c = #[trigger] self.after_recount().cells[i];
                    &&& c.is_mine == self.cells[i].is_mine
                    &&& c.is_revealed == self.cells[i].is_revealed
                    &&& c.is_flagged == self.cells[i].is_flagged
                },
    {
        let r = self.after_recount();
        assert forall|i: int| 0 <= i < self.cells.len() implies {
            let c = #[trigger] r.cells[i];
            &&& c.is_mine == self.cells[i].is_mine
            &&& c.is_revealed == self.cells[i].is_revealed
            &&& c.is_flagged == self.cells[i].is_flagged
        } by {
            self.lemma_index_onto(i);
        }
        assert forall|cx: int, cy: int| self.in_bounds(cx, cy) implies #[trigger] r.at(cx, cy)
            == self.counted(cx, cy) by {
            self.lemma_index_in_range(cx, cy);
            let i = self.index(cx, cy);
            self.lemma_index_onto(i);
            self.lemma_index_injective(cx, cy, i % (self.width as int), i / (self.width as int));
        }
        assert forall|cx: int, cy: int| r.in_bounds(cx, cy) implies (#[trigger] r.at(
            cx,
            cy,
        )).neighbor_mines == r.expected_count(cx, cy) by {
            self.lemma_same_mines_same_counts(r, cx, cy);
            assert(0 <= self.adjacent_mines(cx, cy) <= 8);
        }
        assert forall|i: int| 0 <= i < self.cells.len() implies (#[trigger] self.cells[i]).is_mine
            == r.cells[i].is_mine by {
            self.lemma_index_onto(i);
        }
        crate::counting::lemma_mines_same(self.cells, r.cells);
        if self.counts_ok() {
            assert forall|i: int| 0 <= i < self.cells.len() implies self.cells[i] == r.cells[i] by {
                self.lemma_index_onto(i);
                let cx = i % (self.width as int);
                let cy = i / (self.width as int);
                assert(self.at(cx, cy).neighbor_mines == self.expected_count(cx, cy));
            }
            assert(self.cells =~= r.cells);
        }
    }

    /// A position of the grid has its place in `cells`.
    pub proof fn lemma_index_in_range(self, x: int, y: int)
        requires
            self.shaped(),
            self.in_bounds(x, y),
        ensures
            0 <= self.index(x, y) < self.cells.len(),
    {
        let w = self.width as int;
        let h = self.height as int;
        assert(0 <= y * w + x < w * h) by (nonlinear_arith)
            requires
                0 <= x < w,
                0 <= y < h,
        ;
    }

    /// Neither coordinate of a position of the grid reaches the number of
    /// cells.
    pub proof fn lemma_coordinates_small(self, x: int, y: int)
        requires
            self.shaped(),
            self.in_bounds(x, y),
        ensures
            x < self.cells.len(),
            y < self.cells.len(),
    {
        let w = self.width as int;
        let h = self.height as int;
        assert(w <= w * h && h <= w * h) by (nonlinear_arith)
            requires
                w >= 1,
                h >= 1,
        ;
    }

    /// Width and height are no more than the number of cells.
    pub proof fn lemma_width_small(self)
        requires
            self.shaped(),
        ensures
            self.width <= self.cells.len(),
            self.height <= self.cells.len(),
    {
        let w = self.width as int;
        let h = self.height as int;
        assert(w <= w * h && h <= w * h) by (nonlinear_arith)
            requires
                w >= 1,
                h >= 1,
        ;
    }

    /// Two positions of the grid with one place in `cells` are one position.
    pub proof fn lemma_index_injective(self, x1: int, y1: int, x2: int, y2: int)
        requires
            self.in_bounds(x1, y1),
            self.in_bounds(x2, y2),
            self.index(x1, y1) == self.index(x2, y2),
        ensures
            x1 == x2,
            y1 == y2,
    {
        let w = self.width as int;
        assert(y1 == y2) by (nonlinear_arith)
            requires
                0 <= x1 < w,
                0 <= x2 < w,
                y1 * w + x1 == y2 * w + x2,
        ;
        assert(y1 * w == y2 * w);
    }

    /// Every place in `cells` is a position of the grid.
    pub proof fn lemma_index_onto(self, i: int)
        requires
            self.shaped(),
            0 <= i < self.cells.len(),
        ensures
            self.in_bounds(i % (self.width as int), i / (self.width as int)),
            self.index(i % (self.width as int), i / (self.width as int)) == i,
    {
        let w = self.width as int;
        let h = self.height as int;
        vstd::arithmetic::div_mod::lemma_fundamental_div_mod(i, w);
        vstd::arithmetic::div_mod::lemma_mod_bound(i, w);
        assert(w * (i / w) == (i / w) * w) by (nonlinear_arith);
        assert(0 <= i / w < h) by (nonlinear_arith)
            requires
                0 <= i < w * h,
                w > 0,
                i == w * (i / w) + i % w,
                0 <= i % w < w,
        ;
    }
}

} // verus!
