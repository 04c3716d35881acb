//! Building a board: the grid, the mines, the counts.

use rand::rngs::ThreadRng;
use vstd::prelude::*;
use crate::board::Board;
use crate::cell::Cell;
use crate::counting::{
    lemma_drawn_places_bound, lemma_drawn_places_take, lemma_mines_bound, lemma_mines_take,
    lemma_mines_update,
};
use crate::error::{config_error, draws_error, grid_error, layout_error, BoardError};
use crate::model::{drawn_places, listed, mines, BoardView};
use crate::random::{draw_below, local_rng};

verus! {

/// How many draws in a row may land on a mine before the next place is
/// drawn among the free cells alone. Without such a bound nothing would say
/// that placing the mines comes to an end.
pub const REDRAW_LIMIT: usize = 64;

/// The mines of the board lie exactly at the places that the draws name.
pub open spec fn mines_where_drawn(b: BoardView, places: Set<int>) -> bool {
    forall|i: int| 0 <= i < b.cells.len() ==> ((#[trigger] b.cells[i]).is_mine <==> places.contains(i))
}

/// Every cell is blank but for mines.
pub open spec fn only_mines(cells: Seq<Cell>) -> bool {
    forall|i: int|
        0 <= i < cells.len() ==> #[trigger] cells[i] == Cell::blank() || cells[i]
            == Cell::blank().mined()
}

/// The mines of the board lie exactly at the listed positions.
pub open spec fn mines_where_listed(b: BoardView, list: Seq<(usize, usize)>) -> bool {
    forall|x: int, y: int|
        b.in_bounds(x, y) ==> ((#[trigger] b.at(x, y)).is_mine <==> listed(list, x, y))
}

/// A mine put at the place that a draw names keeps the mines where the draws
/// say, and the place counts once.
proof fn lemma_one_more_drawn(prev: BoardView, next: BoardView, places: Set<int>, idx: int)
    requires
        places.finite(),
        mines_where_drawn(prev, places),
        0 <= idx < prev.cells.len(),
        next.cells == prev.cells.update(idx, prev.cells[idx].mined()),
    ensures
        mines_where_drawn(next, places.insert(idx)),
        places.insert(idx).len() == places.len() + if prev.cells[idx].is_mine {
            0nat
        } else {
            1nat
        },
{
    assert(prev.cells[idx].is_mine <==> places.contains(idx));
    assert forall|i: int| 0 <= i < next.cells.len() implies ((#[trigger] next.cells[i]).is_mine
        <==> places.insert(idx).contains(i)) by {
        if i != idx {
            assert(next.cells[i] == prev.cells[i]);
        }
    }
}

/// A grid without mines has them where an empty list says.
proof fn lemma_none_listed(b: BoardView, list: Seq<(usize, usize)>)
    requires
        b.shaped(),
        mines(b.cells) == 0,
    ensures
        mines_where_listed(b, list.take(0)),
{
    lemma_mines_bound(b.cells);
    assert forall|x: int, y: int| b.in_bounds(x, y) implies ((#[trigger] b.at(x, y)).is_mine
        <==> listed(list.take(0), x, y)) by {
        b.lemma_index_in_range(x, y);
    }
}

/// A mine put at the next listed position keeps the mines where the list,
/// one entry longer, says.
proof fn lemma_one_more_listed(
    prev: BoardView,
    next: BoardView,
    list: Seq<(usize, usize)>,
    k: int,
)
    requires
        prev.shaped(),
        0 <= k < list.len(),
        prev.in_bounds(list[k].0 as int, list[k].1 as int),
        mines_where_listed(prev, list.take(k)),
        next == prev.with_cell(
            list[k].0 as int,
            list[k].1 as int,
            prev.at(list[k].0 as int, list[k].1 as int).mined(),
        ),
    ensures
        mines_where_listed(next, list.take(k + 1)),
{
    let shorter = list.take(k);
    let longer = list.take(k + 1);
    let x = list[k].0 as int;
    let y = list[k].1 as int;
    prev.lemma_index_in_range(x, y);
    assert forall|cx: int, cy: int| next.in_bounds(cx, cy) implies ((#[trigger] next.at(
        cx,
        cy,
    )).is_mine <==> listed(longer, cx, cy)) by {
        prev.lemma_index_in_range(cx, cy);
        if listed(shorter, cx, cy) {
            let j = choose|j: int|
                0 <= j < shorter.len() && (#[trigger] shorter[j]).0 == cx && shorter[j].1 == cy;
            assert(longer[j] == shorter[j]);
        }
        if cx == x && cy == y {
            assert(longer[k].0 == cx && longer[k].1 == cy);
        } else {
            if prev.index(cx, cy) == prev.index(x, y) {
                prev.lemma_index_injective(cx, cy, x, y);
            }
            assert(next.at(cx, cy) == prev.at(cx, cy));
            if listed(longer, cx, cy) {
                let j = choose|j: int|
                    0 <= j < longer.len() && (#[trigger] longer[j]).0 == cx && longer[j].1 == cy;
                assert(shorter[j] == longer[j]);
            }
        }
    }
}

/// Every cell holds a mine exactly where every position is listed.
proof fn lemma_full_iff_all_listed(b: BoardView, list: Seq<(usize, usize)>)
    requires
        b.shaped(),
        mines_where_listed(b, list),
    ensures
        mines(b.cells) <= b.cells.len(),
        mines(b.cells) == b.cells.len() <==> forall|x: int, y: int|
            0 <= x < b.width && 0 <= y < b.height ==> #[trigger] listed(list, x, y),
{
    lemma_mines_bound(b.cells);
    if mines(b.cells) == b.cells.len() {
        assert forall|x: int, y: int| 0 <= x < b.width && 0 <= y < b.height implies #[trigger] listed(
            list,
            x,
            y,
        ) by {
            b.lemma_index_in_range(x, y);
            assert(b.at(x, y).is_mine);
        }
    } else {
        let i = choose|i: int| 0 <= i < b.cells.len() && !(#[trigger] b.cells[i]).is_mine;
        b.lemma_index_onto(i);
        let x = i % (b.width as int);
        let y = i / (b.width as int);
        assert(!b.at(x, y).is_mine);
        assert(!listed(list, x, y));
    }
}

impl Board {
    /// Puts a mine at `(x, y)`, and says whether none was there.
    fn set_mine(&mut self, x: usize, y: usize) -> (added: bool)
        requires
            old(self)@.shaped(),
            old(self)@.in_bounds(x as int, y as int),
            only_mines(old(self)@.cells),
        ensures
            final(self)@ == old(self)@.with_cell(
                x as int,
                y as int,
                old(self)@.at(x as int, y as int).mined(),
            ),
            final(self)@.same_grid(old(self)@),
            added == !old(self)@.at(x as int, y as int).is_mine,
            mines(final(self)@.cells) == mines(old(self)@.cells) + if added {
                1nat
            } else {
                0nat
            },
            mines(final(self)@.cells) <= final(self)@.cells.len(),
            only_mines(final(self)@.cells),
    {
        let i = self.index(x, y);
        let added = !self.cells[i].is_mine;
        proof {
            lemma_mines_update(self@.cells, i as int, self@.cells[i as int].mined());
        }
        self.cells[i].is_mine = true;
        proof {
            lemma_mines_bound(self@.cells);
        }
        added
    }

    /// A grid of blank cells.
    fn blank(width: usize, height: usize) -> (r: Result<Board, BoardError>)
        ensures
            match r {
                Ok(b) => {
                    &&& grid_error(width as int, height as int) is None
                    &&& b@.shaped()
                    &&& b@.width == width
                    &&& b@.height == height
                    &&& b@.mine_count == 0
                    &&& !b@.game_over
                    &&& !b@.win
                    &&& forall|i: int|
                        0 <= i < b@.cells.len() ==> #[trigger] b@.cells[i] == Cell::blank()
                },
                Err(e) => grid_error(width as int, height as int) == Some(e),
            },
    {
        if width == 0 || height == 0 {
            return Err(BoardError::EmptyGrid);
        }
        let total = match width.checked_mul(height) {
            Some(total) => total,
            None => {
                return Err(BoardError::TooLarge);
            },
        };
        if total > isize::MAX as usize {
            return Err(BoardError::TooLarge);
        }
        let cells = vec![Cell::new(); total];
        Ok(Board { width, height, mine_count: 0, cells, game_over: false, win: false })
    }

    /// The free cell with exactly `rank` free cells before it.
    fn nth_free_cell(&self, rank: usize) -> (i: usize)
        requires
            rank + mines(self@.cells) < self@.cells.len(),
        ensures
            i < self@.cells.len(),
            !self@.cells[i as int].is_mine,
            i - mines(self@.cells.take(i as int)) == rank,
    {
        let mut i: usize = 0;
        let mut free: usize = 0;
        while i < self.cells.len()
            invariant
                i <= self.cells.len(),
                free + mines(self@.cells.take(i as int)) == i,
                free <= rank,
                rank + mines(self@.cells) < self@.cells.len(),
            decreases self.cells.len() - i,
        {
            proof {
                lemma_mines_take(self@.cells, i as int);
            }
            if !self.cells[i].is_mine {
                if free == rank {
                    return i;
                }
                free += 1;
            }
            i += 1;
        }
        proof {
            // Not reached: the grid holds more than `rank` free cells.
            assert(self@.cells.take(i as int) =~= self@.cells);
        }
        0
    }

    /// A free cell drawn among the free cells alone: one draw below their
    /// number gives the rank of the cell.
    fn draw_free_cell(&self, rng: &mut ThreadRng, placed: usize) -> (idx: usize)
        requires
            placed == mines(self@.cells),
            placed < self@.cells.len(),
        ensures
            idx < self@.cells.len(),
            !self@.cells[idx as int].is_mine,
    {
        let rank = draw_below(rng, self.cells.len() - placed);
        self.nth_free_cell(rank)
    }

    /// Takes one draw: puts a mine on the cell at place `idx` of the grid,
    /// which is the position `(idx % width, idx / width)`, and says whether
    /// none was there. A draw that lands on a mine changes nothing.
    ///
    /// This is the step of mine placement, for a grid that is being laid
    /// out: every cell is blank but for the mines put so far, and the counts
    /// are not yet set.
    pub fn place_drawn(&mut self, idx: usize) -> (added: bool)
        requires
            old(self)@.shaped(),
            idx < old(self)@.cells.len(),
            only_mines(old(self)@.cells),
        ensures
            final(self)@ == old(self)@.after_draw(idx as int),
            final(self)@.cells == old(self)@.cells.update(
                idx as int,
                old(self)@.cells[idx as int].mined(),
            ),
            added == !old(self)@.cells[idx as int].is_mine,
            mines(final(self)@.cells) == mines(old(self)@.cells) + if added {
                1nat
            } else {
                0nat
            },
            only_mines(final(self)@.cells),
    {
        let x = idx % self.width;
        let y = idx / self.width;
        proof {
            self@.lemma_index_onto(idx as int);
        }
        self.set_mine(x, y)
    }

    /// Puts `mine_count` mines on a grid that has none. Each draw over the
    /// whole grid goes to `place_drawn`, and a draw that lands on a mine is
    /// made again. After `REDRAW_LIMIT` such draws in a row the next place is
    /// drawn among the free cells alone.
    fn place_mines(&mut self)
        requires
            old(self)@.shaped(),
            mines(old(self)@.cells) == 0,
            old(self)@.mine_count < old(self)@.cells.len(),
            only_mines(old(self)@.cells),
        ensures
            final(self)@.same_grid(old(self)@),
            mines(final(self)@.cells) == old(self)@.mine_count,
            only_mines(final(self)@.cells),
    {
        let ghost before = self@;
        let total = self.cells.len();
        let mut rng = local_rng();
        let mut placed: usize = 0;
        let mut redraws: usize = REDRAW_LIMIT;
        while placed < self.mine_count
            invariant
                before.shaped(),
                self@.same_grid(before),
                total == before.cells.len(),
                before.mine_count < before.cells.len(),
                placed == mines(self@.cells),
                placed <= self.mine_count,
                only_mines(self@.cells),
            decreases self.mine_count - placed, redraws,
        {
            let idx = if redraws > 0 {
                draw_below(&mut rng, total)
            } else {
                self.draw_free_cell(&mut rng, placed)
            };
            if self.place_drawn(idx) {
                placed += 1;
                redraws = REDRAW_LIMIT;
            } else {
                redraws -= 1;
            }
        }
    }

    /// A new game on a grid of `width` by `height` cells, `mine_count` of
    /// which hold a mine, at places chosen at random. No cell is revealed or
    /// flagged.
    ///
    /// The grid must have a cell and `mine_count` must be below the number
    /// of cells, which must fit in `isize`; otherwise the error says what is
    /// wrong.
    pub fn new(width: usize, height: usize, mine_count: usize) -> (r: Result<Board, BoardError>)
        ensures
            match r {
                Ok(b) => {
                    &&& config_error(width as int, height as int, mine_count as int) is None
                    &&& b.wf()
                    &&& b@.width == width
                    &&& b@.height == height
                    &&& b@.mine_count == mine_count
                    &&& b@.fresh()
                },
                Err(e) => config_error(width as int, height as int, mine_count as int) == Some(e),
            },
    {
        let mut board = match Board::blank(width, height) {
            Ok(board) => board,
            Err(e) => {
                return Err(e);
            },
        };
        if mine_count >= board.cells.len() {
            return Err(BoardError::TooManyMines);
        }
        board.mine_count = mine_count;
        proof {
            lemma_mines_bound(board@.cells);
        }
        board.place_mines();
        proof {
            board@.lemma_recount_counts_ok();
        }
        board.compute_neighbor_counts();
        Ok(board)
    }

    /// A new game on a grid of `width` by `height` cells whose `mine_count`
    /// mines lie where the given draws put them: each draw in turn goes to
    /// `place_drawn`, until `mine_count` mines lie. So the mines are at the
    /// first `mine_count` distinct draws, the draw `idx` standing for the
    /// position `(idx % width, idx / width)`. No cell is revealed or flagged.
    ///
    /// Besides what `new` asks of the grid and of `mine_count`, every draw
    /// must be below the number of cells, and the draws must hold
    /// `mine_count` distinct values; otherwise the error says what is wrong.
    pub fn from_draws(width: usize, height: usize, mine_count: usize, draws: &[usize]) -> (r:
        Result<Board, BoardError>)
        ensures
            match r {
                Ok(b) => {
                    &&& draws_error(width as int, height as int, mine_count as int, draws@) is None
                    &&& b.wf()
                    &&& b@.width == width
                    &&& b@.height == height
                    &&& b@.mine_count == mine_count
                    &&& b@.fresh()
                    &&& mines_where_drawn(b@, drawn_places(draws@, mine_count as nat))
                },
                Err(e) => draws_error(width as int, height as int, mine_count as int, draws@)
                    == Some(e),
            },
    {
        let mut board = match Board::blank(width, height) {
            Ok(board) => board,
            Err(e) => {
                return Err(e);
            },
        };
        if mine_count >= board.cells.len() {
            return Err(BoardError::TooManyMines);
        }
        board.mine_count = mine_count;
        let ghost empty = board@;
        let ghost quota = mine_count as nat;
        let mut placed: usize = 0;
        let mut k: usize = 0;
        proof {
            lemma_mines_bound(board@.cells);
        }
        while k < draws.len()
            invariant
                k <= draws.len(),
                empty.shaped(),
                board@.same_grid(empty),
                empty.cells.len() == width * height,
                placed == mines(board@.cells),
                placed == drawn_places(draws@.take(k as int), quota).len(),
                placed <= mine_count,
                only_mines(board@.cells),
                quota == mine_count,
                config_error(width as int, height as int, mine_count as int) is None,
                forall|j: int| 0 <= j < k ==> (#[trigger] draws@[j]) < width * height,
                mines_where_drawn(board@, drawn_places(draws@.take(k as int), quota)),
            decreases draws.len() - k,
        {
            let idx = draws[k];
            if idx >= board.cells.len() {
                assert(draws@[k as int] >= width * height);
                return Err(BoardError::DrawOutOfRange);
            }
            let ghost prev = board@;
            proof {
                lemma_drawn_places_take(draws@, quota, k as int);
                lemma_drawn_places_bound(draws@.take(k as int), quota);
                if placed < mine_count {
                    prev.lemma_index_onto(idx as int);
                    lemma_one_more_drawn(
                        prev,
                        prev.after_draw(idx as int),
                        drawn_places(draws@.take(k as int), quota),
                        idx as int,
                    );
                }
            }
            if placed < mine_count {
                if board.place_drawn(idx) {
                    placed += 1;
                }
            }
            k += 1;
        }
        proof {
            assert(draws@.take(k as int) =~= draws@);
        }
        if placed < mine_count {
            return Err(BoardError::TooFewDraws);
        }
        let ghost laid = board@;
        board.compute_neighbor_counts();
        proof {
            laid.lemma_recount_counts_ok();
        }
        Ok(board)
    }

    /// A new game on a grid of `width` by `height` cells with a mine at each
    /// listed position `(x, y)` and nowhere else. A position may be listed
    /// more than once. No cell is revealed or flagged.
    ///
    /// The grid must have a cell, the number of cells must fit in `isize`,
    /// every listed position must lie on the grid, and one cell at least must
    /// stay free; otherwise the error says what is wrong.
    pub fn with_mines(width: usize, height: usize, mines: &[(usize, usize)]) -> (r: Result<
        Board,
        BoardError,
    >)
        ensures
            match r {
                Ok(b) => {
                    &&& layout_error(width as int, height as int, mines@) is None
                    &&& b.wf()
                    &&& b@.width == width
                    &&& b@.height == height
                    &&& b@.fresh()
                    &&& forall|x: int, y: int|
                        b@.in_bounds(x, y) ==> ((#[trigger] b@.at(x, y)).is_mine <==> listed(
                            mines@,
                            x,
                            y,
                        ))
                },
                Err(e) => layout_error(width as int, height as int, mines@) == Some(e),
            },
    {
        let mut board = match Board::blank(width, height) {
            Ok(board) => board,
            Err(e) => {
                return Err(e);
            },
        };
        let ghost empty = board@;
        let mut placed: usize = 0;
        let mut k: usize = 0;
        proof {
            lemma_mines_bound(board@.cells);
            lemma_none_listed(empty, mines@);
        }
        while k < mines.len()
            invariant
                k <= mines.len(),
                empty.shaped(),
                board@.same_grid(empty),
                board.width == width,
                board.height == height,
                placed == crate::model::mines(board@.cells),
                only_mines(board@.cells),
                forall|j: int|
                    0 <= j < k ==> (#[trigger] mines@[j]).0 < width && mines@[j].1 < height,
                mines_where_listed(board@, mines@.take(k as int)),
            decreases mines.len() - k,
        {
            let (x, y) = mines[k];
            if x >= width || y >= height {
                return Err(BoardError::MineOutOfBounds);
            }
            let ghost prev = board@;
            if board.set_mine(x, y) {
                placed += 1;
            }
            proof {
                lemma_one_more_listed(prev, board@, mines@, k as int);
            }
            k += 1;
        }
        proof {
            assert(mines@.take(k as int) =~= mines@);
            lemma_full_iff_all_listed(board@, mines@);
        }
        if placed >= board.cells.len() {
            return Err(BoardError::TooManyMines);
        }
        let ghost full = board@;
        board.mine_count = placed;
        let ghost laid = board@;
        board.compute_neighbor_counts();
        proof {
            laid.lemma_recount_counts_ok();
            assert forall|x: int, y: int| board@.in_bounds(x, y) implies ((#[trigger] board@.at(
                x,
                y,
            )).is_mine <==> listed(mines@, x, y)) by {
                assert(laid.at(x, y) == full.at(x, y));
                assert(full.at(x, y).is_mine <==> listed(mines@, x, y));
            }
        }
        Ok(board)
    }
}

} // verus!
