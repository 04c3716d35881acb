//! What holds of the game, proved from the rules in [`crate::model`].

use vstd::prelude::*;
use crate::counting::{lemma_drawn_places_bound, lemma_mines_bound};
use crate::model::{adjacent, drawn_places, mines, next_to, BoardView};

verus! {

/// A move of the player.
pub enum Move {
    Reveal { x: int, y: int },
    Flag { x: int, y: int },
}

/// The places that draws name are the values of the draws up to some point:
/// the point where `quota` distinct values have come, or the end of the draws
/// where they hold fewer. The point is returned.
pub proof fn law_drawn_places_are_first_draws(draws: Seq<usize>, quota: nat) -> (n: int)
    ensures
        0 <= n <= draws.len(),
        forall|i: int| #[trigger]
            drawn_places(draws, quota).contains(i) <==> exists|k: int|
                0 <= k < n && #[trigger] draws[k] == i,
        n < draws.len() ==> drawn_places(draws, quota).len() == quota,
        drawn_places(draws, quota).finite(),
        drawn_places(draws, quota).len() <= quota,
    decreases draws.len(),
{
    lemma_drawn_places_bound(draws, quota);
    if draws.len() == 0 {
        0
    } else {
        let front = draws.drop_last();
        let before = drawn_places(front, quota);
        let m = law_drawn_places_are_first_draws(front, quota);
        assert forall|k: int| 0 <= k < front.len() implies front[k] == draws[k] by {}
        if before.len() < quota {
            let n = draws.len() as int;
            assert forall|i: int| #[trigger]
                drawn_places(draws, quota).contains(i) <==> exists|k: int|
                    0 <= k < n && #[trigger] draws[k] == i by {
                if before.contains(i) {
                    let k = choose|k: int| 0 <= k < m && #[trigger] front[k] == i;
                    assert(draws[k] == i);
                }
                if i == draws.last() as int {
                    assert(draws[n - 1] == i);
                }
                if exists|k: int| 0 <= k < n && #[trigger] draws[k] == i {
                    let k = choose|k: int| 0 <= k < n && #[trigger] draws[k] == i;
                    if k < n - 1 {
                        assert(front[k] == i);
                    }
                }
            }
            n
        } else {
            assert forall|i: int| #[trigger]
                drawn_places(draws, quota).contains(i) <==> exists|k: int|
                    0 <= k < m && #[trigger] draws[k] == i by {
                if before.contains(i) {
                    let k = choose|k: int| 0 <= k < m && #[trigger] front[k] == i;
                    assert(draws[k] == i);
                }
                if exists|k: int| 0 <= k < m && #[trigger] draws[k] == i {
                    let k = choose|k: int| 0 <= k < m && #[trigger] draws[k] == i;
                    assert(front[k] == i);
                }
            }
            m
        }
    }
}

impl BoardView {
    /// The board after one move.
    pub open spec fn after_move(self, m: Move) -> BoardView {
        match m {
            Move::Reveal { x, y } => self.after_reveal(x, y),
            Move::Flag { x, y } => self.after_toggle_flag(x, y),
        }
    }

    /// The board after a sequence of moves.
    pub open spec fn after_moves(self, moves: Seq<Move>) -> BoardView
        decreases moves.len(),
    {
        if moves.len() == 0 {
            self
        } else {
            self.after_moves(moves.drop_last()).after_move(moves.last())
        }
    }

    /// A mine is uncovered.
    pub open spec fn mine_revealed(self) -> bool {
        exists|i: int|
            0 <= i < self.cells.len() && (#[trigger] self.cells[i]).is_mine
                && self.cells[i].is_revealed
    }

    /// How the game stands agrees with what is uncovered: the game is won
    /// exactly when no cell without a mine is hidden, lost exactly when a
    /// mine is uncovered, and over exactly when it is won or lost.
    pub open spec fn outcome_settled(self) -> bool {
        &&& self.win <==> self.all_safe_revealed()
        &&& self.game_over && !self.win <==> self.mine_revealed()
    }

    /// No revealed cell carries a flag.
    pub open spec fn flags_on_hidden_only(self) -> bool {
        forall|i: int|
            0 <= i < self.cells.len() ==> !((#[trigger] self.cells[i]).is_flagged
                && self.cells[i].is_revealed)
    }

    /// What a flood leaves at a position of the grid.
    pub proof fn lemma_after_flood_at(self, x0: int, y0: int, x: int, y: int)
        requires
            self.shaped(),
            self.in_bounds(x, y),
        ensures
            self.after_flood(x0, y0).at(x, y) == if self.flood_reaches(x0, y0, x, y) {
                self.at(x, y).revealed()
            } else {
                self.at(x, y)
            },
    {
        self.lemma_index_in_range(x, y);
        let i = self.index(x, y);
        self.lemma_index_onto(i);
        self.lemma_index_injective(x, y, i % (self.width as int), i / (self.width as int));
    }

    /// What a reveal that takes effect away from a mine leaves at a position
    /// of the grid: the cell revealed there, the cells that the flood
    /// reaches if there is one, and every other cell as it was.
    pub proof fn lemma_after_reveal_at(self, x: int, y: int, cx: int, cy: int)
        requires
            self.wf(),
            self.can_reveal(x, y),
            !self.at(x, y).is_mine,
            self.in_bounds(cx, cy),
        ensures
            ({
                let opened = self.with_cell(x, y, self.at(x, y).revealed());
                let uncovered = (cx == x && cy == y) || (self.at(x, y).neighbor_mines == 0
                    && opened.flood_reaches(x, y, cx, cy));
                &&& opened.shaped()
                &&& opened.at(cx, cy) == if cx == x && cy == y {
                    self.at(cx, cy).revealed()
                } else {
                    self.at(cx, cy)
                }
                &&& self.after_reveal(x, y).at(cx, cy) == if uncovered {
                    self.at(cx, cy).revealed()
                } else {
                    self.at(cx, cy)
                }
            }),
    {
        let opened = self.with_cell(x, y, self.at(x, y).revealed());
        self.lemma_index_in_range(x, y);
        self.lemma_index_in_range(cx, cy);
        if self.index(cx, cy) == self.index(x, y) {
            self.lemma_index_injective(cx, cy, x, y);
        }
        if self.at(x, y).neighbor_mines == 0 {
            opened.lemma_after_flood_at(x, y, cx, cy);
        }
    }

    /// Toggling a flag twice at one position leaves the board as it was.
    pub proof fn law_toggle_flag_twice(self, x: int, y: int)
        requires
            self.shaped(),
        ensures
            self.after_toggle_flag(x, y).after_toggle_flag(x, y) == self,
    {
        if self.can_flag(x, y) {
            self.lemma_index_in_range(x, y);
            let once = self.after_toggle_flag(x, y);
            assert(once.after_toggle_flag(x, y).cells =~= self.cells);
        }
    }

    /// A reveal on a flagged or a revealed cell, outside the grid, or after
    /// the game is over changes nothing. So a cell that was just flagged
    /// stays hidden and flagged when the player tries to reveal it.
    pub proof fn law_reveal_without_effect(self, x: int, y: int)
        requires
            self.shaped(),
        ensures
            !self.can_reveal(x, y) ==> self.after_reveal(x, y) == self,
            self.can_flag(x, y) && !self.at(x, y).is_flagged ==> {
                let flagged = self.after_toggle_flag(x, y);
                &&& flagged.at(x, y).is_flagged
                &&& !flagged.at(x, y).is_revealed
                &&& flagged.after_reveal(x, y) == flagged
            },
    {
        if self.can_flag(x, y) {
            self.lemma_index_in_range(x, y);
        }
    }

    /// Revealing a mine uncovers that one cell and ends the game as lost;
    /// there is no flood.
    pub proof fn law_mine_ends_game(self, x: int, y: int)
        requires
            self.shaped(),
            self.can_reveal(x, y),
            self.at(x, y).is_mine,
        ensures
            self.after_reveal(x, y).game_over,
            !self.after_reveal(x, y).win,
            self.after_reveal(x, y).cells == self.cells.update(
                self.index(x, y),
                self.at(x, y).revealed(),
            ),
    {
    }

    /// Around a cell with no mine around it there is no mine.
    pub proof fn lemma_no_mine_around(self, px: int, py: int, x: int, y: int)
        requires
            self.adjacent_mines(px, py) == 0,
            adjacent(px, py, x, y),
        ensures
            self.mine_indicator(x, y) == 0,
    {
    }

    /// Where the counts are right, a flood from a cell with no mine on it or
    /// around it reaches no mine.
    pub proof fn lemma_flood_avoids_mines(self, x0: int, y0: int, x: int, y: int)
        requires
            self.counts_ok(),
            self.in_bounds(x0, y0),
            !self.at(x0, y0).is_mine,
            self.at(x0, y0).neighbor_mines == 0,
            self.flood_reaches(x0, y0, x, y),
        ensures
            self.floodable(x, y),
            !self.at(x, y).is_mine,
    {
        let p = choose|p: Seq<(int, int)>|
            #[trigger] self.flood_path(p) && p[0] == (x0, y0) && p.last() == (x, y);
        let n = p.len() as int;
        let prev = p[n - 2];
        assert(next_to(prev, p[n - 1]));
        assert(self.floodable(p[n - 1].0, p[n - 1].1));
        if n > 2 {
            assert(self.spreads(prev.0, prev.1));
        }
        assert(self.at(prev.0, prev.1).neighbor_mines == self.expected_count(prev.0, prev.1));
        self.lemma_no_mine_around(prev.0, prev.1, x, y);
    }

    /// A reveal uncovers no flagged cell, and no mine but one that the player
    /// picked.
    pub proof fn law_reveal_spares_flags_and_mines(self, x: int, y: int, cx: int, cy: int)
        requires
            self.wf(),
            self.in_bounds(cx, cy),
            self.after_reveal(x, y).at(cx, cy).is_revealed,
            !self.at(cx, cy).is_revealed,
        ensures
            !self.at(cx, cy).is_flagged,
            self.at(cx, cy).is_mine ==> cx == x && cy == y,
            self.after_reveal(x, y).at(cx, cy) == self.at(cx, cy).revealed(),
    {
        self.lemma_index_in_range(x, y);
        self.lemma_index_in_range(cx, cy);
        if self.index(cx, cy) == self.index(x, y) {
            self.lemma_index_injective(cx, cy, x, y);
        }
        if !self.at(x, y).is_mine && !(cx == x && cy == y) {
            let opened = self.with_cell(x, y, self.at(x, y).revealed());
            self.lemma_after_reveal_at(x, y, cx, cy);
            assert(self.same_layout(opened));
            self.lemma_same_layout_wf(opened);
            opened.lemma_flood_avoids_mines(x, y, cx, cy);
        }
    }

    /// A reveal on a cell with no mine on it or around it uncovers the whole
    /// region of such cells that hangs together with it, and the cells along
    /// the region's border: the end of every chain of cells that starts at
    /// the revealed one, where each cell is next to the one before it, all
    /// are hidden and unflagged, and all but the last have no mine on them
    /// or around them.
    pub proof fn law_reveal_floods_region(self, x: int, y: int, p: Seq<(int, int)>)
        requires
            self.wf(),
            self.can_reveal(x, y),
            !self.at(x, y).is_mine,
            self.at(x, y).neighbor_mines == 0,
            self.flood_path(p),
            p[0] == (x, y),
        ensures
            self.after_reveal(x, y).at(p.last().0, p.last().1).is_revealed,
        decreases p.len(),
    {
        let opened = self.with_cell(x, y, self.at(x, y).revealed());
        let n = p.len() as int;
        let last = p[n - 1];
        let prev = p[n - 2];
        assert(next_to(prev, last));
        assert(self.floodable(last.0, last.1));
        self.lemma_after_reveal_at(x, y, last.0, last.1);
        if !(last.0 == x && last.1 == y) {
            assert(opened.floodable(last.0, last.1));
            if prev.0 == x && prev.1 == y {
                let q = seq![(x, y), last];
                assert(opened.flood_path(q));
                assert(q[0] == (x, y) && q.last() == last);
            } else {
                assert(n > 2);
                assert(self.spreads(prev.0, prev.1));
                let front = p.drop_last();
                self.lemma_path_front(p);
                self.law_reveal_floods_region(x, y, front);
                assert(front.last() == prev);
                self.lemma_after_reveal_at(x, y, prev.0, prev.1);
                assert(opened.flood_reaches(x, y, prev.0, prev.1));
                assert(opened.spreads(prev.0, prev.1));
                let q = choose|q: Seq<(int, int)>|
                    #[trigger] opened.flood_path(q) && q[0] == (x, y) && q.last() == prev;
                opened.lemma_path_extends(q, last.0, last.1);
            }
            assert(opened.flood_reaches(x, y, last.0, last.1));
        }
    }

    /// After a reveal that takes effect away from a mine, the game is over
    /// and won exactly if no cell without a mine is left hidden.
    pub proof fn law_win_when_all_safe_revealed(self, x: int, y: int)
        requires
            self.wf(),
            self.can_reveal(x, y),
            !self.at(x, y).is_mine,
        ensures
            self.after_reveal(x, y).win == self.after_reveal(x, y).all_safe_revealed(),
            self.after_reveal(x, y).game_over == self.after_reveal(x, y).all_safe_revealed(),
    {
    }

    /// Uncovering all cells for show leaves every cell revealed, with its
    /// mine, its flag and its count as they were, and the game as it stood.
    pub proof fn law_reveal_all(self)
        ensures
            self.after_reveal_all().game_over == self.game_over,
            self.after_reveal_all().win == self.win,
            self.after_reveal_all().cells.len() == self.cells.len(),
            forall|i: int|
                0 <= i < self.cells.len() ==> #[trigger] self.after_reveal_all().cells[i]
                    == self.cells[i].revealed(),
            self.wf() ==> self.after_reveal_all().wf(),
    {
        if self.wf() {
            self.lemma_same_layout_wf(self.after_reveal_all());
        }
    }

    /// Once the game is over no move changes the board.
    pub proof fn law_game_over_is_final(self, m: Move)
        requires
            self.game_over,
        ensures
            self.after_move(m) == self,
    {
    }

    /// A move keeps the invariant of the board: the mines stay where they
    /// are, as many as at the start, and the counts stay right.
    pub proof fn law_move_keeps_wf(self, m: Move)
        requires
            self.wf(),
        ensures
            self.after_move(m).wf(),
            self.same_layout(self.after_move(m)),
    {
        match m {
            Move::Reveal { x, y } => {
                if self.can_reveal(x, y) {
                    self.lemma_index_in_range(x, y);
                    let opened = self.with_cell(x, y, self.at(x, y).revealed());
                    assert(self.same_layout(opened));
                    opened.lemma_flood_same_layout(x, y);
                    assert(self.same_layout(self.after_reveal(x, y)));
                    self.lemma_same_layout_wf(self.after_reveal(x, y));
                }
            },
            Move::Flag { x, y } => {
                if self.can_flag(x, y) {
                    self.lemma_index_in_range(x, y);
                    self.lemma_same_layout_wf(self.after_toggle_flag(x, y));
                }
            },
        }
    }

    /// A new board has its outcome settled: nothing is uncovered, and a cell
    /// without a mine exists.
    pub proof fn law_fresh_is_settled(self)
        requires
            self.wf(),
            self.fresh(),
        ensures
            self.outcome_settled(),
    {
        lemma_mines_bound(self.cells);
        let i = choose|i: int| 0 <= i < self.cells.len() && !(#[trigger] self.cells[i]).is_mine;
        assert(!self.cells[i].is_revealed);
    }

    /// A move keeps the outcome settled.
    pub proof fn law_move_keeps_settled(self, m: Move)
        requires
            self.wf(),
            self.outcome_settled(),
        ensures
            self.after_move(m).outcome_settled(),
    {
        let next = self.after_move(m);
        match m {
            Move::Reveal { x, y } => {
                if self.can_reveal(x, y) {
                    self.lemma_index_in_range(x, y);
                    let at = self.index(x, y);
                    if self.at(x, y).is_mine {
                        let i = choose|i: int|
                            0 <= i < self.cells.len() && !(#[trigger] self.cells[i]).is_mine
                                && !self.cells[i].is_revealed;
                        assert(!next.cells[i].is_mine && !next.cells[i].is_revealed);
                        assert(next.cells[at].is_mine && next.cells[at].is_revealed);
                    } else {
                        if next.mine_revealed() {
                            let i = choose|i: int|
                                0 <= i < next.cells.len() && (#[trigger] next.cells[i]).is_mine
                                    && next.cells[i].is_revealed;
                            self.lemma_index_onto(i);
                            let cx = i % (self.width as int);
                            let cy = i / (self.width as int);
                            assert(next.at(cx, cy) == next.cells[i]);
                            assert(self.at(cx, cy) == self.cells[i]);
                            assert(!self.cells[i].is_revealed);
                            self.law_reveal_spares_flags_and_mines(x, y, cx, cy);
                        }
                    }
                }
            },
            Move::Flag { x, y } => {
                if self.can_flag(x, y) {
                    self.lemma_index_in_range(x, y);
                    let at = self.index(x, y);
                    assert forall|i: int| 0 <= i < self.cells.len() implies (
                    #[trigger] next.cells[i]).is_mine == self.cells[i].is_mine
                        && next.cells[i].is_revealed == self.cells[i].is_revealed by {}
                    if self.all_safe_revealed() {
                        assert forall|i: int| 0 <= i < next.cells.len() implies (
                        #[trigger] next.cells[i]).is_mine || next.cells[i].is_revealed by {
                            assert(self.cells[i].is_mine || self.cells[i].is_revealed);
                        }
                    }
                    if next.all_safe_revealed() {
                        assert forall|i: int| 0 <= i < self.cells.len() implies (
                        #[trigger] self.cells[i]).is_mine || self.cells[i].is_revealed by {
                            assert(next.cells[i].is_mine || next.cells[i].is_revealed);
                        }
                    }
                    if self.mine_revealed() {
                        let i = choose|i: int|
                            0 <= i < self.cells.len() && (#[trigger] self.cells[i]).is_mine
                                && self.cells[i].is_revealed;
                        assert(next.cells[i].is_mine && next.cells[i].is_revealed);
                    }
                    if next.mine_revealed() {
                        let i = choose|i: int|
                            0 <= i < next.cells.len() && (#[trigger] next.cells[i]).is_mine
                                && next.cells[i].is_revealed;
                        assert(self.cells[i].is_mine && self.cells[i].is_revealed);
                    }
                }
            },
        }
    }

    /// A move puts no flag on a revealed cell and reveals no flagged cell.
    pub proof fn law_move_keeps_flags_on_hidden(self, m: Move)
        requires
            self.wf(),
            self.flags_on_hidden_only(),
        ensures
            self.after_move(m).flags_on_hidden_only(),
    {
        let next = self.after_move(m);
        self.law_move_keeps_wf(m);
        assert forall|i: int| 0 <= i < next.cells.len() implies !((#[trigger] next.cells[i]).is_flagged
            && next.cells[i].is_revealed) by {
            self.lemma_index_onto(i);
            let cx = i % (self.width as int);
            let cy = i / (self.width as int);
            assert(self.at(cx, cy) == self.cells[i]);
            assert(next.at(cx, cy) == next.cells[i]);
            assert(!(self.cells[i].is_flagged && self.cells[i].is_revealed));
            match m {
                Move::Reveal { x, y } => {
                    if self.can_reveal(x, y) {
                        if next.cells[i].is_revealed && !self.cells[i].is_revealed {
                            self.law_reveal_spares_flags_and_mines(x, y, cx, cy);
                        } else {
                            self.lemma_reveal_keeps_flags(x, y, cx, cy);
                        }
                    }
                },
                Move::Flag { x, y } => {
                    if self.can_flag(x, y) {
                        self.lemma_index_in_range(x, y);
                    }
                },
            }
        }
    }

    /// A reveal sets and takes no flag, and covers no cell.
    pub proof fn lemma_reveal_keeps_flags(self, x: int, y: int, cx: int, cy: int)
        requires
            self.wf(),
            self.in_bounds(cx, cy),
        ensures
            self.after_reveal(x, y).at(cx, cy).is_flagged == self.at(cx, cy).is_flagged,
            self.at(cx, cy).is_revealed ==> self.after_reveal(x, y).at(cx, cy).is_revealed,
    {
        if self.can_reveal(x, y) {
            self.lemma_index_in_range(x, y);
            self.lemma_index_in_range(cx, cy);
            if self.index(cx, cy) == self.index(x, y) {
                self.lemma_index_injective(cx, cy, x, y);
            }
            if !self.at(x, y).is_mine {
                self.lemma_after_reveal_at(x, y, cx, cy);
            }
        }
    }

    /// However a game is played from a new board, the board keeps its
    /// invariant, no revealed cell carries a flag, and at every point the
    /// game is won exactly if no cell without a mine is hidden and lost
    /// exactly if a mine is uncovered. On a board without mines it is never
    /// lost.
    pub proof fn law_play(self, moves: Seq<Move>)
        requires
            self.wf(),
            self.fresh(),
        ensures
            self.after_moves(moves).wf(),
            self.same_layout(self.after_moves(moves)),
            self.after_moves(moves).outcome_settled(),
            self.after_moves(moves).flags_on_hidden_only(),
            self.mine_count == 0 && self.after_moves(moves).game_over ==> self.after_moves(
                moves,
            ).win,
        decreases moves.len(),
    {
        if moves.len() == 0 {
            self.law_fresh_is_settled();
        } else {
            let before = self.after_moves(moves.drop_last());
            self.law_play(moves.drop_last());
            before.law_move_keeps_wf(moves.last());
            before.law_move_keeps_settled(moves.last());
            before.law_move_keeps_flags_on_hidden(moves.last());
        }
        let end = self.after_moves(moves);
        if self.mine_count == 0 && end.mine_revealed() {
            lemma_mines_bound(end.cells);
        }
    }
}

} // verus!
