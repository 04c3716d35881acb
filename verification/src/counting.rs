//! Facts about counting mines and hidden cells in a sequence of cells.

use vstd::prelude::*;
use crate::cell::Cell;
use crate::model::{drawn_places, hidden, mines};

verus! {

pub open spec fn mine_weight(c: Cell) -> nat {
    if c.is_mine {
        1
    } else {
        0
    }
}

pub open spec fn hidden_weight(c: Cell) -> nat {
    if c.is_revealed {
        0
    } else {
        1
    }
}

/// Replacing one cell changes the number of mines by what the two cells weigh.
pub proof fn lemma_mines_update(cells: Seq<Cell>, i: int, c: Cell)
    requires
        0 <= i < cells.len(),
    ensures
        mines(cells.update(i, c)) + mine_weight(cells[i]) == mines(cells) + mine_weight(c),
    decreases cells.len(),
{
    let after = cells.update(i, c);
    if i == cells.len() - 1 {
        assert(after.drop_last() =~= cells.drop_last());
    } else {
        lemma_mines_update(cells.drop_last(), i, c);
        assert(after.drop_last() =~= cells.drop_last().update(i, c));
    }
}

/// Replacing one cell changes the number of hidden cells by what the two
/// cells weigh.
pub proof fn lemma_hidden_update(cells: Seq<Cell>, i: int, c: Cell)
    requires
        0 <= i < cells.len(),
    ensures
        hidden(cells.update(i, c)) + hidden_weight(cells[i]) == hidden(cells) + hidden_weight(c),
    decreases cells.len(),
{
    let after = cells.update(i, c);
    if i == cells.len() - 1 {
        assert(after.drop_last() =~= cells.drop_last());
    } else {
        lemma_hidden_update(cells.drop_last(), i, c);
        assert(after.drop_last() =~= cells.drop_last().update(i, c));
    }
}

/// One more cell in front of the cut adds its weight.
pub proof fn lemma_mines_take(cells: Seq<Cell>, i: int)
    requires
        0 <= i < cells.len(),
    ensures
        mines(cells.take(i + 1)) == mines(cells.take(i)) + mine_weight(cells[i]),
{
    assert(cells.take(i + 1).drop_last() =~= cells.take(i));
}

/// There are no more mines than cells, and as many only where every cell is
/// one.
pub proof fn lemma_mines_bound(cells: Seq<Cell>)
    ensures
        mines(cells) <= cells.len(),
        mines(cells) == cells.len() <==> forall|i: int|
            0 <= i < cells.len() ==> (#[trigger] cells[i]).is_mine,
        mines(cells) == 0 <==> forall|i: int|
            0 <= i < cells.len() ==> !(#[trigger] cells[i]).is_mine,
    decreases cells.len(),
{
    if cells.len() > 0 {
        let front = cells.drop_last();
        lemma_mines_bound(front);
        assert(forall|i: int| 0 <= i < front.len() ==> front[i] == cells[i]);
        if mines(cells) == cells.len() {
            assert forall|i: int| 0 <= i < cells.len() implies (#[trigger] cells[i]).is_mine by {
                if i < front.len() {
                    assert(front[i].is_mine);
                }
            }
        }
        if mines(cells) == 0 {
            assert forall|i: int| 0 <= i < cells.len() implies !(#[trigger] cells[i]).is_mine by {
                if i < front.len() {
                    assert(!front[i].is_mine);
                }
            }
        }
        if forall|i: int| 0 <= i < cells.len() ==> (#[trigger] cells[i]).is_mine {
            assert(cells.last().is_mine);
            assert forall|i: int| 0 <= i < front.len() implies (#[trigger] front[i]).is_mine by {
                assert(cells[i].is_mine);
            }
        }
        if forall|i: int| 0 <= i < cells.len() ==> !(#[trigger] cells[i]).is_mine {
            assert(!cells.last().is_mine);
            assert forall|i: int| 0 <= i < front.len() implies !(#[trigger] front[i]).is_mine by {
                assert(!cells[i].is_mine);
            }
        }
    }
}

/// Two sequences that agree on where the mines are hold equally many.
pub proof fn lemma_mines_same(a: Seq<Cell>, b: Seq<Cell>)
    requires
        a.len() == b.len(),
        forall|i: int| 0 <= i < a.len() ==> (#[trigger] a[i]).is_mine == b[i].is_mine,
    ensures
        mines(a) == mines(b),
    decreases a.len(),
{
    if a.len() > 0 {
        assert(a.last().is_mine == b.last().is_mine);
        assert forall|i: int| 0 <= i < a.drop_last().len() implies (#[trigger] a.drop_last()[i]).is_mine
            == b.drop_last()[i].is_mine by {
            assert(a[i].is_mine == b[i].is_mine);
        }
        lemma_mines_same(a.drop_last(), b.drop_last());
    }
}

/// The draws name finitely many places, no more than the quota.
pub proof fn lemma_drawn_places_bound(draws: Seq<usize>, quota: nat)
    ensures
        drawn_places(draws, quota).finite(),
        drawn_places(draws, quota).len() <= quota,
    decreases draws.len(),
{
    if draws.len() > 0 {
        lemma_drawn_places_bound(draws.drop_last(), quota);
    }
}

/// What one more draw adds to the places named.
pub proof fn lemma_drawn_places_take(draws: Seq<usize>, quota: nat, k: int)
    requires
        0 <= k < draws.len(),
    ensures
        drawn_places(draws.take(k + 1), quota) == if drawn_places(draws.take(k), quota).len()
            < quota {
            drawn_places(draws.take(k), quota).insert(draws[k] as int)
        } else {
            drawn_places(draws.take(k), quota)
        },
{
    assert(draws.take(k + 1).drop_last() =~= draws.take(k));
}

} // verus!
