//! Why a work list of cells uncovers exactly what the flood reaches.
//!
//! The flood keeps a list of sources: the start, and every cell that it has
//! uncovered and that carries it on. A source leaves the list when the eight
//! positions around it have been visited. The invariant below says that what
//! is uncovered so far is reached, and that every source off the list has
//! been dealt with; when the list is empty, that is everything reached.

use vstd::prelude::*;
use crate::counting::lemma_hidden_update;
use crate::model::{adjacent, hidden, listed, BoardView};

verus! {

/// Nothing is left to do at `(x, y)`: the flood may not uncover the cell
/// there, or it is uncovered.
pub open spec fn visited(before: BoardView, now: BoardView, x: int, y: int) -> bool {
    before.floodable(x, y) ==> now.at(x, y).is_revealed
}

/// Nothing is left to do around `(x, y)`.
pub open spec fn handled(before: BoardView, now: BoardView, x: int, y: int) -> bool {
    forall|nx: int, ny: int| adjacent(x, y, nx, ny) ==> #[trigger] visited(before, now, nx, ny)
}

/// The flood spreads from `(x, y)`: it is the start, on the grid or not, or
/// a cell that the flood has uncovered and that carries it on.
pub open spec fn is_source(
    before: BoardView,
    now: BoardView,
    sx: int,
    sy: int,
    x: int,
    y: int,
) -> bool {
    (x == sx && y == sy) || (before.spreads(x, y) && now.at(x, y).is_revealed)
}

/// The invariant of the flood from `(sx, sy)` on the board `before`, with the
/// board as it is `now`, the work list, and the source in hand, if any.
pub open spec fn flood_inv(
    before: BoardView,
    now: BoardView,
    work: Seq<(usize, usize)>,
    sx: int,
    sy: int,
    busy: Option<(int, int)>,
) -> bool {
    &&& before.shaped()
    &&& now == (BoardView { cells: now.cells, ..before })
    &&& now.cells.len() == before.cells.len()
    &&& forall|x: int, y: int|
        before.in_bounds(x, y) ==> {
            let c = #[trigger] now.at(x, y);
            c == before.at(x, y) || (c == before.at(x, y).revealed() && before.flood_reaches(
                sx,
                sy,
                x,
                y,
            ))
        }
    &&& forall|k: int|
        0 <= k < work.len() ==> is_source(
            before,
            now,
            sx,
            sy,
            (#[trigger] work[k]).0 as int,
            work[k].1 as int,
        )
    &&& forall|x: int, y: int| #[trigger]
        is_source(before, now, sx, sy, x, y) && !listed(work, x, y) && busy != Some((x, y))
            ==> handled(before, now, x, y)
}

/// The flood starts with the start alone on the list.
pub proof fn lemma_flood_start(before: BoardView, sx: int, sy: int)
    requires
        before.shaped(),
        0 <= sx <= usize::MAX,
        0 <= sy <= usize::MAX,
    ensures
        flood_inv(before, before, seq![(sx as usize, sy as usize)], sx, sy, None),
{
    let work = seq![(sx as usize, sy as usize)];
    assert(work[0].0 == sx && work[0].1 == sy);
    assert(listed(work, sx, sy));
}

/// Taking the last source off the list keeps the invariant, with that source
/// in hand.
pub proof fn lemma_flood_take(
    before: BoardView,
    now: BoardView,
    work: Seq<(usize, usize)>,
    sx: int,
    sy: int,
)
    requires
        flood_inv(before, now, work, sx, sy, None),
        work.len() > 0,
    ensures
        flood_inv(
            before,
            now,
            work.drop_last(),
            sx,
            sy,
            Some((work.last().0 as int, work.last().1 as int)),
        ),
        is_source(before, now, sx, sy, work.last().0 as int, work.last().1 as int),
{
    let rest = work.drop_last();
    let c = (work.last().0 as int, work.last().1 as int);
    assert forall|x: int, y: int| #[trigger]
        is_source(before, now, sx, sy, x, y) && !listed(rest, x, y) && Some(c) != Some(
            (x, y),
        ) implies handled(before, now, x, y) by {
        if listed(work, x, y) {
            let k = choose|k: int| 0 <= k < work.len() && (#[trigger] work[k]).0 == x && work[k].1 == y;
            assert(k < rest.len());
            assert(rest[k] == work[k]);
            assert(listed(rest, x, y));
        }
    }
    assert forall|k: int| 0 <= k < rest.len() implies is_source(
        before,
        now,
        sx,
        sy,
        (#[trigger] rest[k]).0 as int,
        rest[k].1 as int,
    ) by {
        assert(rest[k] == work[k]);
    }
}

/// A cell next to a source that the flood may uncover is reached.
pub proof fn lemma_flood_extends(
    before: BoardView,
    now: BoardView,
    work: Seq<(usize, usize)>,
    sx: int,
    sy: int,
    busy: Option<(int, int)>,
    cx: int,
    cy: int,
    nx: int,
    ny: int,
)
    requires
        flood_inv(before, now, work, sx, sy, busy),
        is_source(before, now, sx, sy, cx, cy),
        adjacent(cx, cy, nx, ny),
        before.floodable(nx, ny),
    ensures
        before.flood_reaches(sx, sy, nx, ny),
{
    if cx == sx && cy == sy {
        let p = seq![(sx, sy), (nx, ny)];
        assert(before.flood_path(p));
        assert(p[0] == (sx, sy) && p.last() == (nx, ny));
    } else {
        assert(now.at(cx, cy) != before.at(cx, cy));
        assert(before.flood_reaches(sx, sy, cx, cy));
        let p = choose|p: Seq<(int, int)>|
            #[trigger] before.flood_path(p) && p[0] == (sx, sy) && p.last() == (cx, cy);
        before.lemma_path_extends(p, nx, ny);
    }
}

/// Uncovering a hidden, unflagged cell next to the source in hand keeps the
/// invariant, provided the cell joins the list if it carries the flood on.
pub proof fn lemma_flood_step(
    before: BoardView,
    now: BoardView,
    work: Seq<(usize, usize)>,
    sx: int,
    sy: int,
    cx: int,
    cy: int,
    nx: int,
    ny: int,
)
    requires
        flood_inv(before, now, work, sx, sy, Some((cx, cy))),
        is_source(before, now, sx, sy, cx, cy),
        adjacent(cx, cy, nx, ny),
        now.in_bounds(nx, ny),
        !now.at(nx, ny).is_revealed,
        !now.at(nx, ny).is_flagged,
        nx <= usize::MAX,
        ny <= usize::MAX,
    ensures
        ({
            let next = now.with_cell(nx, ny, now.at(nx, ny).revealed());
            let carries = now.at(nx, ny).neighbor_mines == 0 && !now.at(nx, ny).is_mine;
            let list = if carries {
                work.push((nx as usize, ny as usize))
            } else {
                work
            };
            &&& flood_inv(before, next, list, sx, sy, Some((cx, cy)))
            &&& is_source(before, next, sx, sy, cx, cy)
            &&& visited(before, next, nx, ny)
            &&& hidden(next.cells) + 1 == hidden(now.cells)
            &&& forall|x: int, y: int| #[trigger]
                visited(before, now, x, y) ==> visited(before, next, x, y)
        }),
{
    let next = now.with_cell(nx, ny, now.at(nx, ny).revealed());
    let carries = now.at(nx, ny).neighbor_mines == 0 && !now.at(nx, ny).is_mine;
    let list = if carries {
        work.push((nx as usize, ny as usize))
    } else {
        work
    };
    before.lemma_index_in_range(nx, ny);
    lemma_hidden_update(now.cells, now.index(nx, ny), now.at(nx, ny).revealed());
    assert(now.at(nx, ny) == before.at(nx, ny));
    lemma_flood_extends(before, now, work, sx, sy, Some((cx, cy)), cx, cy, nx, ny);
    assert forall|x: int, y: int| before.in_bounds(x, y) implies #[trigger] next.at(x, y) == if x
        == nx && y == ny {
        before.at(x, y).revealed()
    } else {
        now.at(x, y)
    } by {
        before.lemma_index_in_range(x, y);
        if before.index(x, y) == before.index(nx, ny) {
            before.lemma_index_injective(x, y, nx, ny);
        }
    }
    assert forall|x: int, y: int| #[trigger] visited(before, now, x, y) implies visited(
        before,
        next,
        x,
        y,
    ) by {
        if before.floodable(x, y) {
            assert(next.at(x, y).is_revealed);
        }
    }
    assert forall|k: int| 0 <= k < list.len() implies is_source(
        before,
        next,
        sx,
        sy,
        (#[trigger] list[k]).0 as int,
        list[k].1 as int,
    ) by {
        if k < work.len() {
            assert(list[k] == work[k]);
            let (x, y) = (work[k].0 as int, work[k].1 as int);
            assert(is_source(before, now, sx, sy, x, y));
            if !(x == sx && y == sy) {
                assert(before.in_bounds(x, y));
                assert(next.at(x, y).is_revealed);
            }
        }
    }
    assert forall|x: int, y: int| #[trigger]
        is_source(before, next, sx, sy, x, y) && !listed(list, x, y) && Some((cx, cy)) != Some(
            (x, y),
        ) implies handled(before, next, x, y) by {
        if x == nx && y == ny && carries {
            assert(list[work.len() as int].0 == x && list[work.len() as int].1 == y);
            assert(listed(list, x, y));
        } else {
            assert(is_source(before, now, sx, sy, x, y));
            if listed(work, x, y) {
                let k = choose|k: int|
                    0 <= k < work.len() && (#[trigger] work[k]).0 == x && work[k].1 == y;
                assert(list[k] == work[k]);
                assert(listed(list, x, y));
            }
            assert(handled(before, now, x, y));
            assert forall|ax: int, ay: int| adjacent(x, y, ax, ay) implies #[trigger] visited(
                before,
                next,
                ax,
                ay,
            ) by {
                assert(visited(before, now, ax, ay));
            }
        }
    }
}

/// When the eight positions around the source in hand have been visited, the
/// source is done.
pub proof fn lemma_flood_done(
    before: BoardView,
    now: BoardView,
    work: Seq<(usize, usize)>,
    sx: int,
    sy: int,
    cx: int,
    cy: int,
)
    requires
        flood_inv(before, now, work, sx, sy, Some((cx, cy))),
        visited(before, now, cx - 1, cy - 1),
        visited(before, now, cx, cy - 1),
        visited(before, now, cx + 1, cy - 1),
        visited(before, now, cx - 1, cy),
        visited(before, now, cx + 1, cy),
        visited(before, now, cx - 1, cy + 1),
        visited(before, now, cx, cy + 1),
        visited(before, now, cx + 1, cy + 1),
    ensures
        flood_inv(before, now, work, sx, sy, None),
{
    assert(handled(before, now, cx, cy));
}

/// With the list empty, the end of every way the flood takes is uncovered.
pub proof fn lemma_flood_path_end(
    before: BoardView,
    now: BoardView,
    sx: int,
    sy: int,
    p: Seq<(int, int)>,
)
    requires
        flood_inv(before, now, Seq::empty(), sx, sy, None),
        before.flood_path(p),
        p[0] == (sx, sy),
    ensures
        now.at(p.last().0, p.last().1).is_revealed,
    decreases p.len(),
{
    let n = p.len() as int;
    let last = p[n - 1];
    let prev = p[n - 2];
    assert(crate::model::next_to(prev, last));
    assert(before.floodable(last.0, last.1));
    assert(!listed(Seq::<(usize, usize)>::empty(), prev.0, prev.1));
    if n == 2 {
        assert(is_source(before, now, sx, sy, prev.0, prev.1));
    } else {
        let q = p.drop_last();
        before.lemma_path_front(p);
        lemma_flood_path_end(before, now, sx, sy, q);
        assert(q.last() == prev);
        assert(is_source(before, now, sx, sy, prev.0, prev.1));
    }
    assert(handled(before, now, prev.0, prev.1));
    assert(visited(before, now, last.0, last.1));
}

/// With the list empty, the board is the one that the flood leaves.
pub proof fn lemma_flood_finished(before: BoardView, now: BoardView, sx: int, sy: int)
    requires
        flood_inv(before, now, Seq::empty(), sx, sy, None),
    ensures
        now == before.after_flood(sx, sy),
{
    let target = before.after_flood(sx, sy);
    assert forall|i: int| 0 <= i < now.cells.len() implies now.cells[i] == target.cells[i] by {
        before.lemma_index_onto(i);
        let x = i % (before.width as int);
        let y = i / (before.width as int);
        let c = now.at(x, y);
        assert(c == now.cells[i]);
        if before.flood_reaches(sx, sy, x, y) {
            let p = choose|p: Seq<(int, int)>|
                #[trigger] before.flood_path(p) && p[0] == (sx, sy) && p.last() == (x, y);
            lemma_flood_path_end(before, now, sx, sy, p);
            assert(before.floodable(p[p.len() - 1].0, p[p.len() - 1].1));
        }
    }
    assert(now.cells =~= target.cells);
}

} // verus!
