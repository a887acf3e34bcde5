//! Grid-wide laws of the transition rule, stated over the spec-level model
//! and proved once, so that every user of the engine can rely on them.

use vstd::prelude::*;

verus! {

use crate::life::Conway;
use crate::life::GridError;
use crate::life::LifeCell;
use crate::life::alive_at;
use crate::life::in_grid;
use crate::life::live_in_slot;
use crate::life::neighbor_count;
use crate::life::next_gen_cell;

/// No spontaneous life: on a fully-dead grid of any side `n >= 1`, one tick
/// leaves every cell dead.
pub proof fn lemma_no_spontaneous_life(g: Seq<LifeCell>, n: int)
    requires
        n >= 1,
        forall|row: int, col: int|
            in_grid(n, row, col) ==> !(#[trigger] alive_at(g, n, row, col)),
    ensures
        forall|row: int, col: int|
            in_grid(n, row, col) ==> !(#[trigger] next_gen_cell(g, n, row, col)),
{
    assert forall|row: int, col: int| in_grid(n, row, col) implies !(#[trigger] next_gen_cell(
        g,
        n,
        row,
        col,
    )) by {
        assert(live_in_slot(g, n, row - 1, col + 1) == 0);
        assert(live_in_slot(g, n, row - 1, col) == 0);
        assert(live_in_slot(g, n, row - 1, col - 1) == 0);
        assert(live_in_slot(g, n, row, col + 1) == 0);
        assert(live_in_slot(g, n, row, col - 1) == 0);
        assert(live_in_slot(g, n, row + 1, col + 1) == 0);
        assert(live_in_slot(g, n, row + 1, col) == 0);
        assert(live_in_slot(g, n, row + 1, col - 1) == 0);
        assert(neighbor_count(g, n, row, col) == 0);
    }
}

/// A live cell with no live neighbors dies after one tick, whatever the
/// grid size.
pub proof fn lemma_isolated_cell_dies(g: Seq<LifeCell>, n: int, row: int, col: int)
    requires
        in_grid(n, row, col),
        alive_at(g, n, row, col),
        neighbor_count(g, n, row, col) == 0,
    ensures
        !next_gen_cell(g, n, row, col),
{
}

/// `(row, col)` lies inside the 2x2 block whose top-left corner is
/// `(r0, c0)`.
pub open spec fn in_block(r0: int, c0: int, row: int, col: int) -> bool {
    r0 <= row <= r0 + 1 && c0 <= col <= c0 + 1
}

/// The grid's live cells are exactly the 2x2 block at `(r0, c0)`.
pub open spec fn block_only(g: Seq<LifeCell>, n: int, r0: int, c0: int) -> bool {
    forall|row: int, col: int|
        in_grid(n, row, col) ==> (#[trigger] alive_at(g, n, row, col) <==> in_block(
            r0,
            c0,
            row,
            col,
        ))
}

/// A 2x2 block of live cells with no other live cells is a still life: one
/// tick reproduces every cell of the grid unchanged.
pub proof fn lemma_block_is_still_life(g: Seq<LifeCell>, n: int, r0: int, c0: int)
    requires
        0 <= r0 && r0 + 1 < n,
        0 <= c0 && c0 + 1 < n,
        block_only(g, n, r0, c0),
    ensures
        forall|row: int, col: int|
            in_grid(n, row, col) ==> #[trigger] next_gen_cell(g, n, row, col) == alive_at(
                g,
                n,
                row,
                col,
            ),
{
    assert forall|row: int, col: int| in_grid(n, row, col) implies #[trigger] next_gen_cell(
        g,
        n,
        row,
        col,
    ) == alive_at(g, n, row, col) by {
        assert(in_grid(n, row, col) ==> (alive_at(g, n, row, col) <==> in_block(
            r0,
            c0,
            row,
            col,
        )));
        assert(in_grid(n, row - 1, col + 1) ==> (alive_at(g, n, row - 1, col + 1) <==> in_block(
            r0,
            c0,
            row - 1,
            col + 1,
        )));
        assert(in_grid(n, row - 1, col) ==> (alive_at(g, n, row - 1, col) <==> in_block(
            r0,
            c0,
            row - 1,
            col,
        )));
        assert(in_grid(n, row - 1, col - 1) ==> (alive_at(g, n, row - 1, col - 1) <==> in_block(
            r0,
            c0,
            row - 1,
            col - 1,
        )));
        assert(in_grid(n, row, col + 1) ==> (alive_at(g, n, row, col + 1) <==> in_block(
            r0,
            c0,
            row,
            col + 1,
        )));
        assert(in_grid(n, row, col - 1) ==> (alive_at(g, n, row, col - 1) <==> in_block(
            r0,
            c0,
            row,
            col - 1,
        )));
        assert(in_grid(n, row + 1, col + 1) ==> (alive_at(g, n, row + 1, col + 1) <==> in_block(
            r0,
            c0,
            row + 1,
            col + 1,
        )));
        assert(in_grid(n, row + 1, col) ==> (alive_at(g, n, row + 1, col) <==> in_block(
            r0,
            c0,
            row + 1,
            col,
        )));
        assert(in_grid(n, row + 1, col - 1) ==> (alive_at(g, n, row + 1, col - 1) <==> in_block(
            r0,
            c0,
            row + 1,
            col - 1,
        )));
    }
}

/// 1 if `(row, col)` is an in-bounds slot of a grid of side `n`, else 0.
pub open spec fn slot_in_grid(n: int, row: int, col: int) -> int {
    if in_grid(n, row, col) {
        1
    } else {
        0
    }
}

/// How many of the 8 relative offsets around `(row, col)` stay inside the
/// grid: the denominator the neighbor count can never exceed.
pub open spec fn neighbor_slots(n: int, row: int, col: int) -> int {
    slot_in_grid(n, row - 1, col + 1) + slot_in_grid(n, row - 1, col) + slot_in_grid(
        n,
        row - 1,
        col - 1,
    ) + slot_in_grid(n, row, col + 1) + slot_in_grid(n, row, col - 1) + slot_in_grid(
        n,
        row + 1,
        col + 1,
    ) + slot_in_grid(n, row + 1, col) + slot_in_grid(n, row + 1, col - 1)
}

/// Cells outside `[0, n)` are never counted: the neighbor count is bounded
/// by the number of in-bounds offsets, which is at most 8 and exactly 3 in
/// a corner of any grid with side at least 2.
pub proof fn lemma_neighbor_count_bounded(g: Seq<LifeCell>, n: int, row: int, col: int)
    ensures
        0 <= neighbor_count(g, n, row, col) <= neighbor_slots(n, row, col),
        neighbor_slots(n, row, col) <= 8,
        n >= 2 ==> neighbor_slots(n, 0, 0) == 3,
{
}

/// Reading is idempotent: any two results that `get`'s contract admits for
/// the same store and the same coordinates are equal, so two reads with no
/// intervening tick return the same value.
pub proof fn lemma_get_idempotent(
    c: Conway,
    row: int,
    col: int,
    r1: Result<bool, GridError>,
    r2: Result<bool, GridError>,
)
    requires
        in_grid(c.grid_size as int, row, col) ==> r1 == Ok::<bool, GridError>(c.alive(row, col))
            && r2 == Ok::<bool, GridError>(c.alive(row, col)),
        !in_grid(c.grid_size as int, row, col) ==> r1 == Err::<bool, GridError>(
            GridError::OutOfBounds,
        ) && r2 == Err::<bool, GridError>(GridError::OutOfBounds),
    ensures
        r1 == r2,
{
}

} // verus!
