//! The cellular-automaton simulation core: grid storage, the
//! generation-advance rule, and the generation/throttle bookkeeping.
//!
//! The grid is a fixed `N x N` square held as a flat vector in row-major
//! order (`index = row * N + col`). The topology is bounded: offsets that
//! land outside `[0, N)` on either axis are simply not neighbors.

use vstd::prelude::*;

verus! {

use vstd::pervasive::VecAdditionalExecFns;

/// One cell of the grid: its coordinates and whether it is alive.
#[derive(Clone, Copy, Debug, PartialEq, Eq, Structural)]
pub struct LifeCell {
    pub row: usize,
    pub col: usize,
    pub alive: bool,
}

/// The errors the core can report: a dimension whose square does not fit
/// in memory, and a coordinate outside `[0, N)`.
#[derive(Clone, Copy, Debug, PartialEq, Eq, Structural)]
pub enum GridError {
    InvalidDimension,
    OutOfBounds,
}

/// Both coordinates lie inside a grid of side `n`.
pub open spec fn in_grid(n: int, row: int, col: int) -> bool {
    0 <= row < n && 0 <= col < n
}

/// The cell stored at `(row, col)` of a flat row-major grid of side `n`.
pub open spec fn cell_at(g: Seq<LifeCell>, n: int, row: int, col: int) -> LifeCell {
    g[row * n + col]
}

/// Whether the cell at `(row, col)` is alive.
pub open spec fn alive_at(g: Seq<LifeCell>, n: int, row: int, col: int) -> bool {
    cell_at(g, n, row, col).alive
}

/// 1 if `(row, col)` is an in-bounds live cell, else 0. Out-of-bounds
/// slots contribute nothing: the grid does not wrap around.
pub open spec fn live_in_slot(g: Seq<LifeCell>, n: int, row: int, col: int) -> int {
    if in_grid(n, row, col) && alive_at(g, n, row, col) {
        1
    } else {
        0
    }
}

/// How many of the up-to-8 adjacent in-bounds cells are alive.
pub open spec fn neighbor_count(g: Seq<LifeCell>, n: int, row: int, col: int) -> int {
    live_in_slot(g, n, row - 1, col + 1) + live_in_slot(g, n, row - 1, col) + live_in_slot(
        g,
        n,
        row - 1,
        col - 1,
    ) + live_in_slot(g, n, row, col + 1) + live_in_slot(g, n, row, col - 1) + live_in_slot(
        g,
        n,
        row + 1,
        col + 1,
    ) + live_in_slot(g, n, row + 1, col) + live_in_slot(g, n, row + 1, col - 1)
}

/// The transition rule: a live cell survives with 2 or 3 live neighbors;
/// a dead cell is born with exactly 3; everything else is dead.
pub open spec fn next_state(alive: bool, live_neighbors: int) -> bool {
    if alive {
        live_neighbors == 2 || live_neighbors == 3
    } else {
        live_neighbors == 3
    }
}

/// What the cell at `(row, col)` becomes after one tick of the grid `g`.
pub open spec fn next_gen_cell(g: Seq<LifeCell>, n: int, row: int, col: int) -> bool {
    next_state(alive_at(g, n, row, col), neighbor_count(g, n, row, col))
}

/// Row-major index arithmetic: an in-bounds pair lands inside the flat array.
pub proof fn lemma_flat_index_bounds(n: int, row: int, col: int)
    requires
        in_grid(n, row, col),
    ensures
        0 <= row * n + col < n * n,
{
    assert(0 <= row * n + col < n * n) by (nonlinear_arith)
        requires
            0 <= row < n,
            0 <= col < n,
    ;
}

/// Row-major order: a strictly earlier `(row, col)` pair has a strictly
/// smaller flat index.
pub proof fn lemma_flat_index_order(n: int, r1: int, c1: int, r2: int, c2: int)
    requires
        0 <= r1,
        0 <= c1 < n,
        0 <= r2,
        0 <= c2 <= n,
        r1 < r2 || (r1 == r2 && c1 < c2),
    ensures
        r1 * n + c1 < r2 * n + c2,
{
    assert(r1 * n + c1 < r2 * n + c2) by (nonlinear_arith)
        requires
            0 <= r1,
            0 <= c1 < n,
            0 <= r2,
            0 <= c2 <= n,
            r1 < r2 || (r1 == r2 && c1 < c2),
    ;
}

/// Row-major indexing is injective over in-bounds pairs.
pub proof fn lemma_flat_index_injective(n: int, r1: int, c1: int, r2: int, c2: int)
    requires
        in_grid(n, r1, c1),
        in_grid(n, r2, c2),
        r1 * n + c1 == r2 * n + c2,
    ensures
        r1 == r2 && c1 == c2,
{
    if r1 < r2 || (r1 == r2 && c1 < c2) {
        lemma_flat_index_order(n, r1, c1, r2, c2);
    } else if r2 < r1 || (r1 == r2 && c2 < c1) {
        lemma_flat_index_order(n, r2, c2, r1, c1);
    }
}

/// Liveness of one in-bounds cell, read straight from the flat array.
fn alive_at_index(cells: &Vec<LifeCell>, n: usize, row: usize, col: usize) -> (b: bool)
    requires
        n * n <= usize::MAX,
        cells@.len() == n * n,
        row < n,
        col < n,
    ensures
        b == alive_at(cells@, n as int, row as int, col as int),
{
    proof {
        lemma_flat_index_bounds(n as int, row as int, col as int);
    }
    cells[row * n + col].alive
}

/// Counts the live cells among the up-to-8 in-bounds neighbors of
/// `(row, col)`, skipping every offset that leaves `[0, n)` on either axis.
pub fn count_live_neighbors(cells: &Vec<LifeCell>, n: usize, row: usize, col: usize) -> (count:
    u8)
    requires
        n * n <= usize::MAX,
        cells@.len() == n * n,
        row < n,
        col < n,
    ensures
        count as int == neighbor_count(cells@, n as int, row as int, col as int),
        count <= 8,
{
    let mut count: u8 = 0;
    if row >= 1 {
        if col + 1 < n && alive_at_index(cells, n, row - 1, col + 1) {
            count = count + 1;
        }
        if alive_at_index(cells, n, row - 1, col) {
            count = count + 1;
        }
        if col >= 1 && alive_at_index(cells, n, row - 1, col - 1) {
            count = count + 1;
        }
    }
    if col + 1 < n && alive_at_index(cells, n, row, col + 1) {
        count = count + 1;
    }
    if col >= 1 && alive_at_index(cells, n, row, col - 1) {
        count = count + 1;
    }
    if row + 1 < n {
        if col + 1 < n && alive_at_index(cells, n, row + 1, col + 1) {
            count = count + 1;
        }
        if alive_at_index(cells, n, row + 1, col) {
            count = count + 1;
        }
        if col >= 1 && alive_at_index(cells, n, row + 1, col - 1) {
            count = count + 1;
        }
    }
    count
}

/// One application of the transition rule to a single cell.
pub fn apply_rule(alive: bool, live_neighbors: u8) -> (next: bool)
    ensures
        next == next_state(alive, live_neighbors as int),
{
    if alive {
        live_neighbors == 2 || live_neighbors == 3
    } else {
        live_neighbors == 3
    }
}

/// The live cells of a grid, in row-major order.
pub open spec fn live_seq(g: Seq<LifeCell>) -> Seq<LifeCell> {
    g.filter(|cell: LifeCell| cell.alive)
}

/// Extending a prefix by one cell extends its live subsequence exactly when
/// that cell is alive.
proof fn lemma_live_seq_step(g: Seq<LifeCell>, i: int)
    requires
        0 <= i < g.len(),
    ensures
        live_seq(g.take(i + 1)) == if g[i].alive {
            live_seq(g.take(i)).push(g[i])
        } else {
            live_seq(g.take(i))
        },
{
    reveal(Seq::filter);
    assert(g.take(i + 1).drop_last() =~= g.take(i));
    assert(g.take(i + 1).last() == g[i]);
}

/// Relies on rand's `Rng::gen_range` over the inclusive range `1..=6`:
/// it returns a value inside the given range, and panics only when the
/// range is empty, which `1..=6` is not.
#[verifier::external_body]
fn roll_die() -> (roll: u8)
    ensures
        1 <= roll <= 6,
{
    rand::Rng::gen_range(&mut rand::thread_rng(), 1..=6)
}

/// The simulation core: the authoritative cell array of the current
/// generation, the monotonic generation counter, and the throttle gate
/// that paces when the next generation may be computed.
#[derive(Debug)]
pub struct Conway {
    pub current: Vec<LifeCell>,
    pub generation: usize,
    pub grid_size: usize,
    pub tick_allowed: bool,
}

impl Conway {
    /// Every in-range `(row, col)` pair has exactly one entry, stored at
    /// `row * N + col` and stamped with its own coordinates; the counter
    /// starts at 1.
    pub open spec fn wf(self) -> bool {
        &&& self.grid_size * self.grid_size <= usize::MAX
        &&& self.current@.len() == self.grid_size * self.grid_size
        &&& self.generation >= 1
        &&& forall|row: int, col: int|
            in_grid(self.grid_size as int, row, col) ==> (#[trigger] cell_at(
                self.current@,
                self.grid_size as int,
                row,
                col,
            )).row == row && cell_at(self.current@, self.grid_size as int, row, col).col == col
    }

    /// The liveness of the cell at `(row, col)` in the current generation.
    pub open spec fn alive(self, row: int, col: int) -> bool {
        alive_at(self.current@, self.grid_size as int, row, col)
    }

    /// Builds a fully-dead grid of side `size`. A side of 0 gives a
    /// trivially-empty grid; a side whose square does not fit in `usize`
    /// is rejected.
    pub fn new(size: usize) -> (r: Result<Conway, GridError>)
        ensures
            (size * size <= usize::MAX) <==> r is Ok,
            r matches Ok(c) ==> c.wf() && c.grid_size == size && c.generation == 1
                && !c.tick_allowed && forall|row: int, col: int|
                in_grid(size as int, row, col) ==> !(#[trigger] alive_at(
                    c.current@,
                    size as int,
                    row,
                    col,
                )),
            r matches Err(e) ==> e == GridError::InvalidDimension,
    {
        let total = match size.checked_mul(size) {
            Some(t) => t,
            None => {
                return Err(GridError::InvalidDimension);
            },
        };
        let mut cells: Vec<LifeCell> = Vec::with_capacity(total);
        let mut row: usize = 0;
        while row < size
            invariant
                row <= size,
                size * size == total <= usize::MAX,
                cells@.len() == row * size,
                forall|i: int, j: int|
                    0 <= i < row && 0 <= j < size ==> {
                        let cell = #[trigger] cell_at(cells@, size as int, i, j);
                        cell.row == i && cell.col == j && !cell.alive
                    },
            decreases size - row,
        {
            let mut col: usize = 0;
            while col < size
                invariant
                    row < size,
                    col <= size,
                    size * size == total <= usize::MAX,
                    cells@.len() == row * size + col,
                    forall|i: int, j: int|
                        (0 <= i < row && 0 <= j < size) || (i == row && 0 <= j < col) ==> {
                            let cell = #[trigger] cell_at(cells@, size as int, i, j);
                            cell.row == i && cell.col == j && !cell.alive
                        },
                decreases size - col,
            {
                let ghost prev = cells@;
                cells.push(LifeCell { row, col, alive: false });
                proof {
                    assert forall|i: int, j: int|
                        (0 <= i < row && 0 <= j < size) || (i == row && 0 <= j < col + 1) implies {
                        let cell = #[trigger] cell_at(cells@, size as int, i, j);
                        cell.row == i && cell.col == j && !cell.alive
                    } by {
                        lemma_flat_index_order(size as int, i, j, row as int, col + 1);
                        if i == row && j == col {
                            assert(cell_at(cells@, size as int, i, j) == (LifeCell {
                                row,
                                col,
                                alive: false,
                            }));
                        } else {
                            lemma_flat_index_order(size as int, i, j, row as int, col as int);
                            assert(cell_at(cells@, size as int, i, j) == cell_at(
                                prev,
                                size as int,
                                i,
                                j,
                            ));
                        }
                    }
                }
                col = col + 1;
            }
            proof {
                assert((row + 1) * size == row * size + size) by (nonlinear_arith);
            }
            row = row + 1;
        }
        proof {
            assert forall|row: int, col: int|
                in_grid(size as int, row, col) implies !(#[trigger] alive_at(
                cells@,
                size as int,
                row,
                col,
            )) by {
                lemma_flat_index_bounds(size as int, row, col);
            }
        }
        Ok(Conway { current: cells, generation: 1, grid_size: size, tick_allowed: false })
    }

    /// Builds a grid of side `size` with every cell seeded independently:
    /// alive exactly when a fresh six-sided die roll exceeds
    /// `live_threshold`. A threshold of 3 gives the usual roughly-1-in-2
    /// seeding; 0 makes every cell alive, and 6 or more makes every cell
    /// dead.
    pub fn new_random(size: usize, live_threshold: u8) -> (r: Result<Conway, GridError>)
        ensures
            (size * size <= usize::MAX) <==> r is Ok,
            r matches Ok(c) ==> c.wf() && c.grid_size == size && c.generation == 1
                && !c.tick_allowed,
            r matches Ok(c) ==> (live_threshold >= 6 ==> forall|row: int, col: int|
                in_grid(size as int, row, col) ==> !(#[trigger] alive_at(
                    c.current@,
                    size as int,
                    row,
                    col,
                ))),
            r matches Ok(c) ==> (live_threshold == 0 ==> forall|row: int, col: int|
                in_grid(size as int, row, col) ==> #[trigger] alive_at(
                    c.current@,
                    size as int,
                    row,
                    col,
                )),
            r matches Err(e) ==> e == GridError::InvalidDimension,
    {
        let total = match size.checked_mul(size) {
            Some(t) => t,
            None => {
                return Err(GridError::InvalidDimension);
            },
        };
        let mut cells: Vec<LifeCell> = Vec::with_capacity(total);
        let mut row: usize = 0;
        while row < size
            invariant
                row <= size,
                size * size == total <= usize::MAX,
                cells@.len() == row * size,
                forall|i: int, j: int|
                    0 <= i < row && 0 <= j < size ==> {
                        let cell = #[trigger] cell_at(cells@, size as int, i, j);
                        cell.row == i && cell.col == j && (live_threshold >= 6 ==> !cell.alive) && (
                        live_threshold == 0 ==> cell.alive)
                    },
            decreases size - row,
        {
            let mut col: usize = 0;
            while col < size
                invariant
                    row < size,
                    col <= size,
                    size * size == total <= usize::MAX,
                    cells@.len() == row * size + col,
                    forall|i: int, j: int|
                        (0 <= i < row && 0 <= j < size) || (i == row && 0 <= j < col) ==> {
                            let cell = #[trigger] cell_at(cells@, size as int, i, j);
                            cell.row == i && cell.col == j && (live_threshold >= 6 ==> !cell.alive)
                                && (live_threshold == 0 ==> cell.alive)
                        },
                decreases size - col,
            {
                let alive = roll_die() > live_threshold;
                let ghost prev = cells@;
                cells.push(LifeCell { row, col, alive });
                proof {
                    assert forall|i: int, j: int|
                        (0 <= i < row && 0 <= j < size) || (i == row && 0 <= j < col + 1) implies {
                        let cell = #[trigger] cell_at(cells@, size as int, i, j);
                        cell.row == i && cell.col == j && (live_threshold >= 6 ==> !cell.alive) && (
                        live_threshold == 0 ==> cell.alive)
                    } by {
                        lemma_flat_index_order(size as int, i, j, row as int, col + 1);
                        if i == row && j == col {
                            assert(cell_at(cells@, size as int, i, j) == (LifeCell {
                                row,
                                col,
                                alive,
                            }));
                        } else {
                            lemma_flat_index_order(size as int, i, j, row as int, col as int);
                            assert(cell_at(cells@, size as int, i, j) == cell_at(
                                prev,
                                size as int,
                                i,
                                j,
                            ));
                        }
                    }
                }
                col = col + 1;
            }
            proof {
                assert((row + 1) * size == row * size + size) by (nonlinear_arith);
            }
            row = row + 1;
        }
        proof {
            assert forall|row: int, col: int| in_grid(size as int, row, col) implies {
                let cell = #[trigger] cell_at(cells@, size as int, row, col);
                (live_threshold >= 6 ==> !cell.alive) && (live_threshold == 0 ==> cell.alive)
            } by {
                lemma_flat_index_bounds(size as int, row, col);
            }
        }
        Ok(Conway { current: cells, generation: 1, grid_size: size, tick_allowed: false })
    }

    /// The live cells of the current generation, in row-major order: what
    /// the shell materializes as visual entities after each advance.
    pub fn live_cells(&self) -> (v: Vec<LifeCell>)
        ensures
            v@ == live_seq(self.current@),
    {
        let mut v: Vec<LifeCell> = Vec::new();
        let len = self.current.len();
        let mut idx: usize = 0;
        while idx < len
            invariant
                idx <= len,
                len == self.current@.len(),
                v@ == live_seq(self.current@.take(idx as int)),
            decreases len - idx,
        {
            let cell = self.current[idx];
            proof {
                lemma_live_seq_step(self.current@, idx as int);
            }
            if cell.alive {
                v.push(cell);
            }
            idx = idx + 1;
        }
        proof {
            assert(self.current@.take(len as int) =~= self.current@);
        }
        v
    }

    /// Point query: the liveness of `(row, col)`, or `OutOfBounds` when a
    /// coordinate falls outside `[0, N)`.
    pub fn get(&self, row: usize, col: usize) -> (r: Result<bool, GridError>)
        requires
            self.wf(),
        ensures
            in_grid(self.grid_size as int, row as int, col as int) ==> r == Ok::<
                bool,
                GridError,
            >(self.alive(row as int, col as int)),
            !in_grid(self.grid_size as int, row as int, col as int) ==> r == Err::<
                bool,
                GridError,
            >(GridError::OutOfBounds),
    {
        if row < self.grid_size && col < self.grid_size {
            proof {
                lemma_flat_index_bounds(self.grid_size as int, row as int, col as int);
            }
            Ok(self.current[row * self.grid_size + col].alive)
        } else {
            Err(GridError::OutOfBounds)
        }
    }

    /// Point update: overwrites the liveness of `(row, col)`, leaving every
    /// other cell as it was, or reports `OutOfBounds` and changes nothing.
    pub fn set(&mut self, row: usize, col: usize, alive: bool) -> (r: Result<(), GridError>)
        requires
            old(self).wf(),
        ensures
            final(self).wf(),
            final(self).grid_size == old(self).grid_size,
            final(self).generation == old(self).generation,
            final(self).tick_allowed == old(self).tick_allowed,
            in_grid(old(self).grid_size as int, row as int, col as int) ==> r == Ok::<
                (),
                GridError,
            >(()) && final(self).alive(row as int, col as int) == alive && forall|i: int, j: int|
                in_grid(old(self).grid_size as int, i, j) && !(i == row && j == col)
                    ==> #[trigger] final(self).alive(i, j) == old(self).alive(i, j),
            !in_grid(old(self).grid_size as int, row as int, col as int) ==> r == Err::<
                (),
                GridError,
            >(GridError::OutOfBounds) && *final(self) == *old(self),
    {
        let n = self.grid_size;
        if row < n && col < n {
            proof {
                lemma_flat_index_bounds(n as int, row as int, col as int);
            }
            let ghost prev = self.current@;
            let idx = row * n + col;
            self.current.set(idx, LifeCell { row, col, alive });
            proof {
                assert forall|i: int, j: int| in_grid(n as int, i, j) implies {
                    let cell = #[trigger] cell_at(self.current@, n as int, i, j);
                    (!(i == row && j == col) ==> cell == cell_at(prev, n as int, i, j)) && ((i
                        == row && j == col) ==> cell == (LifeCell { row, col, alive }))
                } by {
                    lemma_flat_index_bounds(n as int, i, j);
                    if i * n + j == idx {
                        lemma_flat_index_injective(n as int, i, j, row as int, col as int);
                    }
                }
            }
            Ok(())
        } else {
            Err(GridError::OutOfBounds)
        }
    }

    /// The side length `N`, fixed for the store's lifetime.
    pub fn grid_size(&self) -> (n: usize)
        ensures
            n == self.grid_size,
    {
        self.grid_size
    }

    /// The monotonic generation counter; the initial state is generation 1.
    pub fn generation(&self) -> (g: usize)
        ensures
            g == self.generation,
    {
        self.generation
    }

    /// Advances the grid by one generation: every cell of the new buffer is
    /// computed from the pre-transition buffer alone, the buffers are swapped
    /// as one atomic replacement, and the generation counter grows by exactly
    /// one. A side of 0 yields another empty generation.
    pub fn tick(&mut self)
        requires
            old(self).wf(),
            old(self).generation < usize::MAX,
        ensures
            final(self).wf(),
            final(self).grid_size == old(self).grid_size,
            final(self).generation == old(self).generation + 1,
            final(self).tick_allowed == old(self).tick_allowed,
            forall|row: int, col: int|
                in_grid(old(self).grid_size as int, row, col) ==> #[trigger] final(self).alive(
                    row,
                    col,
                ) == next_gen_cell(old(self).current@, old(self).grid_size as int, row, col),
    {
        let n = self.grid_size;
        let ghost g0 = self.current@;
        let total = n * n;
        let mut next_cells: Vec<LifeCell> = Vec::with_capacity(total);
        let mut row: usize = 0;
        while row < n
            invariant
                self.wf(),
                n == self.grid_size,
                self.current@ == g0,
                row <= n,
                next_cells@.len() == row * n,
                forall|i: int, j: int|
                    0 <= i < row && 0 <= j < n ==> {
                        let cell = #[trigger] cell_at(next_cells@, n as int, i, j);
                        cell.row == i && cell.col == j && cell.alive == next_gen_cell(
                            g0,
                            n as int,
                            i,
                            j,
                        )
                    },
            decreases n - row,
        {
            let mut col: usize = 0;
            while col < n
                invariant
                    self.wf(),
                    n == self.grid_size,
                    self.current@ == g0,
                    row < n,
                    col <= n,
                    next_cells@.len() == row * n + col,
                    forall|i: int, j: int|
                        (0 <= i < row && 0 <= j < n) || (i == row && 0 <= j < col) ==> {
                            let cell = #[trigger] cell_at(next_cells@, n as int, i, j);
                            cell.row == i && cell.col == j && cell.alive == next_gen_cell(
                                g0,
                                n as int,
                                i,
                                j,
                            )
                        },
                decreases n - col,
            {
                let live_neighbors = count_live_neighbors(&self.current, n, row, col);
                proof {
                    lemma_flat_index_bounds(n as int, row as int, col as int);
                }
                let was_alive = self.current[row * n + col].alive;
                let next_alive = apply_rule(was_alive, live_neighbors);
                let ghost prev = next_cells@;
                next_cells.push(LifeCell { row, col, alive: next_alive });
                proof {
                    assert forall|i: int, j: int|
                        (0 <= i < row && 0 <= j < n) || (i == row && 0 <= j < col + 1) implies {
                        let cell = #[trigger] cell_at(next_cells@, n as int, i, j);
                        cell.row == i && cell.col == j && cell.alive == next_gen_cell(
                            g0,
                            n as int,
                            i,
                            j,
                        )
                    } by {
                        lemma_flat_index_order(n as int, i, j, row as int, col + 1);
                        if i == row && j == col {
                            assert(cell_at(next_cells@, n as int, i, j) == (LifeCell {
                                row,
                                col,
                                alive: next_alive,
                            }));
                        } else {
                            lemma_flat_index_order(n as int, i, j, row as int, col as int);
                            assert(cell_at(next_cells@, n as int, i, j) == cell_at(
                                prev,
                                n as int,
                                i,
                                j,
                            ));
                        }
                    }
                }
                col = col + 1;
            }
            proof {
                assert((row + 1) * n == row * n + n) by (nonlinear_arith);
            }
            row = row + 1;
        }
        self.current = next_cells;
        self.generation = self.generation + 1;
    }

    /// Whether the throttle gate is open, i.e. whether the pacing layer has
    /// signalled that the next generation may be computed.
    pub fn is_tick_allowed(&self) -> (allowed: bool)
        ensures
            allowed == self.tick_allowed,
    {
        self.tick_allowed
    }

    /// Opens the throttle gate. Only an external timing signal calls this;
    /// nothing else changes.
    pub fn allow_tick(&mut self)
        ensures
            final(self).tick_allowed,
            final(self).current == old(self).current,
            final(self).generation == old(self).generation,
            final(self).grid_size == old(self).grid_size,
    {
        self.tick_allowed = true;
    }

    /// Closes the throttle gate without computing anything; nothing else
    /// changes.
    pub fn mark_tick_consumed(&mut self)
        ensures
            !final(self).tick_allowed,
            final(self).current == old(self).current,
            final(self).generation == old(self).generation,
            final(self).grid_size == old(self).grid_size,
    {
        self.tick_allowed = false;
    }

    /// Advances one generation only when the throttle permits it, and
    /// withdraws the permission immediately after the transition: at most one
    /// transition happens per timing signal. Without permission, the state is
    /// untouched.
    pub fn try_tick(&mut self) -> (ticked: bool)
        requires
            old(self).wf(),
            old(self).generation < usize::MAX,
        ensures
            final(self).wf(),
            ticked == old(self).tick_allowed,
            !ticked ==> *final(self) == *old(self),
            ticked ==> !final(self).tick_allowed && final(self).grid_size == old(self).grid_size
                && final(self).generation == old(self).generation + 1 && forall|row: int, col: int|
                in_grid(old(self).grid_size as int, row, col) ==> #[trigger] final(self).alive(
                    row,
                    col,
                ) == next_gen_cell(old(self).current@, old(self).grid_size as int, row, col),
    {
        if self.tick_allowed {
            self.tick();
            let ghost mid = *self;
            self.tick_allowed = false;
            proof {
                assert forall|row: int, col: int|
                    in_grid(old(self).grid_size as int, row, col) implies #[trigger] self.alive(
                    row,
                    col,
                ) == next_gen_cell(old(self).current@, old(self).grid_size as int, row, col) by {
                    assert(self.alive(row, col) == mid.alive(row, col));
                }
            }
            true
        } else {
            false
        }
    }
}

impl Default for Conway {
    /// The default simulation: a 50 x 50 fully-dead board at generation 1
    /// with the throttle gate closed.
    fn default() -> (c: Conway)
        ensures
            c.wf(),
            c.grid_size == 50,
            c.generation == 1,
            !c.tick_allowed,
            forall|row: int, col: int|
                in_grid(50, row, col) ==> !(#[trigger] c.alive(row, col)),
    {
        match Conway::new(50) {
            Ok(c) => c,
            Err(_) => {
                proof {
                    assert(false);  // 50 * 50 always fits in usize
                }
                Conway { current: Vec::new(), generation: 1, grid_size: 0, tick_allowed: false }
            },
        }
    }
}

} // verus!
