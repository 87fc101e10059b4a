//! The mathematical model of a universe: a torus of cells, row by row,
//! and the rule that takes it from one generation to the next.
use vstd::prelude::*;
use vstd::arithmetic::div_mod::lemma_fundamental_div_mod_converse;

verus! {

/// A universe as a value: `cells[row * width + col]` is the cell at
/// `(row, col)`, `true` when it is alive.
pub struct Grid {
    pub width: nat,
    pub height: nat,
    pub cells: Seq<bool>,
}

/// The rule of the game (born with three neighbours, survives with two or
/// three), in the order in which its cases are tried.
pub open spec fn next_state(alive: bool, n: int) -> bool {
    if alive && n < 2 {
        false
    } else if alive && (n == 2 || n == 3) {
        true
    } else if alive && n > 3 {
        false
    } else if !alive && n == 3 {
        true
    } else {
        alive
    }
}

impl Grid {
    /// Both dimensions are positive and there is one cell for each position.
    pub open spec fn wf(self) -> bool {
        &&& self.width >= 1
        &&& self.height >= 1
        &&& self.cells.len() == self.width * self.height
    }

    /// Whether `(row, col)` names a cell of the grid.
    pub open spec fn in_bounds(self, row: int, col: int) -> bool {
        0 <= row < self.height && 0 <= col < self.width
    }

    /// The state of the cell at `(row, col)`.
    pub open spec fn alive(self, row: int, col: int) -> bool {
        self.cells[row * self.width + col]
    }

    /// 1 when the cell at `(row, col)`, taken as it stands, is alive, else 0.
    pub open spec fn value(self, row: int, col: int) -> int {
        if self.alive(row, col) {
            1
        } else {
            0
        }
    }

    /// 1 when the cell at `(row, col)`, taken around the torus, is alive, else 0.
    pub open spec fn live_at(self, row: int, col: int) -> int {
        if self.alive(row % (self.height as int), col % (self.width as int)) {
            1
        } else {
            0
        }
    }

    /// What the offset pair `(dr, dc)` adds to the count around `(row, col)`:
    /// nothing for a pair whose offsets are both 0, else 1 when the cell it
    /// reaches around the torus is alive.
    pub open spec fn offset_term(self, row: int, col: int, dr: int, dc: int) -> int {
        if dr == 0 && dc == 0 {
            0
        } else {
            self.live_at(row + dr, col + dc)
        }
    }

    /// The live neighbour count of `(row, col)`: the sum over the row offsets
    /// `[height - 1, 0, 1]` and the column offsets `[width - 1, 0, 1]`, a pair
    /// whose offsets are both 0 left out. On a grid one cell high the offset
    /// `height - 1` is 0 as well, so its pairs are left out too, and positions
    /// that coincide are counted once for each pair that reaches them.
    pub open spec fn neighbors(self, row: int, col: int) -> int {
        let (above, before) = (self.height - 1, self.width - 1);
        self.offset_term(row, col, above, before) + self.offset_term(row, col, above, 0)
            + self.offset_term(row, col, above, 1) + self.offset_term(row, col, 0, before)
            + self.offset_term(row, col, 0, 0) + self.offset_term(row, col, 0, 1)
            + self.offset_term(row, col, 1, before) + self.offset_term(row, col, 1, 0)
            + self.offset_term(row, col, 1, 1)
    }

    /// The next generation: every cell follows the rule, on the counts of
    /// this generation.
    pub open spec fn next(self) -> Grid {
        Grid {
            width: self.width,
            height: self.height,
            cells: Seq::new(
                self.cells.len(),
                |i: int|
                    next_state(
                        self.cells[i],
                        self.neighbors(i / (self.width as int), i % (self.width as int)),
                    ),
            ),
        }
    }

    /// The grid after `n` generations.
    pub open spec fn generation(self, n: nat) -> Grid
        decreases n,
    {
        if n == 0 {
            self
        } else {
            self.generation((n - 1) as nat).next()
        }
    }
}

/// The cell at `(row, col)` lies at `row * width + col`, inside the buffer,
/// and that index gives back its row and column.
pub proof fn lemma_cell_index(width: int, height: int, row: int, col: int)
    requires
        0 <= row < height,
        0 <= col < width,
    ensures
        0 <= row * width + col < width * height,
        (row * width + col) / width == row,
        (row * width + col) % width == col,
{
    assert(0 <= row * width + col < width * height) by (nonlinear_arith)
        requires
            0 <= row < height,
            0 <= col < width,
    ;
    lemma_fundamental_div_mod_converse(row * width + col, width, row, col);
}

/// A position less than one turn past the end of a ring of `n` wraps back
/// onto it by taking `n` off.
pub proof fn lemma_wrap(x: int, n: int)
    requires
        n >= 1,
        0 <= x < 2 * n,
    ensures
        x % n == (if x < n {
            x
        } else {
            x - n
        }),
{
    if x < n {
        lemma_fundamental_div_mod_converse(x, n, 0, x);
    } else {
        lemma_fundamental_div_mod_converse(x, n, 1, x - n);
    }
}

/// The position before `x` on a ring of `n`: `(x + n - 1) % n`.
pub open spec fn ring_prev(x: int, n: int) -> int {
    if x == 0 {
        n - 1
    } else {
        x - 1
    }
}

/// The position after `x` on a ring of `n`: `(x + 1) % n`.
pub open spec fn ring_next(x: int, n: int) -> int {
    if x + 1 == n {
        0
    } else {
        x + 1
    }
}

/// The neighbour count of an in-bounds cell, with the wrap-around written
/// out as the ring positions before and after its row and column, and the
/// pairs of offsets that are both 0 left out.
pub proof fn lemma_neighbors_on_ring(g: Grid, row: int, col: int)
    requires
        g.wf(),
        g.in_bounds(row, col),
    ensures
        ({
            let (h, w) = (g.height as int, g.width as int);
            let (up, down) = (ring_prev(row, h), ring_next(row, h));
            let (left, right) = (ring_prev(col, w), ring_next(col, w));
            g.neighbors(row, col) == (if h == 1 && w == 1 { 0 } else { g.value(up, left) })
                + (if h == 1 { 0 } else { g.value(up, col) }) + g.value(up, right)
                + (if w == 1 { 0 } else { g.value(row, left) }) + g.value(row, right)
                + g.value(down, left) + g.value(down, col) + g.value(down, right)
        }),
{
    let (h, w) = (g.height as int, g.width as int);
    lemma_wrap(row + h - 1, h);
    lemma_wrap(row, h);
    lemma_wrap(row + 1, h);
    lemma_wrap(col + w - 1, w);
    lemma_wrap(col, w);
    lemma_wrap(col + 1, w);
}

/// The cell at `(row, col)` of the next generation is the rule applied to
/// its state and its neighbour count in this one.
pub proof fn lemma_next_cell(g: Grid, row: int, col: int)
    requires
        g.wf(),
        g.in_bounds(row, col),
    ensures
        g.next().alive(row, col) == next_state(g.alive(row, col), g.neighbors(row, col)),
{
    lemma_cell_index(g.width as int, g.height as int, row, col);
}

/// Advancing keeps the dimensions and one cell per position.
pub proof fn lemma_next_keeps_size(g: Grid)
    requires
        g.wf(),
    ensures
        g.next().wf(),
        g.next().width == g.width,
        g.next().height == g.height,
{
}

/// However many generations pass, the dimensions and the cell count stay.
pub proof fn lemma_generations_keep_size(g: Grid, n: nat)
    requires
        g.wf(),
    ensures
        g.generation(n).wf(),
        g.generation(n).width == g.width,
        g.generation(n).height == g.height,
    decreases n,
{
    if n > 0 {
        lemma_generations_keep_size(g, (n - 1) as nat);
        lemma_next_keeps_size(g.generation((n - 1) as nat));
    }
}

/// Advancing depends on nothing but the grid: two equal grids, however
/// they were obtained, advance to equal grids.
pub proof fn lemma_next_deterministic(a: Grid, b: Grid)
    requires
        a.wf(),
        a.width == b.width,
        a.height == b.height,
        a.cells =~= b.cells,
    ensures
        a.next() == b.next(),
{
    assert(a == b);
}

/// A cell has between zero and eight live neighbours.
pub proof fn lemma_neighbors_bounded(g: Grid, row: int, col: int)
    requires
        g.wf(),
        g.in_bounds(row, col),
    ensures
        0 <= g.neighbors(row, col) <= 8,
{
}

/// The edges wrap diagonally: a live cell in the bottom-right corner is a
/// neighbour of the top-left cell.
pub proof fn lemma_corner_wraps(g: Grid)
    requires
        g.wf(),
        g.alive(g.height - 1, g.width - 1),
    ensures
        g.neighbors(0, 0) >= 1,
{
    lemma_neighbors_on_ring(g, 0, 0);
}

/// A live cell with fewer than two live neighbours, an isolated one among
/// them, is dead in the next generation.
pub proof fn lemma_underpopulation(g: Grid, row: int, col: int)
    requires
        g.wf(),
        g.in_bounds(row, col),
        g.alive(row, col),
        g.neighbors(row, col) < 2,
    ensures
        !g.next().alive(row, col),
{
    lemma_next_cell(g, row, col);
}

/// A dead cell with exactly three live neighbours is alive in the next
/// generation.
pub proof fn lemma_reproduction(g: Grid, row: int, col: int)
    requires
        g.wf(),
        g.in_bounds(row, col),
        !g.alive(row, col),
        g.neighbors(row, col) == 3,
    ensures
        g.next().alive(row, col),
{
    lemma_next_cell(g, row, col);
}

/// Whether `(row, col)` lies in the 2x2 block whose top-left cell is
/// `(top, left)`.
pub open spec fn in_block(top: int, left: int, row: int, col: int) -> bool {
    top <= row <= top + 1 && left <= col <= left + 1
}

/// Each cell of a grid whose live cells are exactly one 2x2 block keeps its
/// state.
proof fn lemma_block_cell(g: Grid, top: int, left: int, row: int, col: int)
    requires
        g.wf(),
        g.height >= 3,
        g.width >= 3,
        0 <= top,
        top + 1 < g.height,
        0 <= left,
        left + 1 < g.width,
        forall|r: int, c: int| #[trigger]
            g.in_bounds(r, c) ==> g.alive(r, c) == in_block(top, left, r, c),
        g.in_bounds(row, col),
    ensures
        next_state(g.alive(row, col), g.neighbors(row, col)) == g.alive(row, col),
{
    let (h, w) = (g.height as int, g.width as int);
    lemma_neighbors_on_ring(g, row, col);
    let (up, down) = (ring_prev(row, h), ring_next(row, h));
    let (west, east) = (ring_prev(col, w), ring_next(col, w));
    assert(g.in_bounds(up, west) && g.in_bounds(up, col) && g.in_bounds(up, east));
    assert(g.in_bounds(row, west) && g.in_bounds(row, col) && g.in_bounds(row, east));
    assert(g.in_bounds(down, west) && g.in_bounds(down, col) && g.in_bounds(down, east));
}

/// A 2x2 block of live cells, every other cell dead, is a still life on any
/// grid at least three cells high and wide that holds the block without
/// wrapping it.
pub proof fn lemma_block_still_life(g: Grid, top: int, left: int)
    requires
        g.wf(),
        g.height >= 3,
        g.width >= 3,
        0 <= top,
        top + 1 < g.height,
        0 <= left,
        left + 1 < g.width,
        forall|r: int, c: int| #[trigger]
            g.in_bounds(r, c) ==> g.alive(r, c) == in_block(top, left, r, c),
    ensures
        g.next() == g,
{
    let w = g.width as int;
    assert forall|i: int| 0 <= i < g.cells.len() implies g.next().cells[i] == g.cells[i] by {
        let (row, col) = (i / w, i % w);
        assert(0 <= row < g.height && 0 <= col < w && i == row * w + col) by (nonlinear_arith)
            requires
                row == i / w,
                col == i % w,
                0 <= i < w * g.height,
                w >= 1,
        ;
        lemma_block_cell(g, top, left, row, col);
    }
    assert(g.next().cells =~= g.cells);
}

} // verus!
