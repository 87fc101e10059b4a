//! The universe that a front end owns: built once with random cells, then
//! advanced in place one generation per tick.
use vstd::prelude::*;
use crate::coin::random_bool;
use crate::grid::{Grid, next_state, ring_prev, ring_next, lemma_cell_index, lemma_neighbors_on_ring};

verus! {

/// Why a universe could not be built.
#[derive(Clone, Copy, Debug, PartialEq, Eq, Structural)]
pub enum GridError {
    /// A dimension is zero, the cell count does not fit in memory, or the
    /// cells given are not one per position.
    InvalidDimensions,
}

/// A torus of `width * height` cells stored row by row.
#[derive(PartialEq, Debug)]
pub struct Universe {
    width: usize,
    height: usize,
    cells: Vec<bool>,
}

impl View for Universe {
    type V = Grid;

    closed spec fn view(&self) -> Grid {
        Grid { width: self.width as nat, height: self.height as nat, cells: self.cells@ }
    }
}

/// The rule for one cell: its next state from its state and its live
/// neighbour count.
pub fn next_cell_state(alive: bool, live_neighbors: u8) -> (r: bool)
    ensures
        r == next_state(alive, live_neighbors as int),
{
    match (alive, live_neighbors) {
        // a live cell with fewer than two live neighbours dies
        (true, x) if x < 2 => false,
        // one with two or three lives on
        (true, 2) | (true, 3) => true,
        // one with more than three dies
        (true, x) if x > 3 => false,
        // a dead cell with exactly three becomes alive
        (false, 3) => true,
        (otherwise, _) => otherwise,
    }
}

impl Clone for Universe {
    fn clone(&self) -> (r: Universe)
        ensures
            r@ == self@,
    {
        proof {
            use_type_invariant(self);
        }
        Universe { width: self.width, height: self.height, cells: self.cells.clone() }
    }
}

impl Universe {
    #[verifier::type_invariant]
    spec fn inv(self) -> bool {
        self@.wf()
    }

    /// Create a new universe initialised with random live/dead cells, each
    /// drawn from a fair coin.
    pub fn new(width: usize, height: usize) -> (r: Universe)
        requires
            width >= 1,
            height >= 1,
            width * height <= usize::MAX,
        ensures
            r@.width == width,
            r@.height == height,
            r@.wf(),
    {
        let count = width * height;
        let mut cells: Vec<bool> = Vec::new();
        let mut i: usize = 0;
        while i < count
            invariant
                i <= count,
                cells@.len() == i,
            decreases count - i,
        {
            cells.push(random_bool());
            i += 1;
        }
        Universe { width, height, cells }
    }

    /// Like `new`, but refuses dimensions that are zero or whose product
    /// overflows, instead of requiring them away.
    pub fn try_new(width: usize, height: usize) -> (r: Result<Universe, GridError>)
        ensures
            r is Ok <==> (width >= 1 && height >= 1 && width * height <= usize::MAX),
            r matches Ok(u) ==> u@.width == width && u@.height == height && u@.wf(),
            r matches Err(e) ==> e == GridError::InvalidDimensions,
    {
        if width == 0 || height == 0 {
            return Err(GridError::InvalidDimensions);
        }
        match width.checked_mul(height) {
            Some(_) => Ok(Universe::new(width, height)),
            None => Err(GridError::InvalidDimensions),
        }
    }

    /// A universe holding exactly the given cells, row by row.
    pub fn from_cells(width: usize, height: usize, cells: Vec<bool>) -> (r: Result<
        Universe,
        GridError,
    >)
        ensures
            r is Ok <==> (width >= 1 && height >= 1 && cells@.len() == width * height),
            r matches Ok(u) ==> u@ == (Grid { width: width as nat, height: height as nat, cells: cells@ }),
            r matches Err(e) ==> e == GridError::InvalidDimensions,
    {
        proof {
            assert(cells@.len() == cells.len());
        }
        if width == 0 || height == 0 {
            return Err(GridError::InvalidDimensions);
        }
        match width.checked_mul(height) {
            Some(count) if count == cells.len() => Ok(Universe { width, height, cells }),
            _ => Err(GridError::InvalidDimensions),
        }
    }

    /// The number of columns.
    pub fn width(&self) -> (r: usize)
        ensures
            r == self@.width,
            self@.wf(),
    {
        proof {
            use_type_invariant(self);
        }
        self.width
    }

    /// The number of rows.
    pub fn height(&self) -> (r: usize)
        ensures
            r == self@.height,
            self@.wf(),
    {
        proof {
            use_type_invariant(self);
        }
        self.height
    }

    /// The cells, row by row, `true` for a live one.
    pub fn cells(&self) -> (r: &[bool])
        ensures
            r@ == self@.cells,
    {
        self.cells.as_slice()
    }

    /// Whether the cell at `(row, col)` is alive.
    pub fn is_alive(&self, row: usize, col: usize) -> (r: bool)
        requires
            self@.in_bounds(row as int, col as int),
        ensures
            r == self@.alive(row as int, col as int),
    {
        self.cell_value(row, col) == 1
    }

    /// 1 when the cell at `(row, col)` is alive, else 0.
    fn cell_value(&self, row: usize, col: usize) -> (r: u8)
        requires
            self@.in_bounds(row as int, col as int),
        ensures
            r == self@.value(row as int, col as int),
    {
        proof {
            use_type_invariant(self);
            assert(self.cells@.len() == self.cells.len());
            lemma_cell_index(self.width as int, self.height as int, row as int, col as int);
        }
        if self.cells[row * self.width + col] {
            1
        } else {
            0
        }
    }

    /// Count the live neighbours around `(row, col)`; the edges wrap. The row
    /// offsets are `height - 1`, 0 and 1, the column offsets `width - 1`, 0
    /// and 1, and a pair whose offsets are both 0 is skipped as the cell
    /// itself.
    pub fn live_neighbor_count(&self, row: usize, col: usize) -> (r: u8)
        requires
            self@.in_bounds(row as int, col as int),
        ensures
            r as int == self@.neighbors(row as int, col as int),
            r <= 8,
    {
        proof {
            use_type_invariant(self);
        }
        let ghost (h, w) = (self.height as int, self.width as int);
        let above = self.height - 1;
        let before = self.width - 1;
        let up = if row == 0 { self.height - 1 } else { row - 1 };
        let down = if row + 1 == self.height { 0 } else { row + 1 };
        let left = if col == 0 { self.width - 1 } else { col - 1 };
        let right = if col + 1 == self.width { 0 } else { col + 1 };
        proof {
            lemma_neighbors_on_ring(self@, row as int, col as int);
            assert(up == ring_prev(row as int, h) && down == ring_next(row as int, h));
            assert(left == ring_prev(col as int, w) && right == ring_next(col as int, w));
        }
        let mut count: u8 = 0;
        // row offset `above`
        if !(above == 0 && before == 0) {
            count += self.cell_value(up, left);
        }
        if above != 0 {
            count += self.cell_value(up, col);
        }
        count += self.cell_value(up, right);
        // row offset 0; the pair (0, 0) is the cell itself
        if before != 0 {
            count += self.cell_value(row, left);
        }
        count += self.cell_value(row, right);
        // row offset 1
        count += self.cell_value(down, left);
        count += self.cell_value(down, col);
        count += self.cell_value(down, right);
        count
    }

    /// Advance one generation: every cell's next state is computed from the
    /// current generation before the buffer is replaced.
    pub fn tick(&mut self)
        ensures
            final(self)@ == old(self)@.next(),
            final(self)@.wf(),
    {
        proof {
            use_type_invariant(&*self);
            assert(self.cells@.len() == self.cells.len());
        }
        let ghost g = self@;
        let mut next: Vec<bool> = Vec::new();
        let mut row: usize = 0;
        while row < self.height
            invariant
                g == self@,
                g.wf(),
                self.width * self.height <= usize::MAX,
                row <= self.height,
                next@.len() == row * self.width,
                forall|i: int| 0 <= i < next@.len() ==> next@[i] == g.next().cells[i],
            decreases self.height - row,
        {
            let mut col: usize = 0;
            while col < self.width
                invariant
                    g == self@,
                    g.wf(),
                    self.width * self.height <= usize::MAX,
                    row < self.height,
                    col <= self.width,
                    next@.len() == row * self.width + col,
                    forall|i: int| 0 <= i < next@.len() ==> next@[i] == g.next().cells[i],
                decreases self.width - col,
            {
                proof {
                    lemma_cell_index(self.width as int, self.height as int, row as int, col as int);
                }
                let idx = row * self.width + col;
                let live_neighbors = self.live_neighbor_count(row, col);
                next.push(next_cell_state(self.cells[idx], live_neighbors));
                col += 1;
            }
            assert((row + 1) * self.width == row * self.width + self.width) by (nonlinear_arith);
            row += 1;
        }
        assert(next@.len() == g.cells.len()) by (nonlinear_arith)
            requires
                next@.len() == row * self.width,
                row == self.height,
                g.cells.len() == self.width * self.height,
        ;
        assert(next@ =~= g.next().cells);
        self.cells = next;
    }
}

} // verus!
