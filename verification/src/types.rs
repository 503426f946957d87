//! The data model: a cell, the adjacency pattern of a board variant, a
//! dense three-dimensional board of cells, and the coordinate tag used to
//! report state changes to the host.

use vstd::prelude::*;

use crate::config::DECAY_TICKS;
use crate::config::MAX_DIM;

verus! {

/// The atomic unit of simulation state.
///
/// A cell is alive while `dead` is false.  Once it enters its decline phase
/// (`decaying` true) its `decaying_ticks` budget counts down; reaching zero
/// kills it.  `neighbors` caches the live-neighbor count, recomputed for
/// the whole board once per tick before any state transition.
#[derive(Clone, Copy, PartialEq, Eq, Structural, Debug)]
pub struct Cell {
    pub decaying: bool,
    pub decaying_ticks: u32,
    pub dead: bool,
    pub neighbors: u32,
}

/// The resting state: dead, not decaying, no budget, no cached neighbors.
/// It is both the initial state of an unseeded cell and the terminal state
/// after a full decay cycle.
pub open spec fn rest_cell() -> Cell {
    Cell { decaying: false, decaying_ticks: 0, dead: true, neighbors: 0 }
}

/// A cell that has just been spawned or seeded: alive, not decaying, with
/// the full decay budget, and with `n` as its cached neighbor count.
pub open spec fn alive_fresh_cell(n: u32) -> Cell {
    Cell { decaying: false, decaying_ticks: DECAY_TICKS, dead: false, neighbors: n }
}

/// The per-cell state invariant.  A dead cell carries no decay state at
/// all; a live cell that has not entered decay still holds its full
/// budget; and no cell ever holds more than the full budget.  Seeding
/// establishes it and every tick preserves it.
pub open spec fn cell_ok(c: Cell) -> bool {
    &&& c.dead ==> (!c.decaying && c.decaying_ticks == 0)
    &&& (!c.dead && !c.decaying) ==> c.decaying_ticks == DECAY_TICKS
    &&& c.decaying_ticks <= DECAY_TICKS
}

impl Default for Cell {
    /// An unseeded cell starts in the resting state.
    fn default() -> (c: Cell)
        ensures
            c == rest_cell(),
    {
        Cell { decaying: false, decaying_ticks: 0, dead: true, neighbors: 0 }
    }
}

/// Which cells count as neighbors of a coordinate.
#[derive(Clone, Copy, PartialEq, Eq, Structural, Debug)]
pub enum Adjacency {
    /// The full Moore neighborhood in the x-y plane: all 8 cells adjacent
    /// horizontally, vertically or diagonally.  Used by planar boards,
    /// which have depth 1.
    Planar8,
    /// Face adjacency: the 6 cells offset by one along exactly one axis.
    /// Used by volumetric boards.
    Volumetric6,
}

/// An immutable coordinate tag, used to correlate a reported state change
/// back to a board coordinate.
#[derive(Clone, Copy, PartialEq, Eq, Structural, Debug)]
pub struct Position {
    pub x: usize,
    pub y: usize,
    pub z: usize,
}

/// A dense grid of cells, indexed by `x < width`, `y < height`,
/// `z < depth`.  The board is created once and mutated in place every
/// tick; no cell is ever added or removed, only its fields change.
pub struct Board {
    pub cells: Vec<Vec<Vec<Cell>>>,
    pub width: usize,
    pub height: usize,
    pub depth: usize,
    pub adjacency: Adjacency,
}

impl Board {
    /// Structural well-formedness: the grid is dense with the stated
    /// extents, and each extent is small enough that coordinate
    /// arithmetic cannot overflow.
    pub open spec fn wf(self) -> bool {
        &&& self.width <= MAX_DIM
        &&& self.height <= MAX_DIM
        &&& self.depth <= MAX_DIM
        &&& self.cells@.len() == self.width
        &&& forall|x: int|
            0 <= x < self.width ==> (#[trigger] self.cells@[x])@.len() == self.height
        &&& forall|x: int, y: int|
            0 <= x < self.width && 0 <= y < self.height ==> (#[trigger] self.cells@[x]@[y])@.len()
                == self.depth
    }

    /// Whether a (possibly negative) coordinate lies on the board.
    pub open spec fn spec_in_bounds(self, x: int, y: int, z: int) -> bool {
        0 <= x < self.width && 0 <= y < self.height && 0 <= z < self.depth
    }

    /// The cell at an in-bounds coordinate.
    pub open spec fn spec_cell(self, x: int, y: int, z: int) -> Cell {
        self.cells@[x]@[y]@[z]
    }

    /// Whether every cell of the board satisfies the per-cell state
    /// invariant.
    pub open spec fn cells_ok(self) -> bool {
        forall|x: int, y: int, z: int|
            self.spec_in_bounds(x, y, z) ==> cell_ok(#[trigger] self.spec_cell(x, y, z))
    }

    /// Whether two boards have the same extents and adjacency pattern.
    pub open spec fn same_shape(self, other: Board) -> bool {
        &&& self.width == other.width
        &&& self.height == other.height
        &&& self.depth == other.depth
        &&& self.adjacency == other.adjacency
    }

    /// Creates a board of the given extents with every cell at rest.
    pub fn new(width: usize, height: usize, depth: usize, adjacency: Adjacency) -> (board: Board)
        requires
            width <= MAX_DIM,
            height <= MAX_DIM,
            depth <= MAX_DIM,
        ensures
            board.wf(),
            board.width == width,
            board.height == height,
            board.depth == depth,
            board.adjacency == adjacency,
            forall|x: int, y: int, z: int|
                board.spec_in_bounds(x, y, z) ==> #[trigger] board.spec_cell(x, y, z)
                    == rest_cell(),
    {
        let mut cells: Vec<Vec<Vec<Cell>>> = Vec::new();
        let mut x: usize = 0;
        while x < width
            invariant
                x <= width,
                cells@.len() == x,
                forall|i: int| 0 <= i < x ==> (#[trigger] cells@[i])@.len() == height,
                forall|i: int, j: int|
                    0 <= i < x && 0 <= j < height ==> (#[trigger] cells@[i]@[j])@.len() == depth,
                forall|i: int, j: int, k: int|
                    0 <= i < x && 0 <= j < height && 0 <= k < depth ==> #[trigger] cells@[i]@[j]@[k]
                        == rest_cell(),
            decreases width - x,
        {
            let mut column: Vec<Vec<Cell>> = Vec::new();
            let mut y: usize = 0;
            while y < height
                invariant
                    y <= height,
                    column@.len() == y,
                    forall|j: int| 0 <= j < y ==> (#[trigger] column@[j])@.len() == depth,
                    forall|j: int, k: int|
                        0 <= j < y && 0 <= k < depth ==> #[trigger] column@[j]@[k] == rest_cell(),
                decreases height - y,
            {
                let mut row: Vec<Cell> = Vec::new();
                let mut z: usize = 0;
                while z < depth
                    invariant
                        z <= depth,
                        row@.len() == z,
                        forall|k: int| 0 <= k < z ==> #[trigger] row@[k] == rest_cell(),
                    decreases depth - z,
                {
                    row.push(Cell::default());
                    z = z + 1;
                }
                column.push(row);
                y = y + 1;
            }
            cells.push(column);
            x = x + 1;
        }
        Board { cells, width, height, depth, adjacency }
    }

    /// Reads the cell at an in-bounds coordinate.
    pub fn get(&self, x: usize, y: usize, z: usize) -> (c: Cell)
        requires
            self.wf(),
            self.spec_in_bounds(x as int, y as int, z as int),
        ensures
            c == self.spec_cell(x as int, y as int, z as int),
    {
        self.cells[x][y][z]
    }

    /// Overwrites the cell at an in-bounds coordinate, leaving every other
    /// cell and the board's shape unchanged.
    pub fn set_cell(&mut self, x: usize, y: usize, z: usize, c: Cell)
        requires
            old(self).wf(),
            old(self).spec_in_bounds(x as int, y as int, z as int),
        ensures
            final(self).wf(),
            final(self).same_shape(*old(self)),
            final(self).spec_cell(x as int, y as int, z as int) == c,
            forall|i: int, j: int, k: int|
                old(self).spec_in_bounds(i, j, k) && !(i == x && j == y && k == z)
                    ==> #[trigger] final(self).spec_cell(i, j, k) == old(self).spec_cell(i, j, k),
    {
        let plane: &mut Vec<Vec<Cell>> = &mut self.cells[x];
        let row: &mut Vec<Cell> = &mut plane[y];
        row.set(z, c);
    }

    /// Marks a cell alive-fresh at board-creation time: alive, not
    /// decaying, full decay budget, no cached neighbors yet.
    pub fn seed_cell(&mut self, x: usize, y: usize, z: usize)
        requires
            old(self).wf(),
            old(self).spec_in_bounds(x as int, y as int, z as int),
        ensures
            final(self).wf(),
            final(self).same_shape(*old(self)),
            final(self).spec_cell(x as int, y as int, z as int) == alive_fresh_cell(0),
            forall|i: int, j: int, k: int|
                old(self).spec_in_bounds(i, j, k) && !(i == x && j == y && k == z)
                    ==> #[trigger] final(self).spec_cell(i, j, k) == old(self).spec_cell(i, j, k),
    {
        self.set_cell(
            x,
            y,
            z,
            Cell { decaying: false, decaying_ticks: DECAY_TICKS, dead: false, neighbors: 0 },
        );
    }
}

} // verus!
