//! Bounded 2D cell storage and neighbor geometry.

use vstd::prelude::*;

use crate::cell::CellState;

verus! {

/// The error returned when a grid is constructed with degenerate dimensions.
#[derive(Debug, Copy, Clone, PartialEq, Eq, Structural)]
pub enum GridError {
    InvalidDimensions,
}

/// A rectangular, fixed-size mapping from coordinate (column `x`, row `y`) to
/// cell state. Dimensions are set at construction and immutable thereafter.
/// There is no wraparound: coordinates outside the rectangle are invalid.
#[derive(Debug)]
pub struct Grid {
    pub state: Vec<Vec<CellState>>,
    pub width: usize,
    pub height: usize,
}

/// (nx, ny) lies in the Moore neighborhood of (x, y): one of the up to 8
/// horizontally, vertically or diagonally adjacent coordinates, never (x, y)
/// itself.
pub open spec fn is_neighbor(x: int, y: int, nx: int, ny: int) -> bool {
    &&& !(nx == x && ny == y)
    &&& -1 <= nx - x <= 1
    &&& -1 <= ny - y <= 1
}

impl Grid {
    /// Well-formed: positive dimensions, and every in-bounds coordinate has
    /// exactly one defined state (`height` rows of `width` cells each).
    pub open spec fn wf(self) -> bool {
        &&& self.width >= 1
        &&& self.height >= 1
        &&& self.state@.len() == self.height
        &&& forall|y: int| 0 <= y < self.height ==> (#[trigger] self.state@[y])@.len() == self.width
    }

    /// 0 <= x < width and 0 <= y < height.
    pub open spec fn spec_in_bounds(self, x: int, y: int) -> bool {
        &&& 0 <= x < self.width
        &&& 0 <= y < self.height
    }

    /// The cell state stored at (x, y).
    pub open spec fn cell(self, x: int, y: int) -> CellState {
        self.state@[y]@[x]
    }

    /// 1 when (x, y) is in bounds and Alive, 0 otherwise. Out-of-bounds
    /// coordinates count 0, so edge cells see fewer live neighbors.
    pub open spec fn alive_at(self, x: int, y: int) -> nat {
        if self.spec_in_bounds(x, y) && self.cell(x, y) == CellState::Alive {
            1
        } else {
            0
        }
    }

    /// The number of Alive cells in the Moore neighborhood of (x, y), clipped
    /// to the grid boundary.
    pub open spec fn alive_neighbor_count(self, x: int, y: int) -> nat {
        self.alive_at(x - 1, y - 1) + self.alive_at(x, y - 1) + self.alive_at(x + 1, y - 1)
            + self.alive_at(x - 1, y) + self.alive_at(x + 1, y) + self.alive_at(x - 1, y + 1)
            + self.alive_at(x, y + 1) + self.alive_at(x + 1, y + 1)
    }

    /// Creates a grid with all cells Dead. Degenerate (zero) dimensions are
    /// rejected with `GridError::InvalidDimensions`.
    pub fn new(width: usize, height: usize) -> (r: Result<Grid, GridError>)
        ensures
            match r {
                Ok(g) => {
                    &&& width >= 1 && height >= 1
                    &&& g.wf()
                    &&& g.width == width
                    &&& g.height == height
                    &&& forall|x: int, y: int|
                        g.spec_in_bounds(x, y) ==> #[trigger] g.cell(x, y) == CellState::Dead
                },
                Err(e) => e == GridError::InvalidDimensions && (width == 0 || height == 0),
            },
    {
        if width == 0 || height == 0 {
            return Err(GridError::InvalidDimensions);
        }
        let mut state: Vec<Vec<CellState>> = Vec::new();
        let mut y: usize = 0;
        while y < height
            invariant
                y <= height,
                state@.len() == y,
                forall|yy: int|
                    0 <= yy < y ==> (#[trigger] state@[yy])@ =~= Seq::new(
                        width as nat,
                        |x: int| CellState::Dead,
                    ),
            decreases height - y,
        {
            let mut row: Vec<CellState> = Vec::new();
            let mut x: usize = 0;
            while x < width
                invariant
                    x <= width,
                    row@ =~= Seq::new(x as nat, |xx: int| CellState::Dead),
                decreases width - x,
            {
                row.push(CellState::Dead);
                x += 1;
            }
            state.push(row);
            y += 1;
        }
        Ok(Grid { state, width, height })
    }

    /// True iff (x, y) is a valid coordinate of this grid.
    pub fn in_bounds(&self, x: usize, y: usize) -> (r: bool)
        ensures
            r == self.spec_in_bounds(x as int, y as int),
    {
        x < self.width && y < self.height
    }

    /// The cell state at (x, y). Out-of-bounds access is a programming error
    /// and is excluded by the precondition.
    pub fn at(&self, x: usize, y: usize) -> (r: CellState)
        requires
            self.wf(),
            self.spec_in_bounds(x as int, y as int),
        ensures
            r == self.cell(x as int, y as int),
    {
        self.state[y][x]
    }

    /// Sets the cell at (x, y), leaving every other cell and the dimensions
    /// unchanged. This is the seeding interface: a driver marks the initial
    /// Alive cells before the first step.
    pub fn set(&mut self, x: usize, y: usize, value: CellState)
        requires
            old(self).wf(),
            old(self).spec_in_bounds(x as int, y as int),
        ensures
            final(self).wf(),
            final(self).width == old(self).width,
            final(self).height == old(self).height,
            final(self).cell(x as int, y as int) == value,
            forall|xx: int, yy: int|
                old(self).spec_in_bounds(xx, yy) && !(xx == x && yy == y)
                    ==> #[trigger] final(self).cell(xx, yy) == old(self).cell(xx, yy),
    {
        self.state[y][x] = value;
    }

    /// The set of in-bounds Moore neighbors of (x, y): up to 8 coordinates,
    /// clipped at the boundary, in an unspecified order, without duplicates,
    /// and never containing (x, y) itself. Exactly 8 iff (x, y) touches no
    /// edge of the grid.
    pub fn neighbors(&self, x: usize, y: usize) -> (r: Vec<(usize, usize)>)
        requires
            self.spec_in_bounds(x as int, y as int),
        ensures
            forall|i: int|
                0 <= i < r@.len() ==> self.spec_in_bounds(
                    (#[trigger] r@[i]).0 as int,
                    r@[i].1 as int,
                ) && is_neighbor(x as int, y as int, r@[i].0 as int, r@[i].1 as int),
            forall|i: int, j: int| 0 <= i < j < r@.len() ==> r@[i] != r@[j],
            forall|nx: usize, ny: usize|
                self.spec_in_bounds(nx as int, ny as int) && is_neighbor(
                    x as int,
                    y as int,
                    nx as int,
                    ny as int,
                ) ==> r@.contains((nx, ny)),
            r@.len() <= 8,
            r@.len() == 8 <==> (1 <= x && x + 1 < self.width && 1 <= y && y + 1 < self.height),
    {
        let mut points: Vec<(usize, usize)> = Vec::new();
        if y > 0 {
            if x > 0 {
                points.push((x - 1, y - 1));
            }
            points.push((x, y - 1));
            if x + 1 < self.width {
                points.push((x + 1, y - 1));
            }
        }
        if x > 0 {
            points.push((x - 1, y));
        }
        if x + 1 < self.width {
            points.push((x + 1, y));
        }
        if y + 1 < self.height {
            if x > 0 {
                points.push((x - 1, y + 1));
            }
            points.push((x, y + 1));
            if x + 1 < self.width {
                points.push((x + 1, y + 1));
            }
        }
        proof {
            broadcast use vstd::seq_lib::lemma_seq_contains_after_push;

            if y > 0 {
                if x > 0 {
                    assert(points@.contains(((x - 1) as usize, (y - 1) as usize)));
                }
                assert(points@.contains((x, (y - 1) as usize)));
                if x + 1 < self.width {
                    assert(points@.contains(((x + 1) as usize, (y - 1) as usize)));
                }
            }
            if x > 0 {
                assert(points@.contains(((x - 1) as usize, y)));
            }
            if x + 1 < self.width {
                assert(points@.contains(((x + 1) as usize, y)));
            }
            if y + 1 < self.height {
                if x > 0 {
                    assert(points@.contains(((x - 1) as usize, (y + 1) as usize)));
                }
                assert(points@.contains((x, (y + 1) as usize)));
                if x + 1 < self.width {
                    assert(points@.contains(((x + 1) as usize, (y + 1) as usize)));
                }
            }
        }
        points
    }

    /// Counts the Alive cells among the in-bounds Moore neighbors of (x, y),
    /// reading the current grid only.
    pub fn count_alive_neighbors(&self, x: usize, y: usize) -> (n: u8)
        requires
            self.wf(),
            self.spec_in_bounds(x as int, y as int),
        ensures
            n as nat == self.alive_neighbor_count(x as int, y as int),
    {
        let mut n: u8 = 0;
        if y > 0 {
            if x > 0 && self.at(x - 1, y - 1) == CellState::Alive {
                n += 1;
            }
            if self.at(x, y - 1) == CellState::Alive {
                n += 1;
            }
            if x + 1 < self.width && self.at(x + 1, y - 1) == CellState::Alive {
                n += 1;
            }
        }
        if x > 0 && self.at(x - 1, y) == CellState::Alive {
            n += 1;
        }
        if x + 1 < self.width && self.at(x + 1, y) == CellState::Alive {
            n += 1;
        }
        if y + 1 < self.height {
            if x > 0 && self.at(x - 1, y + 1) == CellState::Alive {
                n += 1;
            }
            if self.at(x, y + 1) == CellState::Alive {
                n += 1;
            }
            if x + 1 < self.width && self.at(x + 1, y + 1) == CellState::Alive {
                n += 1;
            }
        }
        n
    }
}

} // verus!
