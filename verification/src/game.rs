//! The simulation: a grid advanced generation by generation under the rule.

use vstd::prelude::*;

use crate::cell::next_cell;
use crate::cell::next_state;
use crate::cell::CellState;
use crate::grid::is_neighbor;
use crate::grid::Grid;
use crate::grid::GridError;

verus! {

/// A simulation owning exactly one grid and a generation counter.
pub struct Game {
    pub grid: Grid,
    pub generation: u32,
}

/// `post` is the generation that follows `pre`: the dimensions agree, and
/// every cell of `post` is the rule applied to that cell's state and Alive
/// neighbor count in `pre`. All counts are read from `pre`, so every cell
/// transitions simultaneously against the same snapshot.
pub open spec fn stepped(pre: Grid, post: Grid) -> bool {
    &&& post.width == pre.width
    &&& post.height == pre.height
    &&& forall|x: int, y: int|
        pre.spec_in_bounds(x, y) ==> #[trigger] post.cell(x, y) == next_state(
            pre.cell(x, y),
            pre.alive_neighbor_count(x, y),
        )
}

impl Game {
    pub open spec fn wf(self) -> bool {
        self.grid.wf()
    }

    /// A fresh simulation: an all-Dead grid at generation 0. Degenerate
    /// dimensions are rejected as `Grid::new` rejects them.
    pub fn new(width: usize, height: usize) -> (r: Result<Game, GridError>)
        ensures
            match r {
                Ok(game) => {
                    &&& width >= 1 && height >= 1
                    &&& game.wf()
                    &&& game.grid.width == width
                    &&& game.grid.height == height
                    &&& game.generation == 0
                    &&& forall|x: int, y: int|
                        game.grid.spec_in_bounds(x, y) ==> #[trigger] game.grid.cell(x, y)
                            == CellState::Dead
                },
                Err(e) => e == GridError::InvalidDimensions && (width == 0 || height == 0),
            },
    {
        let grid = match Grid::new(width, height) {
            Ok(g) => g,
            Err(e) => {
                return Err(e);
            },
        };
        Ok(Game { grid, generation: 0 })
    }

    /// Advances the simulation by exactly one generation. A fresh state is
    /// computed wholly from the current grid, then the grid is replaced at
    /// once, so no cell ever sees a partially updated neighborhood; the
    /// generation counter then advances by 1 (saturating at `u32::MAX`, an
    /// overflow edge never reached in practice). Total: it cannot fail on a
    /// well-formed grid.
    pub fn step(&mut self)
        requires
            old(self).wf(),
        ensures
            final(self).wf(),
            stepped(old(self).grid, final(self).grid),
            final(self).generation == if old(self).generation < u32::MAX {
                old(self).generation + 1
            } else {
                old(self).generation as int
            },
    {
        let width = self.grid.width;
        let height = self.grid.height;
        let mut next: Vec<Vec<CellState>> = Vec::new();
        let mut y: usize = 0;
        while y < height
            invariant
                *self == *old(self),
                self.wf(),
                width == self.grid.width,
                height == self.grid.height,
                y <= height,
                next@.len() == y,
                forall|yy: int| 0 <= yy < y ==> (#[trigger] next@[yy])@.len() == width,
                forall|xx: int, yy: int|
                    0 <= yy < y && 0 <= xx < width ==> #[trigger] next@[yy]@[xx] == next_state(
                        self.grid.cell(xx, yy),
                        self.grid.alive_neighbor_count(xx, yy),
                    ),
            decreases height - y,
        {
            let mut row: Vec<CellState> = Vec::new();
            let mut x: usize = 0;
            while x < width
                invariant
                    *self == *old(self),
                    self.wf(),
                    width == self.grid.width,
                    height == self.grid.height,
                    y < height,
                    x <= width,
                    row@.len() == x,
                    forall|xx: int|
                        0 <= xx < x ==> #[trigger] row@[xx] == next_state(
                            self.grid.cell(xx, y as int),
                            self.grid.alive_neighbor_count(xx, y as int),
                        ),
                decreases width - x,
            {
                let current = self.grid.at(x, y);
                let n = self.grid.count_alive_neighbors(x, y);
                row.push(next_cell(current, n));
                x += 1;
            }
            next.push(row);
            y += 1;
        }
        self.grid.state = next;
        if self.generation < u32::MAX {
            self.generation = self.generation + 1;
        }
    }
}

/// No spontaneous generation: one step of an all-Dead grid yields an
/// all-Dead grid.
pub proof fn lemma_all_dead_stays_dead(pre: Grid, post: Grid)
    requires
        pre.wf(),
        stepped(pre, post),
        forall|x: int, y: int|
            pre.spec_in_bounds(x, y) ==> #[trigger] pre.cell(x, y) == CellState::Dead,
    ensures
        forall|x: int, y: int|
            post.spec_in_bounds(x, y) ==> #[trigger] post.cell(x, y) == CellState::Dead,
{
    assert forall|x: int, y: int|
        post.spec_in_bounds(x, y) implies #[trigger] post.cell(x, y) == CellState::Dead by {
        assert(pre.alive_neighbor_count(x, y) == 0);
    }
}

/// Underpopulation: an Alive cell with no Alive neighbor is Dead after one
/// step.
pub proof fn lemma_isolated_cell_dies(pre: Grid, post: Grid, x: int, y: int)
    requires
        pre.wf(),
        stepped(pre, post),
        pre.spec_in_bounds(x, y),
        pre.cell(x, y) == CellState::Alive,
        forall|nx: int, ny: int|
            pre.spec_in_bounds(nx, ny) && is_neighbor(x, y, nx, ny) ==> #[trigger] pre.cell(nx, ny)
                == CellState::Dead,
    ensures
        post.cell(x, y) == CellState::Dead,
{
    assert(pre.alive_neighbor_count(x, y) == 0);
}

/// Membership of (x, y) in phase `k` of a glider anchored at (gx, gy): the
/// four 5-cell shapes the glider takes during one period, phase 0 being the
/// seed shape. Every phase lies inside the 4x4 box at (gx, gy).
pub open spec fn glider_phase(k: int, gx: int, gy: int, x: int, y: int) -> bool {
    if k == 0 {
        ||| (x == gx + 1 && y == gy)
        ||| (x == gx + 2 && y == gy + 1)
        ||| (x == gx && y == gy + 2)
        ||| (x == gx + 1 && y == gy + 2)
        ||| (x == gx + 2 && y == gy + 2)
    } else if k == 1 {
        ||| (x == gx && y == gy + 1)
        ||| (x == gx + 2 && y == gy + 1)
        ||| (x == gx + 1 && y == gy + 2)
        ||| (x == gx + 2 && y == gy + 2)
        ||| (x == gx + 1 && y == gy + 3)
    } else if k == 2 {
        ||| (x == gx + 2 && y == gy + 1)
        ||| (x == gx && y == gy + 2)
        ||| (x == gx + 2 && y == gy + 2)
        ||| (x == gx + 1 && y == gy + 3)
        ||| (x == gx + 2 && y == gy + 3)
    } else {
        ||| (x == gx + 1 && y == gy + 1)
        ||| (x == gx + 2 && y == gy + 2)
        ||| (x == gx + 3 && y == gy + 2)
        ||| (x == gx + 1 && y == gy + 3)
        ||| (x == gx + 2 && y == gy + 3)
    }
}

/// 1 when (x, y) lies in phase `k` of the glider, 0 otherwise.
spec fn glider_ind(k: int, gx: int, gy: int, x: int, y: int) -> int {
    if glider_phase(k, gx, gy, x, y) {
        1
    } else {
        0
    }
}

/// The grid holds exactly one glider in phase `k` anchored at (gx, gy),
/// its 4x4 box wholly in bounds; every other cell is Dead.
pub open spec fn glider_only(g: Grid, k: int, gx: int, gy: int) -> bool {
    &&& g.wf()
    &&& 0 <= gx && gx + 3 < g.width
    &&& 0 <= gy && gy + 3 < g.height
    &&& forall|x: int, y: int|
        g.spec_in_bounds(x, y) ==> ((#[trigger] g.cell(x, y)) == CellState::Alive <==> glider_phase(
            k,
            gx,
            gy,
            x,
            y,
        ))
}

/// In a grid holding only a glider, every cell's Alive neighbor count is the
/// number of glider cells in its neighborhood.
proof fn lemma_glider_neighbor_count(pre: Grid, k: int, gx: int, gy: int, x: int, y: int)
    requires
        glider_only(pre, k, gx, gy),
        pre.spec_in_bounds(x, y),
    ensures
        pre.alive_neighbor_count(x, y) == glider_ind(k, gx, gy, x - 1, y - 1) + glider_ind(
            k,
            gx,
            gy,
            x,
            y - 1,
        ) + glider_ind(k, gx, gy, x + 1, y - 1) + glider_ind(k, gx, gy, x - 1, y) + glider_ind(
            k,
            gx,
            gy,
            x + 1,
            y,
        ) + glider_ind(k, gx, gy, x - 1, y + 1) + glider_ind(k, gx, gy, x, y + 1) + glider_ind(
            k,
            gx,
            gy,
            x + 1,
            y + 1,
        ),
{
    assert(pre.alive_at(x - 1, y - 1) == glider_ind(k, gx, gy, x - 1, y - 1));
    assert(pre.alive_at(x, y - 1) == glider_ind(k, gx, gy, x, y - 1));
    assert(pre.alive_at(x + 1, y - 1) == glider_ind(k, gx, gy, x + 1, y - 1));
    assert(pre.alive_at(x - 1, y) == glider_ind(k, gx, gy, x - 1, y));
    assert(pre.alive_at(x + 1, y) == glider_ind(k, gx, gy, x + 1, y));
    assert(pre.alive_at(x - 1, y + 1) == glider_ind(k, gx, gy, x - 1, y + 1));
    assert(pre.alive_at(x, y + 1) == glider_ind(k, gx, gy, x, y + 1));
    assert(pre.alive_at(x + 1, y + 1) == glider_ind(k, gx, gy, x + 1, y + 1));
}

/// One step advances a lone glider to its next phase; after phase 3 the seed
/// shape reappears shifted by (1, 1).
pub proof fn lemma_glider_step(pre: Grid, post: Grid, k: int, gx: int, gy: int)
    requires
        glider_only(pre, k, gx, gy),
        post.wf(),
        stepped(pre, post),
        0 <= k < 4,
        k == 3 ==> gx + 4 < pre.width && gy + 4 < pre.height,
    ensures
        k < 3 ==> glider_only(post, k + 1, gx, gy),
        k == 3 ==> glider_only(post, 0, gx + 1, gy + 1),
{
    let (k2, gx2, gy2) = if k < 3 {
        (k + 1, gx, gy)
    } else {
        (0, gx + 1, gy + 1)
    };
    assert forall|x: int, y: int|
        pre.spec_in_bounds(x, y) implies ((#[trigger] post.cell(x, y)) == CellState::Alive
        <==> glider_phase(k2, gx2, gy2, x, y)) by {
        lemma_glider_neighbor_count(pre, k, gx, gy, x, y);
    }
}

/// A lone glider whose 4x4 box keeps one cell of margin to the right and
/// lower edges translates by exactly (1, 1) over 4 successive steps.
pub proof fn lemma_glider_translates(
    g0: Grid,
    g1: Grid,
    g2: Grid,
    g3: Grid,
    g4: Grid,
    gx: int,
    gy: int,
)
    requires
        glider_only(g0, 0, gx, gy),
        gx + 4 < g0.width,
        gy + 4 < g0.height,
        g1.wf(),
        g2.wf(),
        g3.wf(),
        g4.wf(),
        stepped(g0, g1),
        stepped(g1, g2),
        stepped(g2, g3),
        stepped(g3, g4),
    ensures
        glider_only(g4, 0, gx + 1, gy + 1),
{
    lemma_glider_step(g0, g1, 0, gx, gy);
    lemma_glider_step(g1, g2, 1, gx, gy);
    lemma_glider_step(g2, g3, 2, gx, gy);
    lemma_glider_step(g3, g4, 3, gx, gy);
}

/// (x, y) lies in the 2x2 block whose upper-left corner is (bx, by).
pub open spec fn in_block(bx: int, by: int, x: int, y: int) -> bool {
    bx <= x <= bx + 1 && by <= y <= by + 1
}

/// The grid holds exactly one 2x2 block of Alive cells with upper-left
/// corner (bx, by), wholly in bounds; every other cell is Dead.
pub open spec fn block_only(g: Grid, bx: int, by: int) -> bool {
    &&& g.wf()
    &&& 0 <= bx && bx + 1 < g.width
    &&& 0 <= by && by + 1 < g.height
    &&& forall|x: int, y: int|
        g.spec_in_bounds(x, y) ==> ((#[trigger] g.cell(x, y)) == CellState::Alive <==> in_block(
            bx,
            by,
            x,
            y,
        ))
}

/// The 2x2 block is a still life: a step leaves every cell of the grid
/// unchanged. Since the resulting grid again holds exactly the block, the
/// pattern and its Dead surroundings persist over any number of successive
/// steps.
pub proof fn lemma_block_is_still_life(pre: Grid, post: Grid, bx: int, by: int)
    requires
        block_only(pre, bx, by),
        post.wf(),
        stepped(pre, post),
    ensures
        forall|x: int, y: int|
            pre.spec_in_bounds(x, y) ==> #[trigger] post.cell(x, y) == pre.cell(x, y),
        block_only(post, bx, by),
{
    assert forall|x: int, y: int|
        pre.spec_in_bounds(x, y) implies #[trigger] post.cell(x, y) == pre.cell(x, y) by {
        assert(pre.alive_at(x - 1, y - 1) == if in_block(bx, by, x - 1, y - 1) {
            1int
        } else {
            0int
        });
        assert(pre.alive_at(x, y - 1) == if in_block(bx, by, x, y - 1) {
            1int
        } else {
            0int
        });
        assert(pre.alive_at(x + 1, y - 1) == if in_block(bx, by, x + 1, y - 1) {
            1int
        } else {
            0int
        });
        assert(pre.alive_at(x - 1, y) == if in_block(bx, by, x - 1, y) {
            1int
        } else {
            0int
        });
        assert(pre.alive_at(x + 1, y) == if in_block(bx, by, x + 1, y) {
            1int
        } else {
            0int
        });
        assert(pre.alive_at(x - 1, y + 1) == if in_block(bx, by, x - 1, y + 1) {
            1int
        } else {
            0int
        });
        assert(pre.alive_at(x, y + 1) == if in_block(bx, by, x, y + 1) {
            1int
        } else {
            0int
        });
        assert(pre.alive_at(x + 1, y + 1) == if in_block(bx, by, x + 1, y + 1) {
            1int
        } else {
            0int
        });
    }
    assert forall|x: int, y: int|
        post.spec_in_bounds(x, y) implies ((#[trigger] post.cell(x, y)) == CellState::Alive
        <==> in_block(bx, by, x, y)) by {
        assert(post.cell(x, y) == pre.cell(x, y));
    }
}

} // verus!
