//! A grid of wall and floor cells, and the first move of a maze carver on it.

use crate::random::shuffle_cells;
use vstd::prelude::*;

verus! {

/// What a cell of the grid holds.
#[derive(Clone, Copy, Debug, PartialEq, Eq, Structural)]
pub enum Cell {
    Wall,
    Floor,
}

/// A grid of cells, stored by column: `grid[x][y]` is the cell in column `x`
/// and row `y`.
pub struct Dungeon {
    pub grid: Vec<Vec<Cell>>,
    pub width: usize,
    pub height: usize,
}

impl Dungeon {
    /// Whether the grid has `width` columns of `height` cells each.
    pub open spec fn wf(self) -> bool {
        &&& self.grid@.len() == self.width
        &&& forall|x: int| 0 <= x < self.width ==> (#[trigger] self.grid@[x])@.len() == self.height
    }

    /// The cell in column `x` and row `y`.
    pub open spec fn cell(self, x: int, y: int) -> Cell {
        self.grid@[x]@[y]
    }

    /// Whether `(x, y)` lies on the grid and is a wall.
    pub open spec fn is_wall(self, x: int, y: int) -> bool {
        0 <= x < self.width && 0 <= y < self.height && self.cell(x, y) == Cell::Wall
    }

    /// The cell `(x, y)` as a list: itself if it is a wall on the grid, else
    /// nothing.
    pub open spec fn wall_at(self, x: int, y: int) -> Seq<(usize, usize)> {
        if self.is_wall(x, y) {
            seq![(x as usize, y as usize)]
        } else {
            Seq::empty()
        }
    }

    /// The walls among the four cells beside `(x, y)`: left, right, up, down,
    /// in that order.
    pub open spec fn wall_neighbors(self, x: int, y: int) -> Seq<(usize, usize)> {
        self.wall_at(x - 1, y) + self.wall_at(x + 1, y) + self.wall_at(x, y - 1) + self.wall_at(
            x,
            y + 1,
        )
    }

    /// Whether `self` is `before` with the cell `(x, y)` set to `cell` and
    /// nothing else changed.
    pub open spec fn is_update_of(self, before: Dungeon, x: int, y: int, cell: Cell) -> bool {
        &&& self.wf()
        &&& self.width == before.width
        &&& self.height == before.height
        &&& forall|a: int, b: int|
            0 <= a < self.width && 0 <= b < self.height ==> #[trigger] self.cell(a, b) == if a == x
                && b == y {
                cell
            } else {
                before.cell(a, b)
            }
    }

    /// A grid of the given size, all walls.
    pub fn new(width: usize, height: usize) -> (dungeon: Dungeon)
        ensures
            dungeon.wf(),
            dungeon.width == width,
            dungeon.height == height,
            forall|x: int, y: int|
                0 <= x < width && 0 <= y < height ==> #[trigger] dungeon.cell(x, y) == Cell::Wall,
    {
        let mut grid: Vec<Vec<Cell>> = Vec::new();
        let mut x: usize = 0;
        while x < width
            invariant
                x <= width,
                grid@.len() == x,
                forall|a: int| 0 <= a < x ==> (#[trigger] grid@[a])@.len() == height,
                forall|a: int, b: int|
                    0 <= a < x && 0 <= b < height ==> (#[trigger] grid@[a]@[b]) == Cell::Wall,
            decreases width - x,
        {
            let mut column: Vec<Cell> = Vec::new();
            let mut y: usize = 0;
            while y < height
                invariant
                    y <= height,
                    column@.len() == y,
                    forall|b: int| 0 <= b < y ==> (#[trigger] column@[b]) == Cell::Wall,
                decreases height - y,
            {
                column.push(Cell::Wall);
                y += 1;
            }
            grid.push(column);
            x += 1;
        }
        Dungeon { grid, width, height }
    }

    /// Tells whether the grid has `width` columns of `height` cells each.
    pub fn is_well_formed(&self) -> (ok: bool)
        ensures
            ok == self.wf(),
    {
        if self.grid.len() != self.width {
            return false;
        }
        let mut x: usize = 0;
        while x < self.width
            invariant
                x <= self.width,
                self.grid@.len() == self.width,
                forall|a: int| 0 <= a < x ==> (#[trigger] self.grid@[a])@.len() == self.height,
            decreases self.width - x,
        {
            if self.grid[x].len() != self.height {
                return false;
            }
            x += 1;
        }
        true
    }

    /// Collects the walls among the four cells beside `(x, y)`: left, right,
    /// up, down. Cells off the grid are left out.
    pub fn get_unvisited_neighbors(&self, x: usize, y: usize) -> (neighbors: Vec<(usize, usize)>)
        requires
            self.wf(),
        ensures
            neighbors@ == self.wall_neighbors(x as int, y as int),
    {
        let mut neighbors: Vec<(usize, usize)> = Vec::new();
        if x >= 1 && x - 1 < self.width && y < self.height && self.grid[x - 1][y] == Cell::Wall {
            neighbors.push((x - 1, y));
        }
        if x < usize::MAX && x + 1 < self.width && y < self.height && self.grid[x + 1][y]
            == Cell::Wall {
            neighbors.push((x + 1, y));
        }
        if y >= 1 && x < self.width && y - 1 < self.height && self.grid[x][y - 1] == Cell::Wall {
            neighbors.push((x, y - 1));
        }
        if y < usize::MAX && x < self.width && y + 1 < self.height && self.grid[x][y + 1]
            == Cell::Wall {
            neighbors.push((x, y + 1));
        }
        assert(neighbors@ =~= self.wall_neighbors(x as int, y as int));
        neighbors
    }

    /// Sets the cell `(x, y)`.
    fn set_cell(&mut self, x: usize, y: usize, cell: Cell)
        requires
            old(self).wf(),
            x < old(self).width,
            y < old(self).height,
        ensures
            final(self).is_update_of(*old(self), x as int, y as int, cell),
    {
        self.grid[x][y] = cell;
    }

    /// Turns the cells `(x1, y1)` and `(x2, y2)` into floor.
    pub fn carve_corridor(&mut self, x1: usize, y1: usize, x2: usize, y2: usize)
        requires
            old(self).wf(),
            x1 < old(self).width,
            y1 < old(self).height,
            x2 < old(self).width,
            y2 < old(self).height,
        ensures
            final(self).wf(),
            final(self).width == old(self).width,
            final(self).height == old(self).height,
            forall|a: int, b: int|
                0 <= a < old(self).width && 0 <= b < old(self).height ==> #[trigger] final(self).cell(
                    a,
                    b,
                ) == if (a == x1 && b == y1) || (a == x2 && b == y2) {
                    Cell::Floor
                } else {
                    old(self).cell(a, b)
                },
    {
        self.set_cell(x1, y1, Cell::Floor);
        self.set_cell(x2, y2, Cell::Floor);
    }

    /// Collects the walls beside `(x, y)` and shuffles them into the order in
    /// which a carver would visit them. Whatever that order, the cells are
    /// those of `get_unvisited_neighbors`, each once.
    pub fn shuffled_neighbors(&self, x: usize, y: usize) -> (neighbors: Vec<(usize, usize)>)
        requires
            self.wf(),
        ensures
            neighbors@.to_multiset() == self.wall_neighbors(x as int, y as int).to_multiset(),
    {
        let mut neighbors = self.get_unvisited_neighbors(x, y);
        shuffle_cells(&mut neighbors);
        neighbors
    }

    /// Makes the first move of a recursive backtracker at `(x, y)`: the cell
    /// becomes floor, and the walls beside it are collected and shuffled.
    /// Nothing else is carved.
    pub fn recursive_backtracking(&mut self, x: usize, y: usize)
        requires
            old(self).wf(),
            x < old(self).width,
            y < old(self).height,
        ensures
            final(self).is_update_of(*old(self), x as int, y as int, Cell::Floor),
    {
        self.set_cell(x, y, Cell::Floor);
        let _visit_order = self.shuffled_neighbors(x, y);
    }
}

} // verus!
