//! A character picture of a dungeon grid.

use crate::dungeon::{Cell, Dungeon};
use vstd::prelude::*;

verus! {

/// Draws the dungeon that it was made for.
pub struct Visualizer<'a> {
    dungeon: &'a Dungeon,
}

/// The character that stands for a cell: `#` for a wall, `.` for floor.
pub open spec fn glyph(cell: Cell) -> char {
    match cell {
        Cell::Wall => '#',
        Cell::Floor => '.',
    }
}

/// The character that stands for a cell.
pub fn cell_glyph(cell: Cell) -> (c: char)
    ensures
        c == glyph(cell),
{
    match cell {
        Cell::Wall => '#',
        Cell::Floor => '.',
    }
}

impl<'a> Visualizer<'a> {
    /// The dungeon that is drawn.
    pub closed spec fn subject(self) -> Dungeon {
        *self.dungeon
    }

    /// A visualizer for `dungeon`.
    pub fn new(dungeon: &'a Dungeon) -> (v: Self)
        ensures
            v.subject() == *dungeon,
    {
        Visualizer { dungeon }
    }

    /// The dungeon that is drawn.
    pub fn dungeon(&self) -> (d: &'a Dungeon)
        ensures
            *d == self.subject(),
    {
        self.dungeon
    }

    /// The picture, row by row from the top: row `y` holds, for every column
    /// `x` from the left, the character of the cell `(x, y)`.
    pub fn render(&self) -> (rows: Vec<Vec<char>>)
        requires
            self.subject().wf(),
        ensures
            rows@.len() == self.subject().height,
            forall|y: int|
                0 <= y < rows@.len() ==> (#[trigger] rows@[y])@.len() == self.subject().width,
            forall|x: int, y: int|
                0 <= y < self.subject().height && 0 <= x < self.subject().width ==> (
                #[trigger] rows@[y]@[x]) == glyph(self.subject().cell(x, y)),
    {
        let mut rows: Vec<Vec<char>> = Vec::new();
        let mut y: usize = 0;
        while y < self.dungeon.height
            invariant
                self.subject().wf(),
                y <= self.dungeon.height,
                rows@.len() == y,
                forall|b: int| 0 <= b < y ==> (#[trigger] rows@[b])@.len() == self.dungeon.width,
                forall|a: int, b: int|
                    0 <= b < y && 0 <= a < self.dungeon.width ==> (#[trigger] rows@[b]@[a])
                        == glyph(self.dungeon.cell(a, b)),
            decreases self.dungeon.height - y,
        {
            let mut row: Vec<char> = Vec::new();
            let mut x: usize = 0;
            while x < self.dungeon.width
                invariant
                    self.subject().wf(),
                    y < self.dungeon.height,
                    x <= self.dungeon.width,
                    row@.len() == x,
                    forall|a: int|
                        0 <= a < x ==> (#[trigger] row@[a]) == glyph(self.dungeon.cell(a, y as int)),
                decreases self.dungeon.width - x,
            {
                row.push(cell_glyph(self.dungeon.grid[x][y]));
                x += 1;
            }
            rows.push(row);
            y += 1;
        }
        rows
    }
}

} // verus!
