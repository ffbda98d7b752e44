//! Corridors: straight segments and the hallways chained from them.
//!
//! The grid's origin is its top-left tile: `Up` lowers `y`, `Down` raises it,
//! `Left` lowers `x` and `Right` raises it.

use crate::geometry::Vec2;
use vstd::prelude::*;

verus! {

/// The four ways a segment can run.
#[derive(Clone, Copy, Debug, PartialEq, Eq, Structural)]
pub enum Direction {
    Up,
    Down,
    Left,
    Right,
}

/// The two classes of direction.
#[derive(Clone, Copy, Debug, PartialEq, Eq, Structural)]
pub enum Axis {
    Horizontal,
    Vertical,
}

/// A straight run of corridor: the tile `start` and `length` more tiles in
/// `axis_direction`.
#[derive(Clone, Copy, Debug, PartialEq, Eq, Structural)]
pub struct Segment {
    pub start: Vec2,
    pub length: u32,
    pub axis_direction: Direction,
}

/// A corridor between two anchor tiles.
#[derive(Debug)]
pub struct Hallway {
    pub entry_point: Vec2,
    pub exit_point: Vec2,
    pub segments: Vec<Segment>,
}

impl Direction {
    /// The axis along which the direction runs.
    pub open spec fn axis(self) -> Axis {
        match self {
            Direction::Left | Direction::Right => Axis::Horizontal,
            Direction::Up | Direction::Down => Axis::Vertical,
        }
    }
}

impl Axis {
    /// The other axis.
    pub open spec fn other(self) -> Axis {
        match self {
            Axis::Horizontal => Axis::Vertical,
            Axis::Vertical => Axis::Horizontal,
        }
    }

    /// The other axis.
    pub fn turned(self) -> (r: Axis)
        ensures
            r == self.other(),
    {
        match self {
            Axis::Horizontal => Axis::Vertical,
            Axis::Vertical => Axis::Horizontal,
        }
    }
}

impl Segment {
    /// The column of the last tile, which may lie off the grid.
    pub open spec fn end_x(self) -> int {
        match self.axis_direction {
            Direction::Left => self.start.x - self.length,
            Direction::Right => self.start.x + self.length,
            _ => self.start.x as int,
        }
    }

    /// The row of the last tile, which may lie off the grid.
    pub open spec fn end_y(self) -> int {
        match self.axis_direction {
            Direction::Up => self.start.y - self.length,
            Direction::Down => self.start.y + self.length,
            _ => self.start.y as int,
        }
    }

    /// Whether the last tile, and so every tile, lies on the grid.
    pub open spec fn on_grid(self) -> bool {
        0 <= self.end_x() <= u32::MAX && 0 <= self.end_y() <= u32::MAX
    }

    /// The last tile of a segment that lies on the grid.
    pub open spec fn end_tile(self) -> Vec2
        recommends
            self.on_grid(),
    {
        Vec2 { x: self.end_x() as u32, y: self.end_y() as u32 }
    }

    /// Whether `p` is one of the segment's tiles, both ends included. A
    /// vertical segment asks for its own column and a row in its range, a
    /// horizontal one for its own row and a column in its range.
    pub open spec fn covers(self, p: Vec2) -> bool {
        match self.axis_direction {
            Direction::Up => p.x == self.start.x && self.start.y - self.length <= p.y
                <= self.start.y,
            Direction::Down => p.x == self.start.x && self.start.y <= p.y <= self.start.y
                + self.length,
            Direction::Left => p.y == self.start.y && self.start.x - self.length <= p.x
                <= self.start.x,
            Direction::Right => p.y == self.start.y && self.start.x <= p.x <= self.start.x
                + self.length,
        }
    }

    /// The segment's last tile, or `None` if the segment runs off the grid.
    pub fn end(&self) -> (r: Option<Vec2>)
        ensures
            match r {
                Some(p) => self.on_grid() && p == self.end_tile(),
                None => !self.on_grid(),
            },
    {
        match self.axis_direction {
            Direction::Up => {
                if self.length > self.start.y {
                    None
                } else {
                    Some(Vec2 { x: self.start.x, y: self.start.y - self.length })
                }
            },
            Direction::Down => {
                if self.length > u32::MAX - self.start.y {
                    None
                } else {
                    Some(Vec2 { x: self.start.x, y: self.start.y + self.length })
                }
            },
            Direction::Left => {
                if self.length > self.start.x {
                    None
                } else {
                    Some(Vec2 { x: self.start.x - self.length, y: self.start.y })
                }
            },
            Direction::Right => {
                if self.length > u32::MAX - self.start.x {
                    None
                } else {
                    Some(Vec2 { x: self.start.x + self.length, y: self.start.y })
                }
            },
        }
    }

    /// Tells whether `p` is one of the segment's tiles.
    pub fn contains_point(&self, p: Vec2) -> (r: bool)
        ensures
            r == self.covers(p),
    {
        match self.axis_direction {
            Direction::Up => p.x == self.start.x && p.y <= self.start.y && self.start.y - p.y
                <= self.length,
            Direction::Down => p.x == self.start.x && p.y >= self.start.y && p.y - self.start.y
                <= self.length,
            Direction::Left => p.y == self.start.y && p.x <= self.start.x && self.start.x - p.x
                <= self.length,
            Direction::Right => p.y == self.start.y && p.x >= self.start.x && p.x - self.start.x
                <= self.length,
        }
    }
}

/// Whether segment `i` of `segments` ends on the tile where the next one starts.
pub open spec fn joined(segments: Seq<Segment>, i: int) -> bool {
    segments[i].end_tile() == segments[i + 1].start
}

/// Whether `segments` lead from `entry` to `exit` without a gap: every
/// segment lies on the grid, the first starts at `entry`, each ends where the
/// next starts, and the last ends at `exit`. With no segment at all, `entry`
/// and `exit` are the same tile.
pub open spec fn chained(entry: Vec2, exit: Vec2, segments: Seq<Segment>) -> bool {
    &&& forall|i: int| 0 <= i < segments.len() ==> (#[trigger] segments[i]).on_grid()
    &&& if segments.len() == 0 {
        entry == exit
    } else {
        segments.first().start == entry && segments.last().end_tile() == exit
    }
    &&& forall|i: int| 0 <= i < segments.len() - 1 ==> #[trigger] joined(segments, i)
}

/// Whether `p` is a tile of one of `segments`.
pub open spec fn on_any_segment(segments: Seq<Segment>, p: Vec2) -> bool {
    exists|i: int| 0 <= i < segments.len() && (#[trigger] segments[i]).covers(p)
}

impl Hallway {
    /// Whether the hallway's segments lead from its entry to its exit
    /// without a gap.
    pub open spec fn is_chained(self) -> bool {
        chained(self.entry_point, self.exit_point, self.segments@)
    }

    /// Whether `p` is a tile of one of the hallway's segments.
    pub open spec fn covers(self, p: Vec2) -> bool {
        on_any_segment(self.segments@, p)
    }

    /// Tells whether the hallway's segments lead from its entry to its exit
    /// without a gap.
    pub fn check_chained(&self) -> (r: bool)
        ensures
            r == self.is_chained(),
    {
        let n = self.segments.len();
        let mut at = self.entry_point;
        let mut i: usize = 0;
        while i < n
            invariant
                n == self.segments@.len(),
                i <= n,
                forall|k: int| 0 <= k < i ==> (#[trigger] self.segments@[k]).on_grid(),
                forall|k: int| 0 <= k < i - 1 ==> #[trigger] joined(self.segments@, k),
                i == 0 ==> at == self.entry_point,
                i > 0 ==> self.segments@[0].start == self.entry_point
                    && at == self.segments@[i - 1].end_tile(),
            decreases n - i,
        {
            let segment = &self.segments[i];
            if segment.start != at {
                proof {
                    if i > 0 {
                        assert(!joined(self.segments@, i - 1));
                    }
                }
                return false;
            }
            match segment.end() {
                None => {
                    return false;
                },
                Some(p) => {
                    at = p;
                },
            }
            i += 1;
        }
        at == self.exit_point
    }

    /// Tells whether `p` is a tile of one of the hallway's segments.
    pub fn contains_point(&self, p: Vec2) -> (r: bool)
        ensures
            r == self.covers(p),
    {
        let mut i: usize = 0;
        while i < self.segments.len()
            invariant
                i <= self.segments@.len(),
                forall|k: int| 0 <= k < i ==> !(#[trigger] self.segments@[k]).covers(p),
            decreases self.segments@.len() - i,
        {
            if self.segments[i].contains_point(p) {
                return true;
            }
            i += 1;
        }
        false
    }
}

} // verus!
