//! Grid coordinates and rectangle tests.

use vstd::prelude::*;

verus! {

/// A position on the grid, or a width and a height.
#[derive(Clone, Copy, Debug, PartialEq, Eq, Structural)]
pub struct Vec2 {
    pub x: u32,
    pub y: u32,
}

/// An axis-aligned rectangle of tiles: `extent.x` columns and `extent.y` rows,
/// the top-left tile being `origin`.
#[derive(Clone, Copy, Debug, PartialEq, Eq, Structural)]
pub struct Rect {
    pub origin: Vec2,
    pub extent: Vec2,
}

/// Whether the half-open spans `[a_lo, a_lo + a_len)` and `[b_lo, b_lo + b_len)`,
/// each widened by `pad` at both ends, share a coordinate's worth of room.
pub open spec fn spans_meet(a_lo: int, a_len: int, b_lo: int, b_len: int, pad: int) -> bool {
    a_lo - pad < b_lo + b_len + pad && b_lo - pad < a_lo + a_len + pad
}

impl Rect {
    /// Whether tile `(x, y)` lies in the rectangle grown by `pad` tiles on every side.
    pub open spec fn padded_contains(self, x: int, y: int, pad: int) -> bool {
        &&& self.origin.x - pad <= x < self.origin.x + self.extent.x + pad
        &&& self.origin.y - pad <= y < self.origin.y + self.extent.y + pad
    }

    /// Whether the tile `p` lies in the rectangle.
    pub open spec fn contains(self, p: Vec2) -> bool {
        self.padded_contains(p.x as int, p.y as int, 0)
    }

    /// Whether the two rectangles, each grown by `pad` tiles on every side, meet on both axes.
    pub open spec fn overlaps(self, other: Rect, pad: int) -> bool {
        &&& spans_meet(
            self.origin.x as int,
            self.extent.x as int,
            other.origin.x as int,
            other.extent.x as int,
            pad,
        )
        &&& spans_meet(
            self.origin.y as int,
            self.extent.y as int,
            other.origin.y as int,
            other.extent.y as int,
            pad,
        )
    }

    /// Whether the rectangle grown by `pad` holds at least one tile.
    pub open spec fn padded_nonempty(self, pad: int) -> bool {
        self.extent.x + 2 * pad > 0 && self.extent.y + 2 * pad > 0
    }
}

/// Two padded rectangles that hold a tile each overlap exactly when some tile
/// lies in both of them.
pub proof fn lemma_overlap_is_common_tile(a: Rect, b: Rect, pad: int)
    requires
        a.padded_nonempty(pad),
        b.padded_nonempty(pad),
    ensures
        a.overlaps(b, pad) <==> exists|x: int, y: int|
            a.padded_contains(x, y, pad) && b.padded_contains(x, y, pad),
{
    if a.overlaps(b, pad) {
        let x = if a.origin.x >= b.origin.x {
            a.origin.x - pad
        } else {
            b.origin.x - pad
        };
        let y = if a.origin.y >= b.origin.y {
            a.origin.y - pad
        } else {
            b.origin.y - pad
        };
        assert(a.padded_contains(x, y, pad) && b.padded_contains(x, y, pad));
    }
}

/// Overlap does not depend on the order of the two rectangles.
pub proof fn lemma_overlap_symmetric(a: Rect, b: Rect, pad: int)
    ensures
        a.overlaps(b, pad) == b.overlaps(a, pad),
{
}

/// Tells whether the bounding boxes of `a` and `b`, each grown by `padding`
/// tiles on every side, intersect on both axes.
pub fn rectangles_overlap(a: &Rect, b: &Rect, padding: u32) -> (hit: bool)
    ensures
        hit == a.overlaps(*b, padding as int),
{
    let pad: u64 = 2 * (padding as u64);
    let ax: u64 = a.origin.x as u64;
    let ay: u64 = a.origin.y as u64;
    let bx: u64 = b.origin.x as u64;
    let by: u64 = b.origin.y as u64;
    ax < bx + b.extent.x as u64 + pad && bx < ax + a.extent.x as u64 + pad && ay < by
        + b.extent.y as u64 + pad && by < ay + a.extent.y as u64 + pad
}

/// Tells whether `p` lies within `[origin, origin + extent)` on both axes.
pub fn point_in_rectangle(p: Vec2, origin: Vec2, extent: Vec2) -> (inside: bool)
    ensures
        inside == (Rect { origin, extent }).contains(p),
{
    let px: u64 = p.x as u64;
    let py: u64 = p.y as u64;
    origin.x <= p.x && px < origin.x as u64 + extent.x as u64 && origin.y <= p.y && py
        < origin.y as u64 + extent.y as u64
}

} // verus!
