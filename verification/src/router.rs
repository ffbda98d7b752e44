//! Routing of one corridor between two tiles, round the rooms in its way.
//!
//! The router moves in straight runs, turning after every run. A run heads
//! for the goal's coordinate on its axis; where a room holds a tile of the
//! run, the run is cut short `CLEARANCE` tiles before that room, and the next
//! run, across, leads past the room. The first run takes the axis on which
//! the goal is farther away. A run that would not move is not recorded, so no
//! segment has length zero.

use crate::geometry::{Rect, Vec2};
use crate::hallway::{chained, joined, on_any_segment, Axis, Direction, Segment};
use crate::room::{any_room_contains, in_some_room, Room};
use vstd::prelude::*;

verus! {

/// How far before a room's first tile a blocked run stops.
pub const CLEARANCE: u32 = 2;

/// The number of runs after which the router gives up.
pub const MAX_ROUTE_STEPS: u32 = 256;

/// Why no route was found.
#[derive(Clone, Copy, Debug, PartialEq, Eq, Structural)]
pub enum RouteError {
    /// The entry or the exit tile lies inside a room.
    EndpointInsideRoom,
    /// The goal was not reached within `MAX_ROUTE_STEPS` runs.
    StepBudgetExhausted,
}

/// Where the router stands: the tile, the axis of its next run, and the room
/// that cut its last run short, if one did.
#[derive(Clone, Copy, Debug, PartialEq, Eq, Structural)]
pub struct Cursor {
    pub at: Vec2,
    pub axis: Axis,
    pub around: Option<usize>,
}

/// The coordinate of `p` along `axis`.
pub open spec fn along(p: Vec2, axis: Axis) -> int {
    match axis {
        Axis::Horizontal => p.x as int,
        Axis::Vertical => p.y as int,
    }
}

/// The tile `p` with its coordinate along `axis` set to `to`.
pub open spec fn moved(p: Vec2, axis: Axis, to: int) -> Vec2 {
    match axis {
        Axis::Horizontal => Vec2 { x: to as u32, y: p.y },
        Axis::Vertical => Vec2 { x: p.x, y: to as u32 },
    }
}

/// The first coordinate along `axis` that `r` takes up.
pub open spec fn span_lo(r: Rect, axis: Axis) -> int {
    along(r.origin, axis)
}

/// The first coordinate along `axis` past `r`.
pub open spec fn span_hi(r: Rect, axis: Axis) -> int {
    along(r.origin, axis) + along(r.extent, axis)
}

/// For a run along `axis` in lane `lane` (its coordinate across), leaving
/// `from` towards `to`: the number of steps after which the run first stands
/// on a tile of `r`, if it ever does. The tile at `from` itself does not count.
pub open spec fn hit_distance(r: Rect, axis: Axis, lane: int, from: int, to: int) -> Option<int> {
    let lo = span_lo(r, axis);
    let hi = span_hi(r, axis);
    if !(span_lo(r, axis.other()) <= lane < span_hi(r, axis.other())) {
        None
    } else if from < to {
        let first = if lo > from + 1 {
            lo
        } else {
            from + 1
        };
        if first <= to && first < hi {
            Some(first - from)
        } else {
            None
        }
    } else if to < from {
        let first = if hi - 1 < from - 1 {
            hi - 1
        } else {
            from - 1
        };
        if first >= to && first >= lo {
            Some(from - first)
        } else {
            None
        }
    } else {
        None
    }
}

/// The coordinate `n` steps from `from` in the direction of `to`.
pub open spec fn toward(from: int, to: int, n: int) -> int {
    if from <= to {
        from + n
    } else {
        from - n
    }
}

/// The number of steps from `from` to `to`.
pub open spec fn run_length(from: int, to: int) -> int {
    if from <= to {
        to - from
    } else {
        from - to
    }
}

/// Whether `r` holds the tile at coordinate `c` of lane `lane` along `axis`.
pub open spec fn holds_run_tile(r: Rect, axis: Axis, lane: int, c: int) -> bool {
    match axis {
        Axis::Horizontal => r.padded_contains(c, lane, 0),
        Axis::Vertical => r.padded_contains(lane, c, 0),
    }
}

/// What `hit_distance` counts: the steps up to the first tile of the run
/// that lies in `r`. If there is such a tile, no tile before it lies in `r`;
/// if there is none, no tile of the run after its start lies in `r`.
pub proof fn lemma_hit_distance_is_first_tile(r: Rect, axis: Axis, lane: int, from: int, to: int)
    ensures
        match hit_distance(r, axis, lane, from, to) {
            Some(d) => {
                &&& 1 <= d <= run_length(from, to)
                &&& holds_run_tile(r, axis, lane, toward(from, to, d))
                &&& forall|n: int|
                    1 <= n < d ==> !holds_run_tile(r, axis, lane, #[trigger] toward(from, to, n))
            },
            None => forall|n: int|
                1 <= n <= run_length(from, to) ==> !holds_run_tile(
                    r,
                    axis,
                    lane,
                    #[trigger] toward(from, to, n),
                ),
        },
{
}

/// The steps after which the run first stands on a tile of room `j`, if it
/// ever does.
pub open spec fn steps_to_room(
    rooms: Seq<Room>,
    j: int,
    axis: Axis,
    lane: int,
    from: int,
    to: int,
) -> Option<int> {
    hit_distance(rooms[j].rect(), axis, lane, from, to)
}

/// Whether room `i` is the one that the run meets first: no room is met
/// sooner, and of those met at the same step `i` comes first in the list.
pub open spec fn is_nearest_hit(
    rooms: Seq<Room>,
    i: usize,
    axis: Axis,
    lane: int,
    from: int,
    to: int,
) -> bool {
    &&& i < rooms.len()
    &&& steps_to_room(rooms, i as int, axis, lane, from, to) matches Some(d)
    &&& forall|j: int|
        0 <= j < rooms.len() ==> (#[trigger] steps_to_room(rooms, j, axis, lane, from, to)
            matches Some(e) ==> d < e || (d == e && i <= j))
}

/// The room that the run meets first, if it meets any.
pub open spec fn nearest_hit(rooms: Seq<Room>, axis: Axis, lane: int, from: int, to: int) -> Option<
    usize,
> {
    if exists|i: usize| is_nearest_hit(rooms, i, axis, lane, from, to) {
        Some(choose|i: usize| is_nearest_hit(rooms, i, axis, lane, from, to))
    } else {
        None
    }
}

/// Where a run from `from` towards `to` stops: at `to` if no room is met,
/// else `CLEARANCE` tiles before the first tile of the nearest room, but
/// never behind `from`.
pub open spec fn run_stop(rooms: Seq<Room>, axis: Axis, lane: int, from: int, to: int) -> int {
    match nearest_hit(rooms, axis, lane, from, to) {
        None => to,
        Some(i) => {
            let d = steps_to_room(rooms, i as int, axis, lane, from, to)->0;
            let free = if d > CLEARANCE {
                d - CLEARANCE
            } else {
                0
            };
            toward(from, to, free)
        },
    }
}

/// At most one room is the nearest hit of a run.
pub proof fn lemma_nearest_hit_unique(
    rooms: Seq<Room>,
    i: usize,
    j: usize,
    axis: Axis,
    lane: int,
    from: int,
    to: int,
)
    requires
        is_nearest_hit(rooms, i, axis, lane, from, to),
        is_nearest_hit(rooms, j, axis, lane, from, to),
    ensures
        i == j,
{
    assert(steps_to_room(rooms, i as int, axis, lane, from, to) is Some);
    assert(steps_to_room(rooms, j as int, axis, lane, from, to) is Some);
}

/// The steps to the first tile of `r` on a run, computed on machine integers.
fn steps_to_hit(r: &Rect, axis: Axis, lane: u32, from: u32, to: u32) -> (d: Option<u32>)
    ensures
        match d {
            Some(n) => hit_distance(*r, axis, lane as int, from as int, to as int) == Some(n as int),
            None => hit_distance(*r, axis, lane as int, from as int, to as int) is None,
        },
{
    let (lo, len, cross_lo, cross_len) = match axis {
        Axis::Horizontal => (r.origin.x, r.extent.x, r.origin.y, r.extent.y),
        Axis::Vertical => (r.origin.y, r.extent.y, r.origin.x, r.extent.x),
    };
    let hi: u64 = lo as u64 + len as u64;
    let cross_hi: u64 = cross_lo as u64 + cross_len as u64;
    if lane < cross_lo || lane as u64 >= cross_hi {
        return None;
    }
    if from < to {
        let first: u32 = if lo > from + 1 {
            lo
        } else {
            from + 1
        };
        if first <= to && (first as u64) < hi {
            Some(first - from)
        } else {
            None
        }
    } else if to < from {
        if hi == 0 {
            return None;
        }
        let first: u64 = if hi - 1 < (from - 1) as u64 {
            hi - 1
        } else {
            (from - 1) as u64
        };
        if first >= to as u64 && first >= lo as u64 {
            Some(from - first as u32)
        } else {
            None
        }
    } else {
        None
    }
}

/// Finds the room that a run along `axis` in lane `lane`, from `from` towards
/// `to`, meets first, and the number of steps up to its first tile.
pub fn find_nearest_hit(rooms: &Vec<Room>, axis: Axis, lane: u32, from: u32, to: u32) -> (r: Option<
    (usize, u32),
>)
    ensures
        match r {
            Some((i, d)) => {
                &&& nearest_hit(rooms@, axis, lane as int, from as int, to as int) == Some(i)
                &&& is_nearest_hit(rooms@, i, axis, lane as int, from as int, to as int)
                &&& steps_to_room(rooms@, i as int, axis, lane as int, from as int, to as int)
                    == Some(d as int)
            },
            None => {
                &&& nearest_hit(rooms@, axis, lane as int, from as int, to as int) is None
                &&& run_is_clear(rooms@, axis, lane as int, from as int, to as int)
            },
        },
{
    let ghost (l, f, t) = (lane as int, from as int, to as int);
    let mut best: Option<(usize, u32)> = None;
    let mut k: usize = 0;
    while k < rooms.len()
        invariant
            k <= rooms@.len(),
            (l, f, t) == (lane as int, from as int, to as int),
            match best {
                Some((i, d)) => {
                    &&& i < k
                    &&& steps_to_room(rooms@, i as int, axis, l, f, t) == Some(d as int)
                    &&& forall|j: int|
                        0 <= j < k ==> (#[trigger] steps_to_room(rooms@, j, axis, l, f, t)
                            matches Some(e) ==> d < e || (d == e && i <= j))
                },
                None => forall|j: int|
                    0 <= j < k ==> #[trigger] steps_to_room(rooms@, j, axis, l, f, t) is None,
            },
        decreases rooms@.len() - k,
    {
        let rect = rooms[k].bounds();
        match steps_to_hit(&rect, axis, lane, from, to) {
            None => {},
            Some(e) => {
                let nearer = match best {
                    None => true,
                    Some((_, d)) => e < d,
                };
                if nearer {
                    best = Some((k, e));
                }
            },
        }
        k += 1;
    }
    proof {
        match best {
            Some((i, d)) => {
                assert(is_nearest_hit(rooms@, i, axis, l, f, t));
                let c = choose|c: usize| is_nearest_hit(rooms@, c, axis, l, f, t);
                lemma_nearest_hit_unique(rooms@, i, c, axis, l, f, t);
            },
            None => {
                assert forall|c: usize| !is_nearest_hit(rooms@, c, axis, l, f, t) by {
                    if c < rooms@.len() {
                        assert(steps_to_room(rooms@, c as int, axis, l, f, t) is None);
                    }
                }
            },
        }
    }
    best
}

/// Whether a run along `axis` in lane `lane`, from `from` towards `to`, meets
/// no room.
pub open spec fn run_is_clear(rooms: Seq<Room>, axis: Axis, lane: int, from: int, to: int) -> bool {
    forall|j: int|
        0 <= j < rooms.len() ==> #[trigger] steps_to_room(rooms, j, axis, lane, from, to) is None
}

/// The coordinate that leads a run past `r`: the goal's own coordinate
/// `goal` if that lies at least `CLEARANCE` tiles beyond `r`'s span, else the
/// coordinate `CLEARANCE` tiles before the span or after it, whichever makes
/// the shorter way from `here` to `goal` (before it, on a tie). A side that
/// lies off the grid is not taken; with both off the grid the run stays at
/// `here`.
pub open spec fn detour(r: Rect, axis: Axis, here: int, goal: int) -> int {
    let before = span_lo(r, axis) - CLEARANCE;
    let after = span_hi(r, axis) + CLEARANCE - 1;
    if goal <= before || goal >= after {
        goal
    } else if before >= 0 && (after > u32::MAX || here + goal <= before + after) {
        before
    } else if after <= u32::MAX {
        after
    } else {
        here
    }
}

/// The coordinate for which the next run heads: the goal's, or, after a run
/// that a room cut short, the one that leads past that room.
pub open spec fn aim(rooms: Seq<Room>, c: Cursor, goal: Vec2) -> int {
    if c.around is Some && c.around->0 < rooms.len() {
        detour(rooms[c.around->0 as int].rect(), c.axis, along(c.at, c.axis), along(goal, c.axis))
    } else {
        along(goal, c.axis)
    }
}

/// Where the router stands after its next run.
pub open spec fn advance(rooms: Seq<Room>, c: Cursor, goal: Vec2) -> Cursor {
    let from = along(c.at, c.axis);
    let lane = along(c.at, c.axis.other());
    let to = aim(rooms, c, goal);
    Cursor {
        at: moved(c.at, c.axis, run_stop(rooms, c.axis, lane, from, to)),
        axis: c.axis.other(),
        around: nearest_hit(rooms, c.axis, lane, from, to),
    }
}

/// The direction of a run along `axis`, towards higher coordinates or lower.
pub open spec fn heading(axis: Axis, forward: bool) -> Direction {
    match axis {
        Axis::Horizontal => if forward {
            Direction::Right
        } else {
            Direction::Left
        },
        Axis::Vertical => if forward {
            Direction::Down
        } else {
            Direction::Up
        },
    }
}

/// The segment that records the run from `c.at` to `to` along `c.axis`;
/// nothing if the run did not move.
pub open spec fn leg(c: Cursor, to: Vec2) -> Seq<Segment> {
    let a = along(c.at, c.axis);
    let b = along(to, c.axis);
    if a == b {
        Seq::empty()
    } else if a < b {
        seq![Segment { start: c.at, length: (b - a) as u32, axis_direction: heading(c.axis, true) }]
    } else {
        seq![Segment { start: c.at, length: (a - b) as u32, axis_direction: heading(c.axis, false) }]
    }
}

/// The segments that the router lays from `c` to `goal` in at most `steps`
/// runs; `None` if it does not arrive within them.
pub open spec fn route_from(rooms: Seq<Room>, c: Cursor, goal: Vec2, steps: nat) -> Option<
    Seq<Segment>,
>
    decreases steps,
{
    if c.at == goal {
        Some(Seq::empty())
    } else if steps == 0 {
        None
    } else {
        let next = advance(rooms, c, goal);
        match route_from(rooms, next, goal, (steps - 1) as nat) {
            Some(rest) => Some(leg(c, next.at) + rest),
            None => None,
        }
    }
}

/// The axis of the first run: the one on which `exit` is farther from
/// `entry`, the horizontal one on a tie.
pub open spec fn first_axis(entry: Vec2, exit: Vec2) -> Axis {
    let dx = if entry.x <= exit.x {
        exit.x - entry.x
    } else {
        entry.x - exit.x
    };
    let dy = if entry.y <= exit.y {
        exit.y - entry.y
    } else {
        entry.y - exit.y
    };
    if dx >= dy {
        Axis::Horizontal
    } else {
        Axis::Vertical
    }
}

/// Where the router starts.
pub open spec fn start_cursor(entry: Vec2, exit: Vec2) -> Cursor {
    Cursor { at: entry, axis: first_axis(entry, exit), around: None }
}

/// The route from `entry` to `exit` round `rooms`, or why there is none.
pub open spec fn route(rooms: Seq<Room>, entry: Vec2, exit: Vec2) -> Result<
    Seq<Segment>,
    RouteError,
> {
    if in_some_room(rooms, entry) || in_some_room(rooms, exit) {
        Err(RouteError::EndpointInsideRoom)
    } else {
        match route_from(rooms, start_cursor(entry, exit), exit, MAX_ROUTE_STEPS as nat) {
            Some(segments) => Ok(segments),
            None => Err(RouteError::StepBudgetExhausted),
        }
    }
}

/// Whether no tile of `segments` lies in a room.
pub open spec fn avoids_rooms(rooms: Seq<Room>, segments: Seq<Segment>) -> bool {
    forall|p: Vec2| on_any_segment(segments, p) ==> !in_some_room(rooms, p)
}

/// Whether every segment moves by at least one tile.
pub open spec fn all_move(segments: Seq<Segment>) -> bool {
    forall|i: int| 0 <= i < segments.len() ==> (#[trigger] segments[i]).length >= 1
}

/// A run stops between its start and its aim.
pub proof fn lemma_run_stop_between(rooms: Seq<Room>, axis: Axis, lane: int, from: int, to: int)
    ensures
        from <= to ==> from <= run_stop(rooms, axis, lane, from, to) <= to,
        to <= from ==> to <= run_stop(rooms, axis, lane, from, to) <= from,
{
    match nearest_hit(rooms, axis, lane, from, to) {
        None => {},
        Some(i) => {
            assert(is_nearest_hit(rooms, i, axis, lane, from, to));
        },
    }
}

/// No tile that a run passes after its start, up to where it stops, lies in
/// a room.
pub proof fn lemma_run_is_free(rooms: Seq<Room>, axis: Axis, at: Vec2, to: int, t: int)
    requires
        rooms.len() <= usize::MAX,
        0 <= to <= u32::MAX,
        ({
            let from = along(at, axis);
            let stop = run_stop(rooms, axis, along(at, axis.other()), from, to);
            (from < t <= stop) || (stop <= t < from)
        }),
    ensures
        !in_some_room(rooms, moved(at, axis, t)),
{
    let from = along(at, axis);
    let lane = along(at, axis.other());
    let p = moved(at, axis, t);
    lemma_run_stop_between(rooms, axis, lane, from, to);
    assert(along(p, axis) == t && along(p, axis.other()) == lane);
    assert forall|j: int| 0 <= j < rooms.len() implies !(#[trigger] rooms[j]).rect().contains(p) by {
        let r = rooms[j].rect();
        if r.contains(p) {
            assert(span_lo(r, axis) <= t < span_hi(r, axis));
            assert(span_lo(r, axis.other()) <= lane < span_hi(r, axis.other()));
            assert(steps_to_room(rooms, j, axis, lane, from, to) is Some);
            match nearest_hit(rooms, axis, lane, from, to) {
                None => {
                    lemma_some_hit_has_nearest(rooms, j, axis, lane, from, to);
                },
                Some(i) => {
                    assert(is_nearest_hit(rooms, i, axis, lane, from, to));
                },
            }
        }
    }
}

/// Where a room is met at all, one room is met first.
pub proof fn lemma_some_hit_has_nearest(
    rooms: Seq<Room>,
    j: int,
    axis: Axis,
    lane: int,
    from: int,
    to: int,
)
    requires
        0 <= j < rooms.len(),
        rooms.len() <= usize::MAX,
        steps_to_room(rooms, j, axis, lane, from, to) is Some,
    ensures
        exists|i: usize| is_nearest_hit(rooms, i, axis, lane, from, to),
    decreases rooms.len(),
{
    let shorter = rooms.drop_last();
    let last = (rooms.len() - 1) as usize;
    assert forall|m: int| 0 <= m < shorter.len() implies #[trigger] steps_to_room(
        shorter,
        m,
        axis,
        lane,
        from,
        to,
    ) == steps_to_room(rooms, m, axis, lane, from, to) by {
        assert(shorter[m] == rooms[m]);
    }
    if exists|k: int|
        0 <= k < shorter.len() && #[trigger] steps_to_room(shorter, k, axis, lane, from, to) is Some {
        let k = choose|k: int|
            0 <= k < shorter.len() && #[trigger] steps_to_room(shorter, k, axis, lane, from, to)
                is Some;
        lemma_some_hit_has_nearest(shorter, k, axis, lane, from, to);
        let i = choose|i: usize| is_nearest_hit(shorter, i, axis, lane, from, to);
        let d = steps_to_room(shorter, i as int, axis, lane, from, to)->0;
        let d_last = steps_to_room(rooms, last as int, axis, lane, from, to);
        let winner = if d_last is Some && d_last->0 < d {
            last
        } else {
            i
        };
        assert forall|m: int| 0 <= m < rooms.len() implies (#[trigger] steps_to_room(
            rooms,
            m,
            axis,
            lane,
            from,
            to,
        ) matches Some(e) ==> {
            let w = steps_to_room(rooms, winner as int, axis, lane, from, to)->0;
            w < e || (w == e && winner <= m)
        }) by {
            if m < shorter.len() {
                assert(steps_to_room(shorter, m, axis, lane, from, to) == steps_to_room(
                    rooms,
                    m,
                    axis,
                    lane,
                    from,
                    to,
                ));
            }
        }
        assert(is_nearest_hit(rooms, winner, axis, lane, from, to));
    } else {
        assert forall|m: int| 0 <= m < rooms.len() implies (#[trigger] steps_to_room(
            rooms,
            m,
            axis,
            lane,
            from,
            to,
        ) is Some ==> m == last) by {
            if m < shorter.len() {
                assert(steps_to_room(shorter, m, axis, lane, from, to) is None);
            }
        }
        assert(is_nearest_hit(rooms, last, axis, lane, from, to));
    }
}

/// The next run heads for a coordinate on the grid.
pub proof fn lemma_aim_on_grid(rooms: Seq<Room>, c: Cursor, goal: Vec2)
    ensures
        0 <= aim(rooms, c, goal) <= u32::MAX,
{
}

/// One run of the router: it moves along its axis only, ends on a tile that
/// lies in no room unless it did not move, and the segment that records it
/// joins the two tiles and stays out of the rooms.
pub proof fn lemma_advance(rooms: Seq<Room>, c: Cursor, goal: Vec2)
    requires
        rooms.len() <= usize::MAX,
        !in_some_room(rooms, c.at),
    ensures
        ({
            let next = advance(rooms, c, goal);
            let head = leg(c, next.at);
            &&& !in_some_room(rooms, next.at)
            &&& head.len() <= 1
            &&& head.len() == 0 ==> next.at == c.at
            &&& head.len() == 1 ==> {
                &&& head[0].start == c.at
                &&& head[0].on_grid()
                &&& head[0].end_tile() == next.at
                &&& head[0].length >= 1
            }
            &&& avoids_rooms(rooms, head)
        }),
{
    let from = along(c.at, c.axis);
    let lane = along(c.at, c.axis.other());
    let to = aim(rooms, c, goal);
    let stop = run_stop(rooms, c.axis, lane, from, to);
    let next = advance(rooms, c, goal);
    let head = leg(c, next.at);
    lemma_aim_on_grid(rooms, c, goal);
    lemma_run_stop_between(rooms, c.axis, lane, from, to);
    assert(along(next.at, c.axis) == stop);
    if stop != from {
        lemma_run_is_free(rooms, c.axis, c.at, to, stop);
        assert(moved(c.at, c.axis, stop) == next.at);
        assert forall|p: Vec2| on_any_segment(head, p) implies !in_some_room(rooms, p) by {
            let i = choose|i: int| 0 <= i < head.len() && (#[trigger] head[i]).covers(p);
            assert(head[i] == head[0]);
            let t = along(p, c.axis);
            assert(along(p, c.axis.other()) == lane);
            assert(moved(c.at, c.axis, t) == p);
            if t != from {
                lemma_run_is_free(rooms, c.axis, c.at, to, t);
            }
        }
    } else {
        assert(next.at == c.at);
    }
}

/// What the router lays down is sound: the segments lead from where it
/// stands to the goal without a gap, none of their tiles lies in a room, and
/// none has length zero.
pub proof fn lemma_route_sound(rooms: Seq<Room>, c: Cursor, goal: Vec2, steps: nat)
    requires
        rooms.len() <= usize::MAX,
        !in_some_room(rooms, c.at),
    ensures
        route_from(rooms, c, goal, steps) matches Some(segments) ==> {
            &&& chained(c.at, goal, segments)
            &&& avoids_rooms(rooms, segments)
            &&& all_move(segments)
        },
    decreases steps,
{
    if c.at != goal && steps > 0 {
        let next = advance(rooms, c, goal);
        lemma_advance(rooms, c, goal);
        lemma_route_sound(rooms, next, goal, (steps - 1) as nat);
        if let Some(rest) = route_from(rooms, next, goal, (steps - 1) as nat) {
            let head = leg(c, next.at);
            let all = head + rest;
            assert(route_from(rooms, c, goal, steps) == Some(all));
            assert forall|i: int| 0 <= i < all.len() implies (#[trigger] all[i]).on_grid()
                && all[i].length >= 1 by {
                if i >= head.len() {
                    assert(all[i] == rest[i - head.len()]);
                }
            }
            assert forall|i: int| 0 <= i < all.len() - 1 implies #[trigger] joined(all, i) by {
                if i >= head.len() {
                    assert(joined(rest, i - head.len()));
                    assert(all[i] == rest[i - head.len()]);
                    assert(all[i + 1] == rest[i + 1 - head.len()]);
                } else {
                    assert(all[i + 1] == rest[0]);
                }
            }
            if rest.len() > 0 {
                assert(all.last() == rest.last());
            }
            assert(chained(c.at, goal, all));
            assert forall|p: Vec2| on_any_segment(all, p) implies !in_some_room(rooms, p) by {
                let i = choose|i: int| 0 <= i < all.len() && (#[trigger] all[i]).covers(p);
                if i < head.len() {
                    assert(head[i].covers(p));
                    assert(on_any_segment(head, p));
                } else {
                    assert(rest[i - head.len()].covers(p));
                    assert(on_any_segment(rest, p));
                }
            }
        }
    }
}

/// Computes the coordinate that leads a run past `r`.
pub fn detour_target(r: &Rect, axis: Axis, here: u32, goal: u32) -> (to: u32)
    ensures
        to == detour(*r, axis, here as int, goal as int),
{
    let (lo, len) = match axis {
        Axis::Horizontal => (r.origin.x, r.extent.x),
        Axis::Vertical => (r.origin.y, r.extent.y),
    };
    let clearance: u64 = CLEARANCE as u64;
    // `after` and the goal are kept one clearance higher than they are, so
    // that `before` needs no negative number.
    let after: u64 = lo as u64 + len as u64 + 2 * clearance - 1;
    let lifted_goal: u64 = goal as u64 + clearance;
    if lifted_goal <= lo as u64 || lifted_goal >= after {
        goal
    } else if lo >= CLEARANCE && (after - clearance > u32::MAX as u64 || here as u64 + lifted_goal
        <= lo as u64 + after - clearance) {
        lo - CLEARANCE
    } else if after - clearance <= u32::MAX as u64 {
        (after - clearance) as u32
    } else {
        here
    }
}

/// Makes the router's next run.
pub fn step(rooms: &Vec<Room>, c: Cursor, goal: Vec2) -> (next: Cursor)
    ensures
        next == advance(rooms@, c, goal),
{
    let (from, lane, goal_along) = match c.axis {
        Axis::Horizontal => (c.at.x, c.at.y, goal.x),
        Axis::Vertical => (c.at.y, c.at.x, goal.y),
    };
    let to = match c.around {
        Some(i) => {
            if i < rooms.len() {
                let rect = rooms[i].bounds();
                detour_target(&rect, c.axis, from, goal_along)
            } else {
                goal_along
            }
        },
        None => goal_along,
    };
    let (stop, around) = match find_nearest_hit(rooms, c.axis, lane, from, to) {
        None => (to, None),
        Some((i, d)) => {
            let free = if d > CLEARANCE {
                d - CLEARANCE
            } else {
                0
            };
            if from < to {
                (from + free, Some(i))
            } else {
                (from - free, Some(i))
            }
        },
    };
    let at = match c.axis {
        Axis::Horizontal => Vec2 { x: stop, y: c.at.y },
        Axis::Vertical => Vec2 { x: c.at.x, y: stop },
    };
    Cursor { at, axis: c.axis.turned(), around }
}

/// The segment that records a run from `c.at` to `to`, if the run moved.
fn segment_between(c: &Cursor, to: Vec2) -> (r: Option<Segment>)
    ensures
        match r {
            Some(segment) => leg(*c, to) == seq![segment],
            None => leg(*c, to) == Seq::<Segment>::empty(),
        },
{
    let (a, b) = match c.axis {
        Axis::Horizontal => (c.at.x, to.x),
        Axis::Vertical => (c.at.y, to.y),
    };
    if a == b {
        None
    } else if a < b {
        let axis_direction = match c.axis {
            Axis::Horizontal => Direction::Right,
            Axis::Vertical => Direction::Down,
        };
        Some(Segment { start: c.at, length: b - a, axis_direction })
    } else {
        let axis_direction = match c.axis {
            Axis::Horizontal => Direction::Left,
            Axis::Vertical => Direction::Up,
        };
        Some(Segment { start: c.at, length: a - b, axis_direction })
    }
}

/// Picks the axis of the first run.
pub fn starting_axis(entry: Vec2, exit: Vec2) -> (axis: Axis)
    ensures
        axis == first_axis(entry, exit),
{
    let dx = if entry.x <= exit.x {
        exit.x - entry.x
    } else {
        entry.x - exit.x
    };
    let dy = if entry.y <= exit.y {
        exit.y - entry.y
    } else {
        entry.y - exit.y
    };
    if dx >= dy {
        Axis::Horizontal
    } else {
        Axis::Vertical
    }
}

/// Routes a corridor from `entry` to `exit` round `rooms`.
///
/// The result is exactly `route`: an error if either tile lies in a room or
/// the goal is not reached within `MAX_ROUTE_STEPS` runs, else the segments
/// laid on the way. Those lead from `entry` to `exit` without a gap, each
/// moves by at least one tile, and none of their tiles lies in a room.
pub fn route_segments(rooms: &Vec<Room>, entry: Vec2, exit: Vec2) -> (r: Result<
    Vec<Segment>,
    RouteError,
>)
    ensures
        match r {
            Ok(segments) => {
                &&& route(rooms@, entry, exit) == Ok::<Seq<Segment>, RouteError>(segments@)
                &&& chained(entry, exit, segments@)
                &&& avoids_rooms(rooms@, segments@)
                &&& all_move(segments@)
            },
            Err(e) => route(rooms@, entry, exit) == Err::<Seq<Segment>, RouteError>(e),
        },
{
    if any_room_contains(rooms, entry) || any_room_contains(rooms, exit) {
        return Err(RouteError::EndpointInsideRoom);
    }
    let ghost start = start_cursor(entry, exit);
    let ghost whole = route_from(rooms@, start, exit, MAX_ROUTE_STEPS as nat);
    let mut c = Cursor { at: entry, axis: starting_axis(entry, exit), around: None };
    let mut segments: Vec<Segment> = Vec::new();
    let mut steps: u32 = 0;
    proof {
        assert(rooms@.len() == rooms.len());
        lemma_route_sound(rooms@, start, exit, MAX_ROUTE_STEPS as nat);
        assert(Seq::<Segment>::empty() + route_from(rooms@, c, exit, MAX_ROUTE_STEPS as nat)->0
            =~= route_from(rooms@, c, exit, MAX_ROUTE_STEPS as nat)->0);
    }
    while c.at != exit
        invariant
            steps <= MAX_ROUTE_STEPS,
            !in_some_room(rooms@, entry),
            !in_some_room(rooms@, exit),
            whole == route_from(rooms@, start_cursor(entry, exit), exit, MAX_ROUTE_STEPS as nat),
            whole matches Some(all) ==> chained(entry, exit, all) && avoids_rooms(rooms@, all)
                && all_move(all),
            whole == match route_from(rooms@, c, exit, (MAX_ROUTE_STEPS - steps) as nat) {
                Some(rest) => Some(segments@ + rest),
                None => None,
            },
        decreases MAX_ROUTE_STEPS - steps,
    {
        if steps == MAX_ROUTE_STEPS {
            return Err(RouteError::StepBudgetExhausted);
        }
        let next = step(rooms, c, exit);
        let ghost before = segments@;
        match segment_between(&c, next.at) {
            Some(segment) => {
                segments.push(segment);
            },
            None => {},
        }
        proof {
            assert(segments@ =~= before + leg(c, next.at));
            let left = (MAX_ROUTE_STEPS - steps - 1) as nat;
            if let Some(rest) = route_from(rooms@, next, exit, left) {
                assert(before + (leg(c, next.at) + rest) =~= segments@ + rest);
            }
        }
        c = next;
        steps += 1;
    }
    proof {
        assert(segments@ + Seq::<Segment>::empty() =~= segments@);
    }
    Ok(segments)
}

/// With no room in the way, the route is the plain elbow: one run along the
/// axis on which the exit is farther away, then one run across, each
/// recorded only if it moves. So the route has one segment for each
/// coordinate in which the two tiles differ.
pub proof fn lemma_unobstructed_route(rooms: Seq<Room>, entry: Vec2, exit: Vec2)
    requires
        !in_some_room(rooms, entry),
        !in_some_room(rooms, exit),
        ({
            let axis = first_axis(entry, exit);
            let across = axis.other();
            &&& run_is_clear(rooms, axis, along(entry, across), along(entry, axis), along(exit, axis))
            &&& run_is_clear(
                rooms,
                across,
                along(exit, axis),
                along(entry, across),
                along(exit, across),
            )
        }),
    ensures
        ({
            let axis = first_axis(entry, exit);
            let corner = moved(entry, axis, along(exit, axis));
            let elbow = leg(start_cursor(entry, exit), corner) + leg(
                Cursor { at: corner, axis: axis.other(), around: None },
                exit,
            );
            &&& route(rooms, entry, exit) == Ok::<Seq<Segment>, RouteError>(elbow)
            &&& elbow.len() == (if entry.x != exit.x {
                1int
            } else {
                0int
            }) + (if entry.y != exit.y {
                1int
            } else {
                0int
            })
        }),
{
    let axis = first_axis(entry, exit);
    let across = axis.other();
    let corner = moved(entry, axis, along(exit, axis));
    let c0 = start_cursor(entry, exit);
    let c1 = Cursor { at: corner, axis: across, around: None };
    let c2 = Cursor { at: exit, axis: axis, around: None };
    let budget = MAX_ROUTE_STEPS as nat;
    let nothing = Seq::<Segment>::empty();
    lemma_clear_run_has_no_hit(
        rooms,
        axis,
        along(entry, across),
        along(entry, axis),
        along(exit, axis),
    );
    assert(advance(rooms, c0, exit) == c1);
    lemma_clear_run_has_no_hit(
        rooms,
        across,
        along(corner, axis),
        along(corner, across),
        along(exit, across),
    );
    assert(moved(corner, across, along(exit, across)) == exit);
    assert(advance(rooms, c1, exit) == c2);
    assert(route_from(rooms, c2, exit, (budget - 2) as nat) == Some(nothing));
    if entry == exit {
        assert(leg(c0, corner) + leg(c1, exit) =~= nothing);
    } else if corner == exit {
        assert(route_from(rooms, c1, exit, (budget - 1) as nat) == Some(nothing));
        assert(leg(c0, corner) + leg(c1, exit) =~= leg(c0, corner) + nothing);
    } else {
        assert(route_from(rooms, c1, exit, (budget - 1) as nat) == Some(leg(c1, exit) + nothing));
        assert(leg(c1, exit) + nothing =~= leg(c1, exit));
    }
}

/// Where a room stands in the way of the first run, more than `CLEARANCE`
/// steps ahead and with no other room met before it, a route that is found
/// starts with a segment that stops `CLEARANCE` tiles before that room's first
/// tile. At least one more segment follows, the segments lead to the exit
/// without a gap, and none of their tiles lies in a room.
pub proof fn lemma_blocked_first_run(rooms: Seq<Room>, entry: Vec2, exit: Vec2, i: usize)
    requires
        rooms.len() <= usize::MAX,
        ({
            let axis = first_axis(entry, exit);
            let lane = along(entry, axis.other());
            let from = along(entry, axis);
            let to = along(exit, axis);
            &&& is_nearest_hit(rooms, i, axis, lane, from, to)
            &&& steps_to_room(rooms, i as int, axis, lane, from, to)->0 > CLEARANCE
        }),
    ensures
        route(rooms, entry, exit) matches Ok(segments) ==> ({
            let axis = first_axis(entry, exit);
            let lane = along(entry, axis.other());
            let from = along(entry, axis);
            let to = along(exit, axis);
            let d = steps_to_room(rooms, i as int, axis, lane, from, to)->0;
            &&& segments.len() >= 2
            &&& segments[0].start == entry
            &&& segments[0].axis_direction == heading(axis, from < to)
            &&& segments[0].length == d - CLEARANCE
            &&& segments[0].end_tile() == moved(entry, axis, toward(from, to, d - CLEARANCE))
            &&& holds_run_tile(rooms[i as int].rect(), axis, lane, toward(from, to, d))
            &&& chained(entry, exit, segments)
            &&& avoids_rooms(rooms, segments)
        }),
{
    if route(rooms, entry, exit) is Ok {
        let axis = first_axis(entry, exit);
        let lane = along(entry, axis.other());
        let from = along(entry, axis);
        let to = along(exit, axis);
        let d = steps_to_room(rooms, i as int, axis, lane, from, to)->0;
        let budget = MAX_ROUTE_STEPS as nat;
        let c0 = start_cursor(entry, exit);
        let next = advance(rooms, c0, exit);
        let head = leg(c0, next.at);
        lemma_hit_distance_is_first_tile(rooms[i as int].rect(), axis, lane, from, to);
        let nearest = choose|n: usize| is_nearest_hit(rooms, n, axis, lane, from, to);
        lemma_nearest_hit_unique(rooms, i, nearest, axis, lane, from, to);
        assert(nearest_hit(rooms, axis, lane, from, to) == Some(i));
        assert(run_stop(rooms, axis, lane, from, to) == toward(from, to, d - CLEARANCE));
        assert(next.at == moved(entry, axis, toward(from, to, d - CLEARANCE)));
        assert(next.at != exit);
        lemma_advance(rooms, c0, exit);
        lemma_route_sound(rooms, next, exit, (budget - 1) as nat);
        lemma_route_sound(rooms, c0, exit, budget);
        let rest = route_from(rooms, next, exit, (budget - 1) as nat)->0;
        assert(route_from(rooms, c0, exit, budget) == Some(head + rest));
        assert(head.len() == 1);
        assert(rest.len() >= 1);
        assert((head + rest)[0] == head[0]);
    }
}

/// A run that meets no room has no nearest room, and stops at its aim.
pub proof fn lemma_clear_run_has_no_hit(
    rooms: Seq<Room>,
    axis: Axis,
    lane: int,
    from: int,
    to: int,
)
    requires
        run_is_clear(rooms, axis, lane, from, to),
    ensures
        nearest_hit(rooms, axis, lane, from, to) is None,
        run_stop(rooms, axis, lane, from, to) == to,
{
    assert forall|i: usize| !is_nearest_hit(rooms, i, axis, lane, from, to) by {
        if i < rooms.len() {
            assert(steps_to_room(rooms, i as int, axis, lane, from, to) is None);
        }
    }
}

} // verus!
