//! Hallways for a whole connection list: anchor tiles are drawn beside the
//! two rooms of every connection and a corridor is routed between them.

use crate::geometry::{Rect, Vec2};
use crate::graph::Connection;
use crate::hallway::{Direction, Hallway, Segment};
use crate::random::draw_u32;
use crate::room::{in_some_room, pairwise_apart, Room, PADDING};
use crate::router::{avoids_rooms, route, route_segments, RouteError};
use vstd::prelude::*;

verus! {

/// Why a connection list could not be turned into hallways.
#[derive(Clone, Copy, Debug, PartialEq, Eq, Structural)]
pub enum HallwayError {
    /// Connection number `connection` names a room that is not in the list.
    UnknownRoom { connection: usize },
    /// A room of connection number `connection` has no tile, or touches the
    /// edge of the grid, so that one of its sides has no tile beside it.
    RoomWithoutMargin { connection: usize },
    /// No corridor was found for connection number `connection`.
    Unroutable { connection: usize, cause: RouteError },
}

/// The number of tiles along the given side of `r`.
pub open spec fn side_len(r: Rect, side: Direction) -> int {
    match side {
        Direction::Up | Direction::Down => r.extent.x as int,
        Direction::Left | Direction::Right => r.extent.y as int,
    }
}

/// The tile just outside `r` on the given side, `offset` tiles along it.
pub open spec fn anchor_xy(r: Rect, side: Direction, offset: int) -> (int, int) {
    match side {
        Direction::Up => (r.origin.x + offset, r.origin.y - 1),
        Direction::Down => (r.origin.x + offset, r.origin.y + r.extent.y),
        Direction::Left => (r.origin.x - 1, r.origin.y + offset),
        Direction::Right => (r.origin.x + r.extent.x, r.origin.y + offset),
    }
}

/// Whether `p` is an anchor of `r`: a tile just outside one of its four sides.
pub open spec fn is_anchor(r: Rect, p: Vec2) -> bool {
    exists|side: Direction, offset: int|
        0 <= offset < side_len(r, side) && #[trigger] anchor_xy(r, side, offset) == (
            p.x as int,
            p.y as int,
        )
}

/// Whether `r` has a tile and every one of its sides has grid beside it.
pub open spec fn has_margin(r: Rect) -> bool {
    &&& r.extent.x >= 1
    &&& r.extent.y >= 1
    &&& r.origin.x >= 1
    &&& r.origin.y >= 1
    &&& r.origin.x + r.extent.x <= u32::MAX
    &&& r.origin.y + r.extent.y <= u32::MAX
}

/// Whether both ends of `c` name a room of `rooms`.
pub open spec fn names_rooms(rooms: Seq<Room>, c: Connection) -> bool {
    c.from_index < rooms.len() && c.to_index < rooms.len()
}

/// Whether anchors can be drawn for `c`: both its rooms exist and have a margin.
pub open spec fn anchorable(rooms: Seq<Room>, c: Connection) -> bool {
    &&& names_rooms(rooms, c)
    &&& has_margin(rooms[c.from_index as int].rect())
    &&& has_margin(rooms[c.to_index as int].rect())
}

/// Whether connection `k` is the first for which no anchors can be drawn.
pub open spec fn is_first_fault(rooms: Seq<Room>, connections: Seq<Connection>, k: int) -> bool {
    &&& 0 <= k < connections.len()
    &&& !anchorable(rooms, connections[k])
    &&& forall|j: int| 0 <= j < k ==> anchorable(rooms, #[trigger] connections[j])
}

/// Whether anchors can be drawn for every connection.
pub open spec fn all_anchorable(rooms: Seq<Room>, connections: Seq<Connection>) -> bool {
    forall|j: int| 0 <= j < connections.len() ==> anchorable(rooms, #[trigger] connections[j])
}

/// Whether `h` realises `c`: it leaves from an anchor of the first room,
/// arrives at an anchor of the second, and its segments are the route
/// between the two.
pub open spec fn realises(rooms: Seq<Room>, c: Connection, h: Hallway) -> bool {
    &&& names_rooms(rooms, c)
    &&& is_anchor(rooms[c.from_index as int].rect(), h.entry_point)
    &&& is_anchor(rooms[c.to_index as int].rect(), h.exit_point)
    &&& route(rooms, h.entry_point, h.exit_point) == Ok::<Seq<Segment>, RouteError>(
        h.segments@,
    )
}

/// Whether the router fails with `cause` between some anchor of the first
/// room of `c` and some anchor of the second.
pub open spec fn fails_between_anchors(rooms: Seq<Room>, c: Connection, cause: RouteError) -> bool {
    exists|entry: Vec2, exit: Vec2|
        is_anchor(rooms[c.from_index as int].rect(), entry) && is_anchor(
            rooms[c.to_index as int].rect(),
            exit,
        ) && #[trigger] route(rooms, entry, exit) == Err::<Seq<Segment>, RouteError>(cause)
}

/// Whether the router finds a way between some anchor of the first room of
/// `c` and some anchor of the second.
pub open spec fn routes_between_anchors(rooms: Seq<Room>, c: Connection) -> bool {
    exists|entry: Vec2, exit: Vec2|
        is_anchor(rooms[c.from_index as int].rect(), entry) && is_anchor(
            rooms[c.to_index as int].rect(),
            exit,
        ) && (#[trigger] route(rooms, entry, exit)) is Ok
}

/// Whether `connection` can be the first connection on which routing failed,
/// and `cause` the reason: the router fails with `cause` between two anchors
/// of its rooms, and finds a way between two anchors for every connection
/// before it.
pub open spec fn is_routing_failure(
    rooms: Seq<Room>,
    connections: Seq<Connection>,
    connection: int,
    cause: RouteError,
) -> bool {
    &&& 0 <= connection < connections.len()
    &&& fails_between_anchors(rooms, connections[connection], cause)
    &&& forall|j: int|
        0 <= j < connection ==> routes_between_anchors(rooms, #[trigger] connections[j])
}

/// Whether `hallways` holds, for every connection in order, a hallway that
/// realises it, is chained from entry to exit and keeps out of every room.
pub open spec fn hallways_sound(
    rooms: Seq<Room>,
    connections: Seq<Connection>,
    hallways: Seq<Hallway>,
) -> bool {
    &&& hallways.len() == connections.len()
    &&& forall|k: int|
        0 <= k < hallways.len() ==> {
            &&& realises(rooms, connections[k], #[trigger] hallways[k])
            &&& hallways[k].is_chained()
            &&& avoids_rooms(rooms, hallways[k].segments@)
        }
}

/// An anchor of one of several rooms that keep their padding lies in none
/// of them.
pub proof fn lemma_anchor_outside_rooms(rooms: Seq<Room>, i: int, p: Vec2)
    requires
        pairwise_apart(rooms),
        0 <= i < rooms.len(),
        is_anchor(rooms[i].rect(), p),
    ensures
        !in_some_room(rooms, p),
{
    let a = rooms[i].rect();
    let (side, offset) = choose|side: Direction, offset: int|
        0 <= offset < side_len(a, side) && #[trigger] anchor_xy(a, side, offset) == (
            p.x as int,
            p.y as int,
        );
    assert forall|j: int| 0 <= j < rooms.len() implies !(#[trigger] rooms[j]).rect().contains(p) by {
        if j < i {
            assert(!rooms[j].rect().overlaps(rooms[i].rect(), PADDING as int));
        } else if i < j {
            assert(!rooms[i].rect().overlaps(rooms[j].rect(), PADDING as int));
        }
    }
}

/// Tells whether `r` has a tile and every one of its sides has grid beside it.
pub fn check_margin(r: &Rect) -> (ok: bool)
    ensures
        ok == has_margin(*r),
{
    r.extent.x >= 1 && r.extent.y >= 1 && r.origin.x >= 1 && r.origin.y >= 1 && r.extent.x
        <= u32::MAX - r.origin.x && r.extent.y <= u32::MAX - r.origin.y
}

/// The side with the given number: 0 for the top, 1 for the bottom, 2 for
/// the left and anything else for the right.
pub fn side_from_index(i: u32) -> (side: Direction)
    ensures
        side == match i {
            0 => Direction::Up,
            1 => Direction::Down,
            2 => Direction::Left,
            _ => Direction::Right,
        },
{
    if i == 0 {
        Direction::Up
    } else if i == 1 {
        Direction::Down
    } else if i == 2 {
        Direction::Left
    } else {
        Direction::Right
    }
}

/// Whether the tile just outside `r` on the given side, `offset` tiles along
/// it, exists: the side is that long and the tile lies on the grid.
pub open spec fn anchor_exists(r: Rect, side: Direction, offset: int) -> bool {
    let (x, y) = anchor_xy(r, side, offset);
    0 <= offset < side_len(r, side) && 0 <= x <= u32::MAX && 0 <= y <= u32::MAX
}

/// The anchor of `r` on the given side, `offset` tiles along it.
fn anchor_tile(r: &Rect, side: Direction, offset: u32) -> (p: Vec2)
    requires
        anchor_exists(*r, side, offset as int),
    ensures
        anchor_xy(*r, side, offset as int) == (p.x as int, p.y as int),
{
    match side {
        Direction::Up => Vec2 { x: r.origin.x + offset, y: r.origin.y - 1 },
        Direction::Down => Vec2 { x: r.origin.x + offset, y: r.origin.y + r.extent.y },
        Direction::Left => Vec2 { x: r.origin.x - 1, y: r.origin.y + offset },
        Direction::Right => Vec2 { x: r.origin.x + r.extent.x, y: r.origin.y + offset },
    }
}

/// The tile just outside `r` on the given side, `offset` tiles along that
/// side; `None` if the side is not that long or the tile lies off the grid.
pub fn anchor_point(r: &Rect, side: Direction, offset: u32) -> (a: Option<Vec2>)
    ensures
        match a {
            Some(p) => anchor_exists(*r, side, offset as int) && anchor_xy(
                *r,
                side,
                offset as int,
            ) == (p.x as int, p.y as int),
            None => !anchor_exists(*r, side, offset as int),
        },
{
    let valid = match side {
        Direction::Up => offset < r.extent.x && offset <= u32::MAX - r.origin.x && r.origin.y >= 1,
        Direction::Down => offset < r.extent.x && offset <= u32::MAX - r.origin.x && r.extent.y
            <= u32::MAX - r.origin.y,
        Direction::Left => offset < r.extent.y && offset <= u32::MAX - r.origin.y && r.origin.x >= 1,
        Direction::Right => offset < r.extent.y && offset <= u32::MAX - r.origin.y && r.extent.x
            <= u32::MAX - r.origin.x,
    };
    if valid {
        Some(anchor_tile(r, side, offset))
    } else {
        None
    }
}

/// Draws an anchor of `r`: one of the four sides, then a tile along it.
fn draw_anchor(rng: &mut fastrand::Rng, r: &Rect) -> (p: Vec2)
    requires
        has_margin(*r),
    ensures
        is_anchor(*r, p),
{
    let side = side_from_index(draw_u32(rng, 0, 4));
    let length = match side {
        Direction::Up | Direction::Down => r.extent.x,
        Direction::Left | Direction::Right => r.extent.y,
    };
    let offset = draw_u32(rng, 0, length);
    anchor_tile(r, side, offset)
}

/// Routes the hallway between two given anchor tiles.
pub fn hallway_between(rooms: &Vec<Room>, entry: Vec2, exit: Vec2) -> (r: Result<
    Hallway,
    RouteError,
>)
    ensures
        match r {
            Ok(h) => {
                &&& h.entry_point == entry
                &&& h.exit_point == exit
                &&& route(rooms@, entry, exit) == Ok::<Seq<Segment>, RouteError>(
                    h.segments@,
                )
                &&& h.is_chained()
                &&& avoids_rooms(rooms@, h.segments@)
            },
            Err(e) => route(rooms@, entry, exit) == Err::<Seq<Segment>, RouteError>(
                e,
            ),
        },
{
    match route_segments(rooms, entry, exit) {
        Ok(segments) => Ok(Hallway { entry_point: entry, exit_point: exit, segments }),
        Err(e) => Err(e),
    }
}

/// Finds the first connection for which no anchors can be drawn.
pub fn find_unanchorable(rooms: &Vec<Room>, connections: &Vec<Connection>) -> (r: Option<usize>)
    ensures
        match r {
            Some(k) => is_first_fault(rooms@, connections@, k as int),
            None => all_anchorable(rooms@, connections@),
        },
{
    let mut k: usize = 0;
    while k < connections.len()
        invariant
            k <= connections@.len(),
            forall|j: int| 0 <= j < k ==> anchorable(rooms@, #[trigger] connections@[j]),
        decreases connections@.len() - k,
    {
        let c = connections[k];
        if c.from_index >= rooms.len() || c.to_index >= rooms.len() {
            return Some(k);
        }
        let from = rooms[c.from_index].bounds();
        let to = rooms[c.to_index].bounds();
        if !check_margin(&from) || !check_margin(&to) {
            return Some(k);
        }
        k += 1;
    }
    None
}

/// Routes one hallway for every connection, in the order of the list.
///
/// The list is checked before anything is drawn: the first connection that
/// names a missing room, or a room without a margin, is reported. After that,
/// for each connection an anchor is drawn beside either room and the corridor
/// between the two is routed; the first connection for which the router
/// fails is reported with the router's reason.
///
/// Whatever the generator yields, every hallway that comes back realises its
/// connection, is chained from entry to exit and keeps out of every room. A
/// failure is reported only for a connection between whose rooms there are
/// two anchors on which the router fails with the reported cause, after
/// every connection before it was routed. Between rooms that keep their
/// padding no anchor lies in a room, so the only failure left is the
/// router's step budget.
pub fn route_hallways(
    rng: &mut fastrand::Rng,
    rooms: &Vec<Room>,
    connections: &Vec<Connection>,
) -> (r: Result<Vec<Hallway>, HallwayError>)
    ensures
        match r {
            Ok(hallways) => {
                &&& all_anchorable(rooms@, connections@)
                &&& hallways_sound(rooms@, connections@, hallways@)
            },
            Err(HallwayError::UnknownRoom { connection }) => {
                &&& is_first_fault(rooms@, connections@, connection as int)
                &&& !names_rooms(rooms@, connections@[connection as int])
            },
            Err(HallwayError::RoomWithoutMargin { connection }) => {
                &&& is_first_fault(rooms@, connections@, connection as int)
                &&& names_rooms(rooms@, connections@[connection as int])
            },
            Err(HallwayError::Unroutable { connection, cause }) => {
                &&& all_anchorable(rooms@, connections@)
                &&& is_routing_failure(rooms@, connections@, connection as int, cause)
                &&& pairwise_apart(rooms@) ==> cause == RouteError::StepBudgetExhausted
            },
        },
        connections@.len() == 0 ==> r is Ok,
{
    match find_unanchorable(rooms, connections) {
        Some(k) => {
            let c = connections[k];
            if c.from_index >= rooms.len() || c.to_index >= rooms.len() {
                return Err(HallwayError::UnknownRoom { connection: k });
            } else {
                return Err(HallwayError::RoomWithoutMargin { connection: k });
            }
        },
        None => {},
    }
    let mut hallways: Vec<Hallway> = Vec::new();
    let mut k: usize = 0;
    while k < connections.len()
        invariant
            k <= connections@.len(),
            all_anchorable(rooms@, connections@),
            hallways@.len() == k,
            forall|j: int|
                0 <= j < k ==> {
                    &&& realises(rooms@, connections@[j], #[trigger] hallways@[j])
                    &&& hallways@[j].is_chained()
                    &&& avoids_rooms(rooms@, hallways@[j].segments@)
                },
        decreases connections@.len() - k,
    {
        let c = connections[k];
        assert(anchorable(rooms@, connections@[k as int]));
        let from = rooms[c.from_index].bounds();
        let to = rooms[c.to_index].bounds();
        let entry = draw_anchor(rng, &from);
        let exit = draw_anchor(rng, &to);
        match hallway_between(rooms, entry, exit) {
            Ok(h) => {
                hallways.push(h);
            },
            Err(cause) => {
                proof {
                    if pairwise_apart(rooms@) {
                        lemma_anchor_outside_rooms(rooms@, c.from_index as int, entry);
                        lemma_anchor_outside_rooms(rooms@, c.to_index as int, exit);
                    }
                    assert(route(rooms@, entry, exit) == Err::<Seq<Segment>, RouteError>(cause));
                    assert(fails_between_anchors(rooms@, connections@[k as int], cause));
                    assert forall|j: int| 0 <= j < k implies routes_between_anchors(
                        rooms@,
                        #[trigger] connections@[j],
                    ) by {
                        let h = hallways@[j];
                        assert(realises(rooms@, connections@[j], h));
                        assert(route(rooms@, h.entry_point, h.exit_point) is Ok);
                    }
                }
                return Err(HallwayError::Unroutable { connection: k, cause });
            },
        }
        k += 1;
    }
    Ok(hallways)
}

} // verus!
