//! Rooms, and their randomized placement on a floor.

use crate::geometry::{point_in_rectangle, rectangles_overlap, Rect, Vec2};
use crate::random::draw_u32;
use std::ops::Range;
use vstd::prelude::*;

verus! {

/// Tiles kept free between a room and the floor's edge, and added round
/// every room when two rooms are tested for collision.
pub const PADDING: u32 = 5;

/// How many origins are tried for one room before the room is dropped.
pub const MAX_PLACEMENT_TRIES: u32 = 1000;

/// A rectangular open area. `index` is the room's position in the list that
/// holds it.
#[derive(Clone, Copy, Debug, PartialEq, Eq, Structural)]
pub struct Room {
    pub origin: Vec2,
    pub extent: Vec2,
    pub index: usize,
}

/// Why a set of generation parameters was turned down.
#[derive(Clone, Copy, Debug, PartialEq, Eq, Structural)]
pub enum ConfigError {
    /// The room count range holds no number.
    EmptyCountRange,
    /// The room size range holds no number.
    EmptySizeRange,
    /// The room size range allows a side of zero tiles.
    ZeroRoomSize,
    /// The largest allowed room, with its padding, does not fit the floor.
    RoomTooLarge,
    /// The range for the number of extra connections holds no number.
    EmptyExtraEdgeRange,
}

/// The rooms that a placement run accepted, and how many it set out to place.
#[derive(Debug)]
pub struct Placement {
    pub rooms: Vec<Room>,
    /// The room count that was drawn. Rooms for which no free spot was found
    /// are missing from `rooms`, so `rooms.len()` may be smaller.
    pub requested: u32,
}

impl Room {
    /// The room's bounding box.
    pub open spec fn rect(self) -> Rect {
        Rect { origin: self.origin, extent: self.extent }
    }

    /// Whether the room has at least one tile and keeps `PADDING` tiles
    /// between itself and every edge of a floor of size `dimensions`.
    pub open spec fn within(self, dimensions: Vec2) -> bool {
        rect_within(self.rect(), dimensions)
    }

    /// The room's bounding box.
    pub fn bounds(&self) -> (r: Rect)
        ensures
            r == self.rect(),
    {
        Rect { origin: self.origin, extent: self.extent }
    }
}

/// Whether `r` has at least one tile and keeps `PADDING` tiles between itself
/// and every edge of a floor of size `dimensions`.
pub open spec fn rect_within(r: Rect, dimensions: Vec2) -> bool {
    &&& r.extent.x >= 1
    &&& r.extent.y >= 1
    &&& PADDING <= r.origin.x
    &&& PADDING <= r.origin.y
    &&& r.origin.x + r.extent.x + PADDING < dimensions.x
    &&& r.origin.y + r.extent.y + PADDING < dimensions.y
}

/// Whether `candidate`, padded, overlaps the padded box of any room of `rooms`.
pub open spec fn collides(rooms: Seq<Room>, candidate: Rect) -> bool {
    exists|i: int|
        0 <= i < rooms.len() && (#[trigger] rooms[i]).rect().overlaps(candidate, PADDING as int)
}

/// Whether some room of `rooms` holds the tile `p` in its bounding box.
pub open spec fn in_some_room(rooms: Seq<Room>, p: Vec2) -> bool {
    exists|i: int| 0 <= i < rooms.len() && (#[trigger] rooms[i]).rect().contains(p)
}

/// Whether every room carries its position as its index.
pub open spec fn densely_indexed(rooms: Seq<Room>) -> bool {
    forall|i: int| 0 <= i < rooms.len() ==> (#[trigger] rooms[i]).index == i
}

/// Whether no two rooms of `rooms` have overlapping padded boxes.
pub open spec fn pairwise_apart(rooms: Seq<Room>) -> bool {
    forall|i: int, j: int|
        0 <= i < j < rooms.len() ==> !(#[trigger] rooms[i]).rect().overlaps(
            (#[trigger] rooms[j]).rect(),
            PADDING as int,
        )
}

/// What a floor of size `dimensions` asks of its room list: dense indices,
/// every room inside the padded interior, and no two rooms closer than the
/// padding allows.
pub open spec fn well_placed(rooms: Seq<Room>, dimensions: Vec2) -> bool {
    &&& densely_indexed(rooms)
    &&& forall|i: int| 0 <= i < rooms.len() ==> (#[trigger] rooms[i]).within(dimensions)
    &&& pairwise_apart(rooms)
}

/// Whether both sides of every room lie in `size_range`.
pub open spec fn sized_within(rooms: Seq<Room>, size_range: Range<u32>) -> bool {
    forall|i: int|
        0 <= i < rooms.len() ==> {
            &&& size_range.start <= (#[trigger] rooms[i]).extent.x < size_range.end
            &&& size_range.start <= rooms[i].extent.y < size_range.end
        }
}

/// Well-placed rooms lie apart: the padded boxes of two different rooms do
/// not intersect, in whichever order they are taken.
pub proof fn lemma_rooms_apart(rooms: Seq<Room>, dimensions: Vec2, i: int, j: int)
    requires
        well_placed(rooms, dimensions),
        0 <= i < rooms.len(),
        0 <= j < rooms.len(),
        i != j,
    ensures
        !rooms[i].rect().overlaps(rooms[j].rect(), PADDING as int),
{
    if i < j {
        assert(!rooms[i].rect().overlaps(rooms[j].rect(), PADDING as int));
    } else {
        assert(!rooms[j].rect().overlaps(rooms[i].rect(), PADDING as int));
    }
}

/// A well-placed room keeps to the padded interior: on both axes its origin
/// and its far edge lie between `PADDING` and the floor's size less `PADDING`.
pub proof fn lemma_room_inside_padding(rooms: Seq<Room>, dimensions: Vec2, i: int)
    requires
        well_placed(rooms, dimensions),
        0 <= i < rooms.len(),
    ensures
        PADDING <= rooms[i].origin.x <= rooms[i].origin.x + rooms[i].extent.x <= dimensions.x
            - PADDING,
        PADDING <= rooms[i].origin.y <= rooms[i].origin.y + rooms[i].extent.y <= dimensions.y
            - PADDING,
        rooms[i].origin.x + rooms[i].extent.x < dimensions.x,
        rooms[i].origin.y + rooms[i].extent.y < dimensions.y,
{
    assert(rooms[i].within(dimensions));
}

/// The fault, if any, in the parameters of a placement run. The ranges are
/// half-open; the first fault in the order below is the one reported.
pub open spec fn placement_fault(
    dimensions: Vec2,
    room_count_range: Range<u32>,
    room_size_range: Range<u32>,
) -> Option<ConfigError> {
    if room_count_range.start >= room_count_range.end {
        Some(ConfigError::EmptyCountRange)
    } else if room_size_range.start >= room_size_range.end {
        Some(ConfigError::EmptySizeRange)
    } else if room_size_range.start == 0 {
        Some(ConfigError::ZeroRoomSize)
    } else if room_size_range.end - 1 + 2 * PADDING >= dimensions.x || room_size_range.end - 1 + 2
        * PADDING >= dimensions.y {
        Some(ConfigError::RoomTooLarge)
    } else {
        None
    }
}

/// Checks the parameters of a placement run before anything is drawn.
pub fn validate_placement(
    dimensions: Vec2,
    room_count_range: &Range<u32>,
    room_size_range: &Range<u32>,
) -> (r: Result<(), ConfigError>)
    ensures
        r == match placement_fault(dimensions, *room_count_range, *room_size_range) {
            Some(e) => Err::<(), ConfigError>(e),
            None => Ok(()),
        },
{
    if room_count_range.start >= room_count_range.end {
        return Err(ConfigError::EmptyCountRange);
    }
    if room_size_range.start >= room_size_range.end {
        return Err(ConfigError::EmptySizeRange);
    }
    if room_size_range.start == 0 {
        return Err(ConfigError::ZeroRoomSize);
    }
    let reach: u64 = (room_size_range.end - 1) as u64 + 2 * (PADDING as u64);
    if reach >= dimensions.x as u64 || reach >= dimensions.y as u64 {
        return Err(ConfigError::RoomTooLarge);
    }
    Ok(())
}

/// Tells whether `candidate`, padded by `PADDING`, overlaps the padded box of
/// any room in `rooms`.
pub fn collides_with_any(rooms: &Vec<Room>, candidate: &Rect) -> (hit: bool)
    ensures
        hit == collides(rooms@, *candidate),
{
    let mut i: usize = 0;
    while i < rooms.len()
        invariant
            i <= rooms.len(),
            forall|j: int| 0 <= j < i ==> !(#[trigger] rooms@[j]).rect().overlaps(*candidate, PADDING as int),
        decreases rooms.len() - i,
    {
        let other = rooms[i].bounds();
        if rectangles_overlap(&other, candidate, PADDING) {
            return true;
        }
        i += 1;
    }
    false
}

/// Tells whether `p` falls within the bounding box of any room in `rooms`.
pub fn any_room_contains(rooms: &Vec<Room>, p: Vec2) -> (inside: bool)
    ensures
        inside == in_some_room(rooms@, p),
{
    let mut i: usize = 0;
    while i < rooms.len()
        invariant
            i <= rooms.len(),
            forall|j: int| 0 <= j < i ==> !(#[trigger] rooms@[j]).rect().contains(p),
        decreases rooms.len() - i,
    {
        if point_in_rectangle(p, rooms[i].origin, rooms[i].extent) {
            return true;
        }
        i += 1;
    }
    false
}

/// Tells whether `candidate` has at least one tile and lies in the padded
/// interior of a floor of size `dimensions`.
pub fn fits_floor(candidate: &Rect, dimensions: Vec2) -> (ok: bool)
    ensures
        ok == rect_within(*candidate, dimensions),
{
    let pad: u64 = PADDING as u64;
    candidate.extent.x >= 1 && candidate.extent.y >= 1 && candidate.origin.x >= PADDING
        && candidate.origin.y >= PADDING && candidate.origin.x as u64 + candidate.extent.x as u64
        + pad < dimensions.x as u64 && candidate.origin.y as u64 + candidate.extent.y as u64 + pad
        < dimensions.y as u64
}

/// Accepts `candidate` as the next room if it lies in the padded interior of
/// the floor and collides with no room accepted before; otherwise leaves the
/// list as it is. An accepted room is appended with its position as index.
pub fn try_accept(rooms: &mut Vec<Room>, dimensions: Vec2, candidate: Rect) -> (accepted: bool)
    ensures
        accepted == (rect_within(candidate, dimensions) && !collides(old(rooms)@, candidate)),
        accepted ==> final(rooms)@ == old(rooms)@.push(
            Room { origin: candidate.origin, extent: candidate.extent, index: old(rooms)@.len() as usize },
        ),
        !accepted ==> final(rooms)@ == old(rooms)@,
        well_placed(old(rooms)@, dimensions) ==> well_placed(final(rooms)@, dimensions),
{
    if !fits_floor(&candidate, dimensions) || collides_with_any(rooms, &candidate) {
        return false;
    }
    let index = rooms.len();
    proof {
        if well_placed(rooms@, dimensions) {
            lemma_accepted_room_is_well_placed(rooms@, dimensions, candidate);
        }
    }
    rooms.push(Room { origin: candidate.origin, extent: candidate.extent, index });
    true
}

/// Well-placed rooms stay well placed when a room is appended that lies in
/// the padded interior and collides with none of them.
pub proof fn lemma_accepted_room_is_well_placed(rooms: Seq<Room>, dimensions: Vec2, candidate: Rect)
    requires
        well_placed(rooms, dimensions),
        rooms.len() <= usize::MAX,
        rect_within(candidate, dimensions),
        !collides(rooms, candidate),
    ensures
        well_placed(
            rooms.push(
                Room {
                    origin: candidate.origin,
                    extent: candidate.extent,
                    index: rooms.len() as usize,
                },
            ),
            dimensions,
        ),
{
    let after = rooms.push(
        Room { origin: candidate.origin, extent: candidate.extent, index: rooms.len() as usize },
    );
    assert forall|i: int, j: int| 0 <= i < j < after.len() implies !(#[trigger] after[i]).rect().overlaps(
        (#[trigger] after[j]).rect(),
        PADDING as int,
    ) by {
        assert(rooms[i] == after[i]);
        if j == after.len() - 1 {
            assert(!rooms[i].rect().overlaps(candidate, PADDING as int));
        } else {
            assert(rooms[j] == after[j]);
        }
    }
    assert forall|i: int| 0 <= i < after.len() implies (#[trigger] after[i]).within(dimensions)
        && after[i].index == i by {
        if i < rooms.len() {
            assert(rooms[i] == after[i]);
        }
    }
}

/// Whether `origin` may be drawn for a room of size `extent`: the room then
/// keeps `PADDING` tiles between itself and every edge of the floor.
pub open spec fn drawable(origin: Vec2, extent: Vec2, dimensions: Vec2) -> bool {
    &&& PADDING <= origin.x < dimensions.x - extent.x - PADDING
    &&& PADDING <= origin.y < dimensions.y - extent.y - PADDING
}

/// Whether `tried` can be the origins that were tried, in order, for one room
/// of size `extent` beside the rooms `before`: between one and
/// `MAX_PLACEMENT_TRIES` origins, each of them drawable, all but the last
/// colliding, and the last one free unless the tries ran out.
pub open spec fn legal_attempt(
    before: Seq<Room>,
    dimensions: Vec2,
    extent: Vec2,
    tried: Seq<Vec2>,
) -> bool {
    &&& 1 <= tried.len() <= MAX_PLACEMENT_TRIES
    &&& forall|i: int| 0 <= i < tried.len() ==> drawable(#[trigger] tried[i], extent, dimensions)
    &&& forall|i: int|
        0 <= i < tried.len() - 1 ==> collides(before, Rect { origin: #[trigger] tried[i], extent })
    &&& tried.len() < MAX_PLACEMENT_TRIES ==> !collides(
        before,
        Rect { origin: tried.last(), extent },
    )
}

/// The rooms after an attempt: with the room at the last origin tried, if
/// that one is free, else as before.
pub open spec fn after_attempt(before: Seq<Room>, extent: Vec2, tried: Seq<Vec2>) -> Seq<Room> {
    if collides(before, Rect { origin: tried.last(), extent }) {
        before
    } else {
        before.push(Room { origin: tried.last(), extent, index: before.len() as usize })
    }
}

/// Whether the attempt for one room, of size `extent` and with the origins
/// `tried`, leads from the rooms `before` to the rooms `after`.
pub open spec fn attempt_yields(
    before: Seq<Room>,
    after: Seq<Room>,
    dimensions: Vec2,
    size_range: Range<u32>,
    extent: Vec2,
    tried: Seq<Vec2>,
) -> bool {
    &&& size_range.start <= extent.x < size_range.end
    &&& size_range.start <= extent.y < size_range.end
    &&& legal_attempt(before, dimensions, extent, tried)
    &&& after == after_attempt(before, extent, tried)
}

/// Whether the step from entry `k` of `history` to the next is the attempt
/// for one room with sides in `size_range`.
pub open spec fn is_attempt(
    history: Seq<Seq<Room>>,
    k: int,
    dimensions: Vec2,
    size_range: Range<u32>,
) -> bool {
    exists|extent: Vec2, tried: Seq<Vec2>| #[trigger]
        attempt_yields(history[k], history[k + 1], dimensions, size_range, extent, tried)
}

/// Whether `history` records a placement run: it starts with no room, and
/// every further entry holds the rooms after the attempt for one more room.
pub open spec fn is_run(history: Seq<Seq<Room>>, dimensions: Vec2, size_range: Range<u32>) -> bool {
    &&& history.len() >= 1
    &&& history[0].len() == 0
    &&& forall|k: int|
        0 <= k < history.len() - 1 ==> #[trigger] is_attempt(history, k, dimensions, size_range)
}

/// Whether `rooms` can be what a run for `requested` rooms leaves: some
/// sequence of draws within their ranges, with every room accepted at the
/// first origin that was free and dropped only after `MAX_PLACEMENT_TRIES`
/// origins that were not, ends with exactly these rooms.
pub open spec fn placed_by_run(
    rooms: Seq<Room>,
    requested: nat,
    dimensions: Vec2,
    size_range: Range<u32>,
) -> bool {
    exists|history: Seq<Seq<Room>>| #[trigger]
        is_run(history, dimensions, size_range) && history.len() == requested + 1
            && history.last() == rooms
}

/// Every placement run leaves its rooms well placed: after the attempts for
/// `k` rooms no more than `k` rooms stand, with dense indices, within the
/// padded interior, no two of them closer than the padding allows, and with
/// sides in the range from which they were drawn.
pub proof fn lemma_run_is_well_placed(
    history: Seq<Seq<Room>>,
    dimensions: Vec2,
    size_range: Range<u32>,
    k: int,
)
    requires
        is_run(history, dimensions, size_range),
        size_range.start >= 1,
        0 <= k < history.len(),
        k <= usize::MAX,
    ensures
        well_placed(history[k], dimensions),
        sized_within(history[k], size_range),
        history[k].len() <= k,
    decreases k,
{
    if k > 0 {
        lemma_run_is_well_placed(history, dimensions, size_range, k - 1);
        assert(is_attempt(history, k - 1, dimensions, size_range));
        let (extent, tried) = choose|extent: Vec2, tried: Seq<Vec2>| #[trigger]
            attempt_yields(history[k - 1], history[k - 1 + 1], dimensions, size_range, extent, tried);
        let before = history[k - 1];
        let candidate = Rect { origin: tried.last(), extent };
        assert(drawable(tried[tried.len() - 1], extent, dimensions));
        if !collides(before, candidate) {
            lemma_accepted_room_is_well_placed(before, dimensions, candidate);
            assert forall|i: int| 0 <= i < history[k].len() implies {
                &&& size_range.start <= (#[trigger] history[k][i]).extent.x < size_range.end
                &&& size_range.start <= history[k][i].extent.y < size_range.end
            } by {
                if i < before.len() {
                    assert(history[k][i] == before[i]);
                }
            }
        }
    }
}

/// Places rooms on a floor of size `dimensions`.
///
/// A room count is drawn once from `room_count_range`. For each room a width
/// and a height are drawn from `room_size_range`, then origins are drawn
/// within the padded interior until one collides with no room accepted so
/// far. A room for which `MAX_PLACEMENT_TRIES` origins all collide is dropped;
/// the rooms that remain are indexed densely in the order of acceptance.
///
/// Whatever the generator yields, the parameters are rejected exactly when
/// `placement_fault` names a fault, the rooms are what such a run leaves for
/// some sequence of draws, and they are well placed. The first room always
/// finds a spot.
pub fn place_rooms(
    rng: &mut fastrand::Rng,
    dimensions: Vec2,
    room_count_range: Range<u32>,
    room_size_range: Range<u32>,
) -> (r: Result<Placement, ConfigError>)
    ensures
        match r {
            Err(e) => placement_fault(dimensions, room_count_range, room_size_range) == Some(e),
            Ok(p) => {
                &&& placement_fault(dimensions, room_count_range, room_size_range) is None
                &&& room_count_range.start <= p.requested < room_count_range.end
                &&& placed_by_run(p.rooms@, p.requested as nat, dimensions, room_size_range)
                &&& p.rooms@.len() <= p.requested
                &&& p.requested >= 1 ==> p.rooms@.len() >= 1
                &&& well_placed(p.rooms@, dimensions)
                &&& sized_within(p.rooms@, room_size_range)
            },
        },
{
    match validate_placement(dimensions, &room_count_range, &room_size_range) {
        Err(e) => {
            return Err(e);
        },
        Ok(()) => {},
    }
    let requested = draw_u32(rng, room_count_range.start, room_count_range.end);
    let mut rooms: Vec<Room> = Vec::new();
    let ghost mut history: Seq<Seq<Room>> = seq![rooms@];
    let mut k: u32 = 0;
    while k < requested
        invariant
            k <= requested,
            placement_fault(dimensions, room_count_range, room_size_range) is None,
            is_run(history, dimensions, room_size_range),
            history.len() == k + 1,
            history.last() == rooms@,
            rooms@.len() <= k,
            k >= 1 ==> rooms@.len() >= 1,
            well_placed(rooms@, dimensions),
            sized_within(rooms@, room_size_range),
        decreases requested - k,
    {
        let width = draw_u32(rng, room_size_range.start, room_size_range.end);
        let height = draw_u32(rng, room_size_range.start, room_size_range.end);
        let extent = Vec2 { x: width, y: height };
        let ghost before = rooms@;
        let ghost mut tried: Seq<Vec2> = Seq::empty();
        let mut tries: u32 = 0;
        let mut placed = false;
        while tries < MAX_PLACEMENT_TRIES && !placed
            invariant
                tries <= MAX_PLACEMENT_TRIES,
                placement_fault(dimensions, room_count_range, room_size_range) is None,
                room_size_range.start <= width < room_size_range.end,
                room_size_range.start <= height < room_size_range.end,
                extent == (Vec2 { x: width, y: height }),
                well_placed(rooms@, dimensions),
                tried.len() == tries,
                forall|i: int|
                    0 <= i < tried.len() ==> drawable(#[trigger] tried[i], extent, dimensions),
                forall|i: int|
                    0 <= i < tried.len() - 1 ==> collides(
                        before,
                        Rect { origin: #[trigger] tried[i], extent },
                    ),
                !placed ==> rooms@ == before,
                !placed && tries >= 1 ==> collides(before, Rect { origin: tried.last(), extent }),
                placed ==> tries >= 1 && !collides(before, Rect { origin: tried.last(), extent }),
                tries >= 1 ==> rooms@ == after_attempt(before, extent, tried),
            decreases MAX_PLACEMENT_TRIES - tries,
        {
            let x = draw_u32(rng, PADDING, dimensions.x - width - PADDING);
            let y = draw_u32(rng, PADDING, dimensions.y - height - PADDING);
            let candidate = Rect { origin: Vec2 { x, y }, extent };
            placed = try_accept(&mut rooms, dimensions, candidate);
            tries += 1;
            proof {
                tried = tried.push(candidate.origin);
            }
        }
        proof {
            assert(legal_attempt(before, dimensions, extent, tried));
            let longer = history.push(rooms@);
            assert(attempt_yields(
                longer[k as int],
                longer[k + 1],
                dimensions,
                room_size_range,
                extent,
                tried,
            ));
            assert forall|j: int| 0 <= j < longer.len() - 1 implies #[trigger] is_attempt(
                longer,
                j,
                dimensions,
                room_size_range,
            ) by {
                if j < k {
                    assert(is_attempt(history, j, dimensions, room_size_range));
                    let (e, t) = choose|e: Vec2, t: Seq<Vec2>| #[trigger]
                        attempt_yields(history[j], history[j + 1], dimensions, room_size_range, e, t);
                    assert(attempt_yields(
                        longer[j],
                        longer[j + 1],
                        dimensions,
                        room_size_range,
                        e,
                        t,
                    ));
                }
            }
            history = longer;
            if placed {
                assert forall|i: int| 0 <= i < rooms@.len() implies {
                    &&& room_size_range.start <= (#[trigger] rooms@[i]).extent.x
                        < room_size_range.end
                    &&& room_size_range.start <= rooms@[i].extent.y < room_size_range.end
                } by {
                    if i < before.len() {
                        assert(rooms@[i] == before[i]);
                    }
                }
            }
        }
        k += 1;
    }
    Ok(Placement { rooms, requested })
}

} // verus!
