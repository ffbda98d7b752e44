//! The floor: one level, filled in three phases that must run in order.

use crate::corridors::{
    all_anchorable, anchorable, hallways_sound, is_routing_failure, route_hallways, HallwayError,
};
use crate::geometry::Vec2;
use crate::graph::{build_connections, connected, endpoints_valid, extras_fit, layout, Connection};
use crate::hallway::{on_any_segment, Hallway};
use crate::room::{
    any_room_contains, in_some_room, place_rooms, placed_by_run, placement_fault, sized_within,
    well_placed, ConfigError, Room,
};
use crate::router::RouteError;
use std::ops::Range;
use vstd::prelude::*;

verus! {

/// The three phases of generation, in the order in which they run.
#[derive(Clone, Copy, Debug, PartialEq, Eq, Structural)]
pub enum Phase {
    Rooms,
    Connections,
    Hallways,
}

/// Why a call on a floor failed.
#[derive(Clone, Copy, Debug, PartialEq, Eq, Structural)]
pub enum FloorError {
    /// The call needs the named phase, which has not run yet.
    PhaseNotRun(Phase),
    /// The named phase has run already; what it made is not made again.
    PhaseAlreadyRun(Phase),
    /// The generation parameters were turned down.
    Config(ConfigError),
    /// A connection could not be routed.
    Hallway(HallwayError),
}

/// A level: its rooms, the connections between them and the hallways that
/// realise the connections, within fixed dimensions. Each list is absent
/// until its phase has run.
pub struct Floor {
    rooms: Option<Vec<Room>>,
    connections: Option<Vec<Connection>>,
    hallways: Option<Vec<Hallway>>,
    dimensions: Vec2,
    requested: u32,
}

/// Whether any hallway of `hallways` has `p` among its tiles.
pub open spec fn on_some_hallway(hallways: Seq<Hallway>, p: Vec2) -> bool {
    exists|k: int| 0 <= k < hallways.len() && (#[trigger] hallways[k]).covers(p)
}

impl Floor {
    /// What holds of every floor: the rooms are well placed and no more
    /// than were asked for, the connections join them all, and there is one
    /// sound hallway for each connection. A later list is present only if
    /// the earlier ones are.
    #[verifier::type_invariant]
    spec fn well_formed(self) -> bool {
        &&& self.rooms matches Some(rooms) ==> {
            &&& well_placed(rooms@, self.dimensions)
            &&& rooms@.len() <= self.requested
            &&& self.requested >= 1 ==> rooms@.len() >= 1
        }
        &&& self.connections matches Some(edges) ==> {
            &&& self.rooms is Some
            &&& endpoints_valid(edges@, self.rooms->0@.len())
            &&& connected(self.rooms->0@.len(), edges@)
        }
        &&& self.hallways matches Some(hallways) ==> {
            &&& self.connections is Some
            &&& hallways_sound(self.rooms->0@, self.connections->0@, hallways@)
        }
    }

    /// The floor's width and height.
    pub closed spec fn size(self) -> Vec2 {
        self.dimensions
    }

    /// The rooms, once they have been placed.
    pub closed spec fn room_list(self) -> Option<Seq<Room>> {
        match self.rooms {
            Some(rooms) => Some(rooms@),
            None => None,
        }
    }

    /// The number of rooms that the placement set out to place, once it has
    /// run. Rooms that found no spot were dropped, so fewer may stand.
    pub closed spec fn requested_count(self) -> Option<u32> {
        match self.rooms {
            Some(_) => Some(self.requested),
            None => None,
        }
    }

    /// The connections, once they have been built.
    pub closed spec fn connection_list(self) -> Option<Seq<Connection>> {
        match self.connections {
            Some(edges) => Some(edges@),
            None => None,
        }
    }

    /// The hallways, once they have been routed.
    pub closed spec fn hallway_list(self) -> Option<Seq<Hallway>> {
        match self.hallways {
            Some(hallways) => Some(hallways@),
            None => None,
        }
    }

    /// An empty floor of the given size, on which no phase has run.
    pub fn new(dimensions: Vec2) -> (floor: Floor)
        ensures
            floor.size() == dimensions,
            floor.room_list() is None,
            floor.connection_list() is None,
            floor.hallway_list() is None,
    {
        Floor { rooms: None, connections: None, hallways: None, dimensions, requested: 0 }
    }

    /// The floor's width and height.
    pub fn dimensions(&self) -> (d: Vec2)
        ensures
            d == self.size(),
    {
        self.dimensions
    }

    /// The number of rooms that the placement set out to place, if it has
    /// run. At least one room stands if at least one was asked for.
    pub fn requested_rooms(&self) -> (r: Option<u32>)
        ensures
            r == self.requested_count(),
            r matches Some(requested) ==> {
                &&& self.room_list() matches Some(rooms)
                &&& rooms.len() <= requested
                &&& requested >= 1 ==> rooms.len() >= 1
            },
    {
        proof {
            use_type_invariant(self);
        }
        match &self.rooms {
            Some(_) => Some(self.requested),
            None => None,
        }
    }

    /// The rooms, if they have been placed. They are well placed.
    pub fn rooms(&self) -> (r: Option<&Vec<Room>>)
        ensures
            match r {
                Some(rooms) => self.room_list() == Some(rooms@) && well_placed(
                    rooms@,
                    self.size(),
                ),
                None => self.room_list() is None,
            },
    {
        proof {
            use_type_invariant(self);
        }
        match &self.rooms {
            Some(rooms) => Some(rooms),
            None => None,
        }
    }

    /// The connections, if they have been built. Their ends name rooms of
    /// the floor, and they join all rooms into one component.
    pub fn connections(&self) -> (r: Option<&Vec<Connection>>)
        ensures
            match r {
                Some(edges) => {
                    &&& self.connection_list() == Some(edges@)
                    &&& self.room_list() matches Some(rooms)
                    &&& endpoints_valid(edges@, rooms.len())
                    &&& connected(rooms.len(), edges@)
                },
                None => self.connection_list() is None,
            },
    {
        proof {
            use_type_invariant(self);
        }
        match &self.connections {
            Some(edges) => Some(edges),
            None => None,
        }
    }

    /// The hallways, if they have been routed: one for each connection, in
    /// order, chained from an anchor of the one room to an anchor of the
    /// other and clear of every room.
    pub fn hallways(&self) -> (r: Option<&Vec<Hallway>>)
        ensures
            match r {
                Some(hallways) => {
                    &&& self.hallway_list() == Some(hallways@)
                    &&& self.room_list() matches Some(rooms)
                    &&& self.connection_list() matches Some(edges)
                    &&& hallways_sound(rooms, edges, hallways@)
                },
                None => self.hallway_list() is None,
            },
    {
        proof {
            use_type_invariant(self);
        }
        match &self.hallways {
            Some(hallways) => Some(hallways),
            None => None,
        }
    }

    /// Makes a floor of size `floor_dims` and places its rooms: the first
    /// phase of generation, run on a new floor.
    pub fn gen_floor(
        rng: &mut fastrand::Rng,
        floor_dims: Vec2,
        room_count_range: Range<u32>,
        room_dims_range: Range<u32>,
    ) -> (r: Result<Floor, ConfigError>)
        ensures
            match r {
                Err(e) => placement_fault(floor_dims, room_count_range, room_dims_range) == Some(e),
                Ok(floor) => {
                    &&& placement_fault(floor_dims, room_count_range, room_dims_range) is None
                    &&& floor.size() == floor_dims
                    &&& floor.placed_within(room_count_range, room_dims_range)
                    &&& floor.connection_list() is None
                    &&& floor.hallway_list() is None
                },
            },
    {
        match place_rooms(rng, floor_dims, room_count_range, room_dims_range) {
            Err(e) => Err(e),
            Ok(placement) => Ok(
                Floor {
                    rooms: Some(placement.rooms),
                    connections: None,
                    hallways: None,
                    dimensions: floor_dims,
                    requested: placement.requested,
                },
            ),
        }
    }

    /// Whether the rooms have been placed as a run with these ranges places
    /// them: the count that was drawn lies in `room_count_range`, the rooms
    /// are what a run for that many leaves, no more rooms stand than that, at
    /// least one if one was asked for, all well placed and with sides in
    /// `room_size_range`.
    pub open spec fn placed_within(
        self,
        room_count_range: Range<u32>,
        room_size_range: Range<u32>,
    ) -> bool {
        &&& self.room_list() matches Some(rooms)
        &&& self.requested_count() matches Some(requested)
        &&& room_count_range.start <= requested < room_count_range.end
        &&& rooms.len() <= requested
        &&& requested >= 1 ==> rooms.len() >= 1
        &&& placed_by_run(rooms, requested as nat, self.size(), room_size_range)
        &&& well_placed(rooms, self.size())
        &&& sized_within(rooms, room_size_range)
    }

    /// Runs the first phase: places the rooms. On success the count that was
    /// drawn is returned; the rooms that found a spot may be fewer.
    ///
    /// Fails, and leaves the floor as it is, if the rooms have been placed
    /// before or the parameters are faulty.
    pub fn generate_rooms(
        &mut self,
        rng: &mut fastrand::Rng,
        room_count_range: Range<u32>,
        room_size_range: Range<u32>,
    ) -> (r: Result<u32, FloorError>)
        ensures
            final(self).size() == old(self).size(),
            match r {
                Ok(requested) => {
                    &&& old(self).room_list() is None
                    &&& placement_fault(old(self).size(), room_count_range, room_size_range) is None
                    &&& final(self).requested_count() == Some(requested)
                    &&& final(self).placed_within(room_count_range, room_size_range)
                    &&& final(self).connection_list() is None
                    &&& final(self).hallway_list() is None
                },
                Err(e) => {
                    &&& *final(self) == *old(self)
                    &&& match e {
                        FloorError::PhaseAlreadyRun(Phase::Rooms) => old(self).room_list() is Some,
                        FloorError::Config(fault) => old(self).room_list() is None
                            && placement_fault(old(self).size(), room_count_range, room_size_range)
                            == Some(fault),
                        _ => false,
                    }
                },
            },
    {
        proof {
            use_type_invariant(&*self);
        }
        if self.rooms.is_some() {
            return Err(FloorError::PhaseAlreadyRun(Phase::Rooms));
        }
        match place_rooms(rng, self.dimensions, room_count_range, room_size_range) {
            Err(e) => Err(FloorError::Config(e)),
            Ok(placement) => {
                self.requested = placement.requested;
                self.rooms = Some(placement.rooms);
                Ok(placement.requested)
            },
        }
    }

    /// Runs the second phase: builds the connections over the rooms.
    ///
    /// Fails, and leaves the floor as it is, if the rooms have not been
    /// placed, the connections have been built before, or the range for the
    /// number of extra connections is empty.
    pub fn generate_connections(
        &mut self,
        rng: &mut fastrand::Rng,
        extra_edge_count_range: Range<u32>,
    ) -> (r: Result<(), FloorError>)
        ensures
            final(self).size() == old(self).size(),
            final(self).room_list() == old(self).room_list(),
            final(self).requested_count() == old(self).requested_count(),
            match r {
                Ok(()) => {
                    &&& old(self).room_list() matches Some(rooms)
                    &&& old(self).connection_list() is None
                    &&& extra_edge_count_range.start < extra_edge_count_range.end
                    &&& final(self).connection_list() matches Some(edges)
                    &&& exists|extras: Seq<Seq<usize>>|
                        extras_fit(extras, rooms.len(), extra_edge_count_range) && edges == layout(
                            extras,
                        )
                    &&& endpoints_valid(edges, rooms.len())
                    &&& connected(rooms.len(), edges)
                    &&& final(self).hallway_list() is None
                },
                Err(e) => {
                    &&& *final(self) == *old(self)
                    &&& match e {
                        FloorError::PhaseNotRun(Phase::Rooms) => old(self).room_list() is None,
                        FloorError::PhaseAlreadyRun(Phase::Connections) => {
                            old(self).connection_list() is Some
                        },
                        FloorError::Config(ConfigError::EmptyExtraEdgeRange) => {
                            &&& old(self).room_list() is Some
                            &&& old(self).connection_list() is None
                            &&& extra_edge_count_range.start >= extra_edge_count_range.end
                        },
                        _ => false,
                    }
                },
            },
    {
        proof {
            use_type_invariant(&*self);
        }
        if self.connections.is_some() {
            return Err(FloorError::PhaseAlreadyRun(Phase::Connections));
        }
        let built = match &self.rooms {
            None => {
                return Err(FloorError::PhaseNotRun(Phase::Rooms));
            },
            Some(rooms) => build_connections(rng, rooms, extra_edge_count_range),
        };
        match built {
            Err(e) => Err(FloorError::Config(e)),
            Ok(edges) => {
                self.connections = Some(edges);
                Ok(())
            },
        }
    }

    /// Runs the third phase: routes a hallway for every connection.
    ///
    /// Fails, and leaves the floor as it is, if the connections have not
    /// been built, the hallways have been routed before, or the router gives
    /// up on a connection: then there are two anchors of that connection's
    /// rooms between which the router exhausts its step budget. On a floor's
    /// own rooms that is the only way in which routing fails.
    pub fn generate_hallways(&mut self, rng: &mut fastrand::Rng) -> (r: Result<(), FloorError>)
        ensures
            final(self).size() == old(self).size(),
            final(self).room_list() == old(self).room_list(),
            final(self).requested_count() == old(self).requested_count(),
            final(self).connection_list() == old(self).connection_list(),
            match r {
                Ok(()) => {
                    &&& old(self).room_list() matches Some(rooms)
                    &&& old(self).connection_list() matches Some(edges)
                    &&& old(self).hallway_list() is None
                    &&& final(self).hallway_list() matches Some(hallways)
                    &&& hallways_sound(rooms, edges, hallways)
                },
                Err(e) => {
                    &&& *final(self) == *old(self)
                    &&& match e {
                        FloorError::PhaseNotRun(Phase::Connections) => {
                            old(self).connection_list() is None
                        },
                        FloorError::PhaseAlreadyRun(Phase::Hallways) => old(self).hallway_list() is Some,
                        FloorError::Hallway(HallwayError::Unroutable { connection, cause }) => {
                            &&& old(self).room_list() matches Some(rooms)
                            &&& old(self).connection_list() matches Some(edges)
                            &&& old(self).hallway_list() is None
                            &&& is_routing_failure(rooms, edges, connection as int, cause)
                            &&& cause == RouteError::StepBudgetExhausted
                        },
                        _ => false,
                    }
                },
            },
    {
        proof {
            use_type_invariant(&*self);
        }
        if self.hallways.is_some() {
            return Err(FloorError::PhaseAlreadyRun(Phase::Hallways));
        }
        let routed = match (&self.rooms, &self.connections) {
            (Some(rooms), Some(edges)) => {
                proof {
                    lemma_well_placed_anchorable(rooms@, self.dimensions, edges@);
                }
                route_hallways(rng, rooms, edges)
            },
            _ => {
                return Err(FloorError::PhaseNotRun(Phase::Connections));
            },
        };
        match routed {
            Err(e) => Err(FloorError::Hallway(e)),
            Ok(hallways) => {
                self.hallways = Some(hallways);
                Ok(())
            },
        }
    }

    /// Tells whether `point` falls within the bounding box of any room.
    /// Fails if the rooms have not been placed.
    pub fn point_in_any_room(&self, point: Vec2) -> (r: Result<bool, FloorError>)
        ensures
            match self.room_list() {
                Some(rooms) => r == Ok::<bool, FloorError>(in_some_room(rooms, point)),
                None => r == Err::<bool, FloorError>(FloorError::PhaseNotRun(Phase::Rooms)),
            },
    {
        match &self.rooms {
            Some(rooms) => Ok(any_room_contains(rooms, point)),
            None => Err(FloorError::PhaseNotRun(Phase::Rooms)),
        }
    }

    /// Tells whether `point` lies on any segment of any hallway. Fails if
    /// the hallways have not been routed. No tile of a room lies on a
    /// hallway.
    pub fn point_in_any_hallway(&self, point: Vec2) -> (r: Result<bool, FloorError>)
        ensures
            match self.hallway_list() {
                Some(hallways) => r == Ok::<bool, FloorError>(on_some_hallway(hallways, point)),
                None => r == Err::<bool, FloorError>(FloorError::PhaseNotRun(Phase::Hallways)),
            },
            self.room_list() matches Some(rooms) && in_some_room(rooms, point) ==> r
                != Ok::<bool, FloorError>(true),
    {
        proof {
            use_type_invariant(self);
        }
        match &self.hallways {
            Some(hallways) => {
                let on_hallway = any_hallway_contains(hallways, point);
                proof {
                    if on_hallway {
                        let k = choose|k: int|
                            0 <= k < hallways@.len() && (#[trigger] hallways@[k]).covers(point);
                        assert(on_any_segment(hallways@[k].segments@, point));
                    }
                }
                Ok(on_hallway)
            },
            None => Err(FloorError::PhaseNotRun(Phase::Hallways)),
        }
    }
}

/// Anchors can be drawn for every connection between well-placed rooms.
pub proof fn lemma_well_placed_anchorable(
    rooms: Seq<Room>,
    dimensions: Vec2,
    connections: Seq<Connection>,
)
    requires
        well_placed(rooms, dimensions),
        endpoints_valid(connections, rooms.len()),
    ensures
        all_anchorable(rooms, connections),
{
    assert forall|j: int| 0 <= j < connections.len() implies anchorable(
        rooms,
        #[trigger] connections[j],
    ) by {
        let c = connections[j];
        assert(rooms[c.from_index as int].within(dimensions));
        assert(rooms[c.to_index as int].within(dimensions));
    }
}

/// Tells whether `p` lies on any segment of any hallway in `hallways`.
pub fn any_hallway_contains(hallways: &Vec<Hallway>, p: Vec2) -> (r: bool)
    ensures
        r == on_some_hallway(hallways@, p),
{
    let mut k: usize = 0;
    while k < hallways.len()
        invariant
            k <= hallways@.len(),
            forall|j: int| 0 <= j < k ==> !(#[trigger] hallways@[j]).covers(p),
        decreases hallways@.len() - k,
    {
        if hallways[k].contains_point(p) {
            return true;
        }
        k += 1;
    }
    false
}

} // verus!
