use dungeon_gen::geometry::{Rect, Vec2};
use dungeon_gen::hallway::{Axis, Direction, Segment};
use dungeon_gen::room::{any_room_contains, Room};
use dungeon_gen::router::{
    detour_target, find_nearest_hit, route_segments, starting_axis, step, Cursor, RouteError,
    CLEARANCE, MAX_ROUTE_STEPS,
};

fn at(x: u32, y: u32) -> Vec2 {
    Vec2 { x, y }
}

fn room(x: u32, y: u32, w: u32, h: u32, index: usize) -> Room {
    Room { origin: at(x, y), extent: Vec2 { x: w, y: h }, index }
}

fn seg(x: u32, y: u32, length: u32, axis_direction: Direction) -> Segment {
    Segment { start: at(x, y), length, axis_direction }
}

fn tiles(segment: &Segment) -> Vec<Vec2> {
    (0..=segment.length)
        .map(|k| match segment.axis_direction {
            Direction::Up => at(segment.start.x, segment.start.y - k),
            Direction::Down => at(segment.start.x, segment.start.y + k),
            Direction::Left => at(segment.start.x - k, segment.start.y),
            Direction::Right => at(segment.start.x + k, segment.start.y),
        })
        .collect()
}

fn assert_sound(rooms: &Vec<Room>, entry: Vec2, exit: Vec2, segments: &[Segment]) {
    let mut here = entry;
    for s in segments {
        assert_eq!(s.start, here);
        assert!(s.length >= 1);
        for t in tiles(s) {
            assert!(!any_room_contains(rooms, t));
        }
        here = s.end().unwrap();
    }
    assert_eq!(here, exit);
}

/// Two rooms on one row and a third between them.
fn three_in_a_row() -> Vec<Room> {
    vec![room(10, 10, 5, 5, 0), room(60, 10, 5, 5, 1), room(30, 8, 8, 10, 2)]
}

#[test]
fn router_constants_have_their_documented_values() {
    assert_eq!(CLEARANCE, 2);
    assert_eq!(MAX_ROUTE_STEPS, 256);
}

#[test]
fn far_rooms_are_joined_by_an_elbow() {
    let rooms = vec![room(10, 10, 5, 5, 0), room(60, 40, 5, 5, 1)];
    let entry = at(15, 12);
    let exit = at(62, 39);
    let segments = route_segments(&rooms, entry, exit).unwrap();
    assert_eq!(
        segments,
        vec![seg(15, 12, 47, Direction::Right), seg(62, 12, 27, Direction::Down)]
    );
    assert_sound(&rooms, entry, exit, &segments);
}

#[test]
fn the_farther_axis_is_taken_first() {
    let rooms = vec![room(10, 10, 5, 5, 0), room(40, 60, 5, 5, 1)];
    let entry = at(12, 15);
    let exit = at(39, 62);
    let segments = route_segments(&rooms, entry, exit).unwrap();
    assert_eq!(
        segments,
        vec![seg(12, 15, 47, Direction::Down), seg(12, 62, 27, Direction::Right)]
    );
    assert_eq!(starting_axis(entry, exit), Axis::Vertical);
    assert_eq!(starting_axis(exit, entry), Axis::Vertical);
    assert_eq!(starting_axis(at(0, 0), at(5, 5)), Axis::Horizontal);
    assert_eq!(starting_axis(at(0, 0), at(5, 6)), Axis::Vertical);
    assert_eq!(starting_axis(at(3, 3), at(3, 3)), Axis::Horizontal);
}

#[test]
fn aligned_tiles_are_joined_by_one_segment() {
    let rooms = vec![room(10, 10, 5, 5, 0), room(60, 10, 5, 5, 1)];
    assert_eq!(
        route_segments(&rooms, at(15, 12), at(59, 12)).unwrap(),
        vec![seg(15, 12, 44, Direction::Right)]
    );
    assert_eq!(
        route_segments(&rooms, at(59, 12), at(15, 12)).unwrap(),
        vec![seg(59, 12, 44, Direction::Left)]
    );
    assert_eq!(
        route_segments(&rooms, at(12, 9), at(12, 2)).unwrap(),
        vec![seg(12, 9, 7, Direction::Up)]
    );
    assert_eq!(
        route_segments(&rooms, at(12, 15), at(12, 30)).unwrap(),
        vec![seg(12, 15, 15, Direction::Down)]
    );
}

#[test]
fn a_tile_is_joined_to_itself_by_nothing() {
    let rooms = three_in_a_row();
    assert_eq!(route_segments(&rooms, at(15, 12), at(15, 12)).unwrap(), vec![]);
    assert_eq!(route_segments(&Vec::new(), at(0, 0), at(0, 0)).unwrap(), vec![]);
}

#[test]
fn a_room_in_the_way_is_walked_round() {
    let rooms = three_in_a_row();
    let entry = at(15, 12);
    let exit = at(59, 12);
    let segments = route_segments(&rooms, entry, exit).unwrap();
    // The first run stops two tiles before column 30, where the third room begins.
    assert_eq!(segments[0], seg(15, 12, 13, Direction::Right));
    assert_eq!(segments[0].end(), Some(at(28, 12)));
    assert_eq!(
        segments,
        vec![
            seg(15, 12, 13, Direction::Right),
            seg(28, 12, 6, Direction::Up),
            seg(28, 6, 31, Direction::Right),
            seg(59, 6, 6, Direction::Down),
        ]
    );
    assert_sound(&rooms, entry, exit, &segments);
    let third = vec![rooms[2]];
    for s in &segments {
        for t in tiles(s) {
            assert!(!any_room_contains(&third, t));
        }
    }
}

#[test]
fn the_way_round_is_the_shorter_one() {
    let rooms = three_in_a_row();
    // From row 14 to row 14 the way below the third room is shorter.
    let segments = route_segments(&rooms, at(15, 14), at(59, 14)).unwrap();
    assert_eq!(
        segments,
        vec![
            seg(15, 14, 13, Direction::Right),
            seg(28, 14, 5, Direction::Down),
            seg(28, 19, 31, Direction::Right),
            seg(59, 19, 5, Direction::Up),
        ]
    );
    assert_sound(&rooms, at(15, 14), at(59, 14), &segments);
}

#[test]
fn a_run_towards_lower_coordinates_stops_two_tiles_after_the_room() {
    let rooms = three_in_a_row();
    let entry = at(59, 12);
    let exit = at(15, 12);
    let segments = route_segments(&rooms, entry, exit).unwrap();
    // The third room's last column is 37.
    assert_eq!(
        segments,
        vec![
            seg(59, 12, 20, Direction::Left),
            seg(39, 12, 6, Direction::Up),
            seg(39, 6, 24, Direction::Left),
            seg(15, 6, 6, Direction::Down),
        ]
    );
    assert_sound(&rooms, entry, exit, &segments);
}

#[test]
fn an_exit_behind_its_own_room_is_reached() {
    // The exit lies below the second room, the entry above it.
    let rooms = vec![room(10, 10, 5, 5, 0), room(10, 40, 5, 5, 1)];
    let entry = at(12, 15);
    let exit = at(12, 45);
    let segments = route_segments(&rooms, entry, exit).unwrap();
    assert_eq!(
        segments,
        vec![
            seg(12, 15, 23, Direction::Down),
            seg(12, 38, 4, Direction::Left),
            seg(8, 38, 7, Direction::Down),
            seg(8, 45, 4, Direction::Right),
        ]
    );
    assert_sound(&rooms, entry, exit, &segments);
}

#[test]
fn a_run_that_starts_beside_a_room_does_not_step_back() {
    // The entry lies left of its room and the exit to the right of it.
    let rooms = vec![room(10, 10, 5, 5, 0)];
    let entry = at(9, 12);
    let exit = at(30, 12);
    let segments = route_segments(&rooms, entry, exit).unwrap();
    assert_eq!(
        segments,
        vec![
            seg(9, 12, 4, Direction::Up),
            seg(9, 8, 21, Direction::Right),
            seg(30, 8, 4, Direction::Down),
        ]
    );
    assert_sound(&rooms, entry, exit, &segments);
}

#[test]
fn an_endpoint_inside_a_room_is_an_error() {
    let rooms = three_in_a_row();
    assert_eq!(
        route_segments(&rooms, at(12, 12), at(59, 12)),
        Err(RouteError::EndpointInsideRoom)
    );
    assert_eq!(
        route_segments(&rooms, at(15, 12), at(64, 14)),
        Err(RouteError::EndpointInsideRoom)
    );
    assert_eq!(
        route_segments(&rooms, at(31, 9), at(31, 9)),
        Err(RouteError::EndpointInsideRoom)
    );
}

#[test]
fn a_wall_across_the_grid_exhausts_the_step_budget() {
    // One room as wide as the grid: no side leads round it.
    let rooms = vec![room(0, 10, u32::MAX, 1, 0)];
    assert_eq!(
        route_segments(&rooms, at(5, 0), at(5, 20)),
        Err(RouteError::StepBudgetExhausted)
    );
}

#[test]
fn the_nearest_room_on_a_run_is_found() {
    let rooms = three_in_a_row();
    // Along row 12 from column 15 to column 59: the third room begins at column 30.
    assert_eq!(find_nearest_hit(&rooms, Axis::Horizontal, 12, 15, 59), Some((2, 15)));
    // Back again: its last column is 37.
    assert_eq!(find_nearest_hit(&rooms, Axis::Horizontal, 12, 59, 15), Some((2, 22)));
    // Far enough, the first room is met too, but later.
    assert_eq!(find_nearest_hit(&rooms, Axis::Horizontal, 12, 59, 0), Some((2, 22)));
    assert_eq!(find_nearest_hit(&rooms, Axis::Horizontal, 12, 29, 0), Some((0, 15)));
    // A run that ends before the room, or passes in another row, meets nothing.
    assert_eq!(find_nearest_hit(&rooms, Axis::Horizontal, 12, 15, 29), None);
    assert_eq!(find_nearest_hit(&rooms, Axis::Horizontal, 12, 15, 30), Some((2, 15)));
    assert_eq!(find_nearest_hit(&rooms, Axis::Horizontal, 7, 15, 59), None);
    assert_eq!(find_nearest_hit(&rooms, Axis::Horizontal, 18, 15, 59), None);
    assert_eq!(find_nearest_hit(&rooms, Axis::Horizontal, 17, 15, 59), Some((2, 15)));
    // Down column 32 from row 0: the third room begins at row 8.
    assert_eq!(find_nearest_hit(&rooms, Axis::Vertical, 32, 0, 50), Some((2, 8)));
    assert_eq!(find_nearest_hit(&rooms, Axis::Vertical, 32, 50, 0), Some((2, 33)));
    // A run that does not move meets nothing.
    assert_eq!(find_nearest_hit(&rooms, Axis::Horizontal, 12, 29, 29), None);
    assert_eq!(find_nearest_hit(&Vec::new(), Axis::Horizontal, 12, 0, 100), None);
}

#[test]
fn of_rooms_met_at_the_same_step_the_first_in_the_list_counts() {
    let rooms = vec![room(30, 20, 5, 5, 0), room(30, 10, 5, 5, 1), room(30, 8, 9, 6, 2)];
    assert_eq!(find_nearest_hit(&rooms, Axis::Horizontal, 12, 15, 59), Some((1, 15)));
    assert_eq!(find_nearest_hit(&rooms, Axis::Horizontal, 12, 59, 15), Some((2, 21)));
}

#[test]
fn a_run_that_starts_inside_a_room_meets_it_at_once() {
    let rooms = vec![room(10, 10, 5, 5, 0)];
    assert_eq!(find_nearest_hit(&rooms, Axis::Horizontal, 12, 11, 40), Some((0, 1)));
    assert_eq!(find_nearest_hit(&rooms, Axis::Horizontal, 12, 13, 0), Some((0, 1)));
    // From the last column outwards the way is free.
    assert_eq!(find_nearest_hit(&rooms, Axis::Horizontal, 12, 14, 40), None);
    assert_eq!(find_nearest_hit(&rooms, Axis::Horizontal, 12, 10, 0), None);
}

#[test]
fn the_detour_leads_past_the_room_on_the_shorter_side() {
    let r = Rect { origin: at(30, 8), extent: Vec2 { x: 8, y: 10 } };
    // Rows 8 to 17 are taken: row 6 lies two before them, row 19 two after.
    assert_eq!(detour_target(&r, Axis::Vertical, 12, 12), 6);
    assert_eq!(detour_target(&r, Axis::Vertical, 12, 13), 6);
    assert_eq!(detour_target(&r, Axis::Vertical, 12, 14), 19);
    assert_eq!(detour_target(&r, Axis::Vertical, 17, 8), 6);
    assert_eq!(detour_target(&r, Axis::Vertical, 17, 9), 19);
    // A goal that lies clear of the room is kept.
    assert_eq!(detour_target(&r, Axis::Vertical, 12, 6), 6);
    assert_eq!(detour_target(&r, Axis::Vertical, 12, 0), 0);
    assert_eq!(detour_target(&r, Axis::Vertical, 12, 19), 19);
    assert_eq!(detour_target(&r, Axis::Vertical, 12, 500), 500);
    assert_eq!(detour_target(&r, Axis::Vertical, 12, 7), 6);
    assert_eq!(detour_target(&r, Axis::Vertical, 17, 18), 19);
    // Columns 30 to 37 are taken.
    assert_eq!(detour_target(&r, Axis::Horizontal, 30, 30), 28);
    assert_eq!(detour_target(&r, Axis::Horizontal, 37, 37), 39);
}

#[test]
fn a_detour_keeps_to_the_grid() {
    let top = Rect { origin: at(30, 1), extent: Vec2 { x: 8, y: 10 } };
    assert_eq!(detour_target(&top, Axis::Vertical, 3, 3), 12);
    let bottom = Rect { origin: at(30, u32::MAX - 10), extent: Vec2 { x: 8, y: 10 } };
    assert_eq!(detour_target(&bottom, Axis::Vertical, u32::MAX - 2, u32::MAX - 2), u32::MAX - 12);
    let wall = Rect { origin: at(0, 10), extent: Vec2 { x: u32::MAX, y: 1 } };
    assert_eq!(detour_target(&wall, Axis::Horizontal, 5, 5), 5);
}

#[test]
fn a_step_runs_turns_and_remembers_the_room_that_stopped_it() {
    let rooms = three_in_a_row();
    let goal = at(59, 12);
    let start = Cursor { at: at(15, 12), axis: Axis::Horizontal, around: None };
    let first = step(&rooms, start, goal);
    assert_eq!(first, Cursor { at: at(28, 12), axis: Axis::Vertical, around: Some(2) });
    let second = step(&rooms, first, goal);
    assert_eq!(second, Cursor { at: at(28, 6), axis: Axis::Horizontal, around: None });
    let third = step(&rooms, second, goal);
    assert_eq!(third, Cursor { at: at(59, 6), axis: Axis::Vertical, around: None });
    let fourth = step(&rooms, third, goal);
    assert_eq!(fourth, Cursor { at: goal, axis: Axis::Horizontal, around: None });
    // A room number that is not in the list is passed over.
    let lost = Cursor { at: at(15, 30), axis: Axis::Horizontal, around: Some(17) };
    assert_eq!(
        step(&rooms, lost, at(59, 30)),
        Cursor { at: at(59, 30), axis: Axis::Vertical, around: None }
    );
}

#[test]
fn a_room_behind_the_entrys_own_is_passed_on_the_way_round() {
    // The entry's own room is met first, so the run never comes near the
    // room in the middle: the way round the first room leads past both.
    let rooms = vec![room(10, 10, 5, 5, 0), room(30, 10, 5, 5, 1), room(61, 10, 5, 5, 2)];
    let entry = at(9, 12);
    let exit = at(60, 12);
    let segments = route_segments(&rooms, entry, exit).unwrap();
    assert_eq!(
        segments,
        vec![
            seg(9, 12, 4, Direction::Up),
            seg(9, 8, 51, Direction::Right),
            seg(60, 8, 4, Direction::Down),
        ]
    );
    assert_sound(&rooms, entry, exit, &segments);
}
