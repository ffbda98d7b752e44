use dungeon_gen::geometry::{rectangles_overlap, Rect, Vec2};
use dungeon_gen::room::{
    any_room_contains, collides_with_any, fits_floor, place_rooms, try_accept, validate_placement,
    ConfigError, Room, MAX_PLACEMENT_TRIES, PADDING,
};

fn rect(x: u32, y: u32, w: u32, h: u32) -> Rect {
    Rect { origin: Vec2 { x, y }, extent: Vec2 { x: w, y: h } }
}

fn room(x: u32, y: u32, w: u32, h: u32, index: usize) -> Room {
    Room { origin: Vec2 { x, y }, extent: Vec2 { x: w, y: h }, index }
}

fn assert_well_placed(rooms: &[Room], dimensions: Vec2) {
    for (i, r) in rooms.iter().enumerate() {
        assert_eq!(r.index, i);
        assert!(r.extent.x >= 1 && r.extent.y >= 1);
        assert!(r.origin.x >= PADDING && r.origin.y >= PADDING);
        assert!(r.origin.x + r.extent.x <= dimensions.x - PADDING);
        assert!(r.origin.y + r.extent.y <= dimensions.y - PADDING);
        assert!(r.origin.x + r.extent.x < dimensions.x);
        assert!(r.origin.y + r.extent.y < dimensions.y);
        for other in &rooms[i + 1..] {
            assert!(!rectangles_overlap(&r.bounds(), &other.bounds(), PADDING));
            assert!(!rectangles_overlap(&other.bounds(), &r.bounds(), PADDING));
        }
    }
}

#[test]
fn placement_constants_have_their_documented_values() {
    assert_eq!(PADDING, 5);
    assert_eq!(MAX_PLACEMENT_TRIES, 1000);
}

#[test]
fn one_room_of_six_by_six_on_a_floor_of_hundred() {
    let dimensions = Vec2 { x: 100, y: 100 };
    for seed in 0..50 {
        let mut rng = fastrand::Rng::with_seed(seed);
        let placement = place_rooms(&mut rng, dimensions, 1..2, 6..7).unwrap();
        assert_eq!(placement.requested, 1);
        assert_eq!(placement.rooms.len(), 1);
        let r = placement.rooms[0];
        assert_eq!(r.index, 0);
        assert_eq!(r.extent, Vec2 { x: 6, y: 6 });
        assert!(r.origin.x >= 5 && r.origin.x + r.extent.x <= 95);
        assert!(r.origin.y >= 5 && r.origin.y + r.extent.y <= 95);
    }
}

#[test]
fn placed_rooms_keep_their_padding() {
    let dimensions = Vec2 { x: 120, y: 90 };
    for seed in 0..40 {
        let mut rng = fastrand::Rng::with_seed(seed);
        let placement = place_rooms(&mut rng, dimensions, 3..12, 4..11).unwrap();
        assert!(placement.requested >= 3 && placement.requested < 12);
        assert!(placement.rooms.len() >= 1);
        assert!(placement.rooms.len() <= placement.requested as usize);
        assert_well_placed(&placement.rooms, dimensions);
        for r in &placement.rooms {
            assert!(r.extent.x >= 4 && r.extent.x < 11);
            assert!(r.extent.y >= 4 && r.extent.y < 11);
        }
    }
}

#[test]
fn rooms_that_find_no_spot_are_dropped() {
    // The padded interior holds one room of this size and no second one.
    let dimensions = Vec2 { x: 30, y: 30 };
    let mut rng = fastrand::Rng::with_seed(7);
    let placement = place_rooms(&mut rng, dimensions, 4..5, 10..11).unwrap();
    assert_eq!(placement.requested, 4);
    assert_eq!(placement.rooms.len(), 1);
    assert_eq!(placement.rooms[0].index, 0);
    assert_well_placed(&placement.rooms, dimensions);
}

#[test]
fn a_count_of_zero_places_nothing() {
    let mut rng = fastrand::Rng::with_seed(1);
    let placement = place_rooms(&mut rng, Vec2 { x: 50, y: 50 }, 0..1, 3..4).unwrap();
    assert_eq!(placement.requested, 0);
    assert!(placement.rooms.is_empty());
}

#[test]
fn draws_cover_their_range() {
    // Origins are drawn from 5..84 and sizes from 3..9: over many seeds the
    // rooms must differ in both, and never reach the excluded upper bound.
    let dimensions = Vec2 { x: 100, y: 100 };
    let mut origins = Vec::new();
    let mut widths = Vec::new();
    let mut counts = Vec::new();
    for seed in 0..60 {
        let mut rng = fastrand::Rng::with_seed(seed);
        let placement = place_rooms(&mut rng, dimensions, 1..4, 3..9).unwrap();
        counts.push(placement.requested);
        for r in &placement.rooms {
            origins.push(r.origin.x);
            widths.push(r.extent.x);
        }
    }
    assert!(origins.iter().any(|&x| x != PADDING));
    assert!(origins.iter().any(|&x| x != origins[0]));
    assert!(widths.iter().any(|&w| w != 3));
    assert!(widths.iter().all(|&w| w >= 3 && w < 9));
    assert!(counts.iter().any(|&c| c != 1));
    assert!(counts.iter().all(|&c| c >= 1 && c < 4));
}

#[test]
fn the_same_seed_places_the_same_rooms() {
    let dimensions = Vec2 { x: 80, y: 80 };
    let mut a = fastrand::Rng::with_seed(99);
    let mut b = fastrand::Rng::with_seed(99);
    let first = place_rooms(&mut a, dimensions, 2..6, 3..8).unwrap();
    let second = place_rooms(&mut b, dimensions, 2..6, 3..8).unwrap();
    assert_eq!(first.requested, second.requested);
    assert_eq!(first.rooms, second.rooms);
}

#[test]
fn a_size_range_that_cannot_fit_is_rejected() {
    let mut rng = fastrand::Rng::with_seed(3);
    // The largest room has 10 tiles a side, and 10 + 2 * 5 is not below 20.
    for _ in 0..5 {
        let r = place_rooms(&mut rng, Vec2 { x: 20, y: 100 }, 1..2, 6..11);
        assert_eq!(r.unwrap_err(), ConfigError::RoomTooLarge);
        let r = place_rooms(&mut rng, Vec2 { x: 100, y: 20 }, 1..2, 6..11);
        assert_eq!(r.unwrap_err(), ConfigError::RoomTooLarge);
    }
    // One tile less fits.
    assert!(place_rooms(&mut rng, Vec2 { x: 20, y: 20 }, 1..2, 6..10).is_ok());
    // Floors smaller than the padding alone, and the largest of sizes.
    assert_eq!(
        place_rooms(&mut rng, Vec2 { x: 0, y: 0 }, 1..2, 1..2).unwrap_err(),
        ConfigError::RoomTooLarge
    );
    assert_eq!(
        place_rooms(&mut rng, Vec2 { x: u32::MAX, y: u32::MAX }, 1..2, 1..u32::MAX).unwrap_err(),
        ConfigError::RoomTooLarge
    );
}

#[test]
fn faulty_ranges_are_rejected_in_order() {
    let dimensions = Vec2 { x: 100, y: 100 };
    assert_eq!(
        validate_placement(dimensions, &(3..3), &(0..0)),
        Err(ConfigError::EmptyCountRange)
    );
    assert_eq!(
        validate_placement(dimensions, &(5..2), &(4..8)),
        Err(ConfigError::EmptyCountRange)
    );
    assert_eq!(
        validate_placement(dimensions, &(1..3), &(8..8)),
        Err(ConfigError::EmptySizeRange)
    );
    assert_eq!(
        validate_placement(dimensions, &(1..3), &(9..4)),
        Err(ConfigError::EmptySizeRange)
    );
    assert_eq!(validate_placement(dimensions, &(1..3), &(0..4)), Err(ConfigError::ZeroRoomSize));
    assert_eq!(
        validate_placement(dimensions, &(1..3), &(0..400)),
        Err(ConfigError::ZeroRoomSize)
    );
    assert_eq!(
        validate_placement(dimensions, &(1..3), &(1..92)),
        Err(ConfigError::RoomTooLarge)
    );
    assert_eq!(
        validate_placement(dimensions, &(1..3), &(1..91)),
        Err(ConfigError::RoomTooLarge)
    );
    assert_eq!(validate_placement(dimensions, &(1..3), &(1..90)), Ok(()));
    assert_eq!(validate_placement(dimensions, &(0..1), &(1..2)), Ok(()));
}

#[test]
fn place_rooms_reports_each_fault() {
    let dimensions = Vec2 { x: 100, y: 100 };
    let mut rng = fastrand::Rng::with_seed(0);
    assert_eq!(
        place_rooms(&mut rng, dimensions, 2..2, 4..8).unwrap_err(),
        ConfigError::EmptyCountRange
    );
    assert_eq!(
        place_rooms(&mut rng, dimensions, 2..3, 4..4).unwrap_err(),
        ConfigError::EmptySizeRange
    );
    assert_eq!(
        place_rooms(&mut rng, dimensions, 2..3, 0..4).unwrap_err(),
        ConfigError::ZeroRoomSize
    );
    assert_eq!(
        place_rooms(&mut rng, dimensions, 2..3, 4..200).unwrap_err(),
        ConfigError::RoomTooLarge
    );
}

#[test]
fn fits_floor_asks_for_padding_on_every_side() {
    let dimensions = Vec2 { x: 40, y: 30 };
    assert!(fits_floor(&rect(5, 5, 29, 19), dimensions));
    assert!(!fits_floor(&rect(4, 5, 10, 10), dimensions));
    assert!(!fits_floor(&rect(5, 4, 10, 10), dimensions));
    assert!(!fits_floor(&rect(5, 5, 30, 19), dimensions));
    assert!(!fits_floor(&rect(5, 5, 29, 20), dimensions));
    assert!(!fits_floor(&rect(5, 5, 0, 10), dimensions));
    assert!(!fits_floor(&rect(5, 5, 10, 0), dimensions));
    assert!(!fits_floor(&rect(u32::MAX, u32::MAX, u32::MAX, u32::MAX), dimensions));
}

#[test]
fn collisions_are_tested_against_every_room() {
    let rooms = vec![room(10, 10, 5, 5, 0), room(40, 10, 5, 5, 1), room(10, 40, 5, 5, 2)];
    assert!(!collides_with_any(&rooms, &rect(25, 25, 5, 5)));
    assert!(collides_with_any(&rooms, &rect(24, 10, 5, 5)));
    assert!(collides_with_any(&rooms, &rect(40, 24, 5, 5)));
    assert!(collides_with_any(&rooms, &rect(10, 26, 5, 5)));
    assert!(!collides_with_any(&Vec::new(), &rect(10, 10, 5, 5)));
}

#[test]
fn try_accept_appends_with_the_next_index() {
    let dimensions = Vec2 { x: 100, y: 100 };
    let mut rooms = Vec::new();
    assert!(try_accept(&mut rooms, dimensions, rect(10, 10, 5, 5)));
    assert!(try_accept(&mut rooms, dimensions, rect(25, 10, 5, 5)));
    assert_eq!(rooms, vec![room(10, 10, 5, 5, 0), room(25, 10, 5, 5, 1)]);
    // Too close to the first room.
    assert!(!try_accept(&mut rooms, dimensions, rect(10, 24, 5, 5)));
    // Outside the padded interior.
    assert!(!try_accept(&mut rooms, dimensions, rect(4, 60, 5, 5)));
    assert!(!try_accept(&mut rooms, dimensions, rect(60, 60, 5, 36)));
    assert_eq!(rooms.len(), 2);
    assert!(try_accept(&mut rooms, dimensions, rect(10, 25, 5, 5)));
    assert_eq!(rooms[2], room(10, 25, 5, 5, 2));
    assert_well_placed(&rooms, dimensions);
}

#[test]
fn any_room_contains_uses_the_unpadded_box() {
    let rooms = vec![room(10, 10, 5, 5, 0), room(40, 10, 3, 2, 1)];
    assert!(any_room_contains(&rooms, Vec2 { x: 10, y: 10 }));
    assert!(any_room_contains(&rooms, Vec2 { x: 14, y: 14 }));
    assert!(any_room_contains(&rooms, Vec2 { x: 42, y: 11 }));
    assert!(!any_room_contains(&rooms, Vec2 { x: 15, y: 12 }));
    assert!(!any_room_contains(&rooms, Vec2 { x: 9, y: 12 }));
    assert!(!any_room_contains(&rooms, Vec2 { x: 42, y: 12 }));
    assert!(!any_room_contains(&rooms, Vec2 { x: 25, y: 25 }));
    assert!(!any_room_contains(&Vec::new(), Vec2 { x: 25, y: 25 }));
}
