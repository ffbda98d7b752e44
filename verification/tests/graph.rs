use dungeon_gen::geometry::Vec2;
use dungeon_gen::graph::{build_connections, connections_from_targets, Connection};
use dungeon_gen::room::{ConfigError, Room};

fn rooms(n: usize) -> Vec<Room> {
    (0..n)
        .map(|i| Room {
            origin: Vec2 { x: 10 + 20 * i as u32, y: 10 },
            extent: Vec2 { x: 5, y: 5 },
            index: i,
        })
        .collect()
}

fn edge(from_index: usize, to_index: usize) -> Connection {
    Connection { from_index, to_index }
}

fn find(parent: &mut Vec<usize>, a: usize) -> usize {
    let mut root = a;
    while parent[root] != root {
        root = parent[root];
    }
    parent[a] = root;
    root
}

fn components(n: usize, edges: &[Connection]) -> usize {
    let mut parent: Vec<usize> = (0..n).collect();
    let mut count = n;
    for e in edges {
        let a = find(&mut parent, e.from_index);
        let b = find(&mut parent, e.to_index);
        if a != b {
            parent[a] = b;
            count -= 1;
        }
    }
    count
}

#[test]
fn three_rooms_without_extras_form_a_path() {
    for seed in 0..20 {
        let mut rng = fastrand::Rng::with_seed(seed);
        let edges = build_connections(&mut rng, &rooms(3), 0..1).unwrap();
        assert_eq!(edges, vec![edge(0, 1), edge(1, 2)]);
    }
}

#[test]
fn no_room_or_one_room_has_no_connection() {
    let mut rng = fastrand::Rng::with_seed(5);
    assert_eq!(build_connections(&mut rng, &rooms(0), 0..4).unwrap(), vec![]);
    assert_eq!(build_connections(&mut rng, &rooms(1), 2..4).unwrap(), vec![]);
}

#[test]
fn an_empty_extra_range_is_rejected() {
    let mut rng = fastrand::Rng::with_seed(5);
    assert_eq!(
        build_connections(&mut rng, &rooms(4), 2..2).unwrap_err(),
        ConfigError::EmptyExtraEdgeRange
    );
    assert_eq!(
        build_connections(&mut rng, &rooms(4), 3..1).unwrap_err(),
        ConfigError::EmptyExtraEdgeRange
    );
    assert_eq!(
        build_connections(&mut rng, &rooms(0), 0..0).unwrap_err(),
        ConfigError::EmptyExtraEdgeRange
    );
}

#[test]
fn the_chain_alone_connects_the_rooms() {
    for n in 1..12 {
        let mut rng = fastrand::Rng::with_seed(n as u64);
        let edges = build_connections(&mut rng, &rooms(n), 0..1).unwrap();
        assert_eq!(edges.len(), n - 1);
        assert_eq!(components(n, &edges), 1);
    }
}

#[test]
fn extras_follow_the_chain_link_of_their_room() {
    let n = 6;
    for seed in 0..30 {
        let mut rng = fastrand::Rng::with_seed(seed);
        let edges = build_connections(&mut rng, &rooms(n), 1..4).unwrap();
        // Walk the list room by room: a chain link, then one to three extras.
        let mut at = 0;
        for i in 0..n - 1 {
            assert_eq!(edges[at], edge(i, i + 1));
            at += 1;
            let mut extras = 0;
            while at < edges.len() && edges[at].from_index == i {
                assert!(edges[at].to_index < n);
                extras += 1;
                at += 1;
            }
            assert!(extras >= 1 && extras <= 3);
        }
        assert_eq!(at, edges.len());
        assert!(edges.iter().all(|e| e.from_index < n - 1));
        assert_eq!(components(n, &edges), 1);
    }
}

#[test]
fn extra_targets_are_drawn_from_all_rooms() {
    let n = 8;
    let mut seen = vec![false; n];
    for seed in 0..40 {
        let mut rng = fastrand::Rng::with_seed(seed);
        let edges = build_connections(&mut rng, &rooms(n), 3..4).unwrap();
        assert_eq!(edges.len(), (n - 1) * 4);
        for (k, e) in edges.iter().enumerate() {
            if k % 4 != 0 {
                seen[e.to_index] = true;
            }
        }
    }
    assert!(seen.iter().all(|&s| s));
}

#[test]
fn connections_are_laid_out_room_by_room() {
    let targets = vec![vec![2, 0], vec![], vec![3, 3, 1]];
    assert_eq!(
        connections_from_targets(&targets),
        vec![
            edge(0, 1),
            edge(0, 2),
            edge(0, 0),
            edge(1, 2),
            edge(2, 3),
            edge(2, 3),
            edge(2, 3),
            edge(2, 1),
        ]
    );
    assert_eq!(connections_from_targets(&Vec::new()), vec![]);
    assert_eq!(connections_from_targets(&vec![vec![], vec![]]), vec![edge(0, 1), edge(1, 2)]);
}
