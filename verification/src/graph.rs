//! The connection graph over the rooms of a floor.
//!
//! Rooms are named by their position in the room list. A base chain joins
//! every room to the next one, which alone makes the graph connected; each
//! room but the last may carry extra connections to rooms chosen at random.

use crate::random::{draw_u32, draw_usize};
use crate::room::{ConfigError, Room};
use std::ops::Range;
use vstd::prelude::*;

verus! {

/// A link between two rooms, to be realised as a hallway. The pair is
/// unordered; both ends may name the same room.
#[derive(Clone, Copy, Debug, PartialEq, Eq, Structural)]
pub struct Connection {
    pub from_index: usize,
    pub to_index: usize,
}

/// The number of rooms that have a successor in a list of `n` rooms.
pub open spec fn chain_len(n: nat) -> nat {
    if n == 0 {
        0
    } else {
        (n - 1) as nat
    }
}

/// The base chain over `n` rooms: room `i` joined to room `i + 1`.
pub open spec fn base_chain(n: nat) -> Seq<Connection> {
    Seq::new(
        chain_len(n),
        |i: int| Connection { from_index: i as usize, to_index: (i + 1) as usize },
    )
}

/// The connections that leave room `i`: its chain link first, then one extra
/// connection to each of `targets`, in order.
pub open spec fn edges_from(i: int, targets: Seq<usize>) -> Seq<Connection> {
    seq![Connection { from_index: i as usize, to_index: (i + 1) as usize }] + Seq::new(
        targets.len(),
        |j: int| Connection { from_index: i as usize, to_index: targets[j] },
    )
}

/// The whole connection list, given for each room that has a successor the
/// targets of its extra connections: the connections of room 0, then those of
/// room 1, and so on.
pub open spec fn layout(extras: Seq<Seq<usize>>) -> Seq<Connection>
    decreases extras.len(),
{
    if extras.len() == 0 {
        Seq::empty()
    } else {
        layout(extras.drop_last()) + edges_from(extras.len() - 1, extras.last())
    }
}

/// Whether `extras` is a possible outcome of drawing extra connections for
/// `n` rooms: one list for each room with a successor, its length within
/// `range`, every target a room.
pub open spec fn extras_fit(extras: Seq<Seq<usize>>, n: nat, range: Range<u32>) -> bool {
    &&& extras.len() == chain_len(n)
    &&& forall|i: int|
        0 <= i < extras.len() ==> range.start <= (#[trigger] extras[i]).len() < range.end
    &&& forall|i: int, j: int|
        0 <= i < extras.len() && 0 <= j < extras[i].len() ==> (#[trigger] extras[i][j]) < n
}

/// Whether both ends of every connection name one of `n` rooms.
pub open spec fn endpoints_valid(edges: Seq<Connection>, n: nat) -> bool {
    forall|k: int|
        0 <= k < edges.len() ==> (#[trigger] edges[k]).from_index < n && edges[k].to_index < n
}

/// Whether `c` joins rooms `a` and `b`, in either direction.
pub open spec fn links(c: Connection, a: int, b: int) -> bool {
    (c.from_index == a && c.to_index == b) || (c.from_index == b && c.to_index == a)
}

/// Whether some connection of `edges` joins rooms `a` and `b`.
pub open spec fn adjacent(edges: Seq<Connection>, a: int, b: int) -> bool {
    exists|k: int| 0 <= k < edges.len() && links(#[trigger] edges[k], a, b)
}

/// Whether the rooms at positions `s` and `s + 1` of `walk` are adjacent.
pub open spec fn hop(edges: Seq<Connection>, walk: Seq<int>, s: int) -> bool {
    adjacent(edges, walk[s], walk[s + 1])
}

/// Whether `walk` is a non-empty list of rooms in which each is adjacent to
/// the next.
pub open spec fn is_walk(edges: Seq<Connection>, walk: Seq<int>) -> bool {
    &&& walk.len() >= 1
    &&& forall|s: int| 0 <= s < walk.len() - 1 ==> #[trigger] hop(edges, walk, s)
}

/// Whether a walk along `edges` leads from room `a` to room `b`.
pub open spec fn reachable(edges: Seq<Connection>, a: int, b: int) -> bool {
    exists|walk: Seq<int>| #[trigger] is_walk(edges, walk) && walk.first() == a && walk.last() == b
}

/// Whether every one of `n` rooms can be reached from every other along `edges`.
pub open spec fn connected(n: nat, edges: Seq<Connection>) -> bool {
    forall|a: int, b: int| 0 <= a < n && 0 <= b < n ==> #[trigger] reachable(edges, a, b)
}

/// Whether every connection of `part` also occurs in `whole`.
pub open spec fn included(part: Seq<Connection>, whole: Seq<Connection>) -> bool {
    forall|k: int| 0 <= k < part.len() ==> whole.contains(#[trigger] part[k])
}

/// The base chain alone joins all `n` rooms into one component.
pub proof fn lemma_base_chain_connects(n: nat)
    requires
        n <= usize::MAX,
    ensures
        connected(n, base_chain(n)),
{
    let edges = base_chain(n);
    assert forall|a: int, b: int| 0 <= a < n && 0 <= b < n implies #[trigger] reachable(
        edges,
        a,
        b,
    ) by {
        if a <= b {
            let walk = Seq::new((b - a + 1) as nat, |s: int| a + s);
            assert forall|s: int| 0 <= s < walk.len() - 1 implies #[trigger] hop(edges, walk, s) by {
                assert(links(edges[a + s], a + s, a + s + 1));
            }
            assert(is_walk(edges, walk));
        } else {
            let walk = Seq::new((a - b + 1) as nat, |s: int| a - s);
            assert forall|s: int| 0 <= s < walk.len() - 1 implies #[trigger] hop(edges, walk, s) by {
                assert(links(edges[a - s - 1], a - s, a - s - 1));
            }
            assert(is_walk(edges, walk));
        }
    }
}

/// Adding connections never disconnects: rooms joined by `part` stay joined
/// by any list that includes `part`.
pub proof fn lemma_connected_by_superset(n: nat, part: Seq<Connection>, whole: Seq<Connection>)
    requires
        connected(n, part),
        included(part, whole),
    ensures
        connected(n, whole),
{
    assert forall|a: int, b: int| 0 <= a < n && 0 <= b < n implies #[trigger] reachable(
        whole,
        a,
        b,
    ) by {
        assert(reachable(part, a, b));
        let walk = choose|walk: Seq<int>| #[trigger]
            is_walk(part, walk) && walk.first() == a && walk.last() == b;
        assert forall|s: int| 0 <= s < walk.len() - 1 implies #[trigger] hop(whole, walk, s) by {
            assert(hop(part, walk, s));
            let k = choose|k: int| 0 <= k < part.len() && links(#[trigger] part[k], walk[s], walk[s + 1]);
            assert(whole.contains(part[k]));
            let k2 = choose|k2: int| 0 <= k2 < whole.len() && whole[k2] == part[k];
            assert(links(whole[k2], walk[s], walk[s + 1]));
        }
        assert(is_walk(whole, walk));
    }
}

/// Every link of the base chain occurs in the layout, whatever the extras.
pub proof fn lemma_layout_includes_chain(extras: Seq<Seq<usize>>)
    ensures
        included(base_chain(extras.len() + 1), layout(extras)),
    decreases extras.len(),
{
    let chain = base_chain(extras.len() + 1);
    let whole = layout(extras);
    if extras.len() > 0 {
        let shorter = extras.drop_last();
        lemma_layout_includes_chain(shorter);
        let own = edges_from(extras.len() - 1, extras.last());
        assert forall|k: int| 0 <= k < chain.len() implies whole.contains(#[trigger] chain[k]) by {
            if k < chain.len() - 1 {
                assert(base_chain(shorter.len() + 1)[k] == chain[k]);
                assert(layout(shorter).contains(chain[k]));
                let at = choose|at: int| 0 <= at < layout(shorter).len() && layout(shorter)[at] == chain[k];
                assert(whole[at] == chain[k]);
            } else {
                assert(own[0] == chain[k]);
                assert(whole[layout(shorter).len() as int] == chain[k]);
            }
        }
    }
}

/// Where no room draws an extra connection, the layout is the base chain.
pub proof fn lemma_layout_without_extras(extras: Seq<Seq<usize>>)
    requires
        forall|i: int| 0 <= i < extras.len() ==> (#[trigger] extras[i]).len() == 0,
    ensures
        layout(extras) == base_chain(extras.len() + 1),
    decreases extras.len(),
{
    if extras.len() > 0 {
        let shorter = extras.drop_last();
        assert forall|i: int| 0 <= i < shorter.len() implies (#[trigger] shorter[i]).len() == 0 by {
            assert(shorter[i] == extras[i]);
        }
        lemma_layout_without_extras(shorter);
        assert(edges_from(extras.len() - 1, extras.last()).len() == 1);
        assert(layout(extras) =~= base_chain(extras.len() + 1));
    } else {
        assert(layout(extras) =~= base_chain(extras.len() + 1));
    }
}

/// Every connection of a layout joins two of `n` rooms, if `n` exceeds the
/// number of rooms with a successor and every extra target is one of them.
pub proof fn lemma_layout_endpoints(extras: Seq<Seq<usize>>, n: nat)
    requires
        extras.len() < n,
        n <= usize::MAX,
        forall|i: int, j: int|
            0 <= i < extras.len() && 0 <= j < extras[i].len() ==> (#[trigger] extras[i][j]) < n,
    ensures
        endpoints_valid(layout(extras), n),
    decreases extras.len(),
{
    if extras.len() > 0 {
        let shorter = extras.drop_last();
        assert forall|i: int, j: int|
            0 <= i < shorter.len() && 0 <= j < shorter[i].len() implies (#[trigger] shorter[i][j])
            < n by {
            assert(shorter[i] == extras[i]);
            assert(extras[i][j] < n);
        }
        lemma_layout_endpoints(shorter, n);
        let own = edges_from(extras.len() - 1, extras.last());
        let whole = layout(extras);
        assert forall|k: int| 0 <= k < whole.len() implies (#[trigger] whole[k]).from_index < n
            && whole[k].to_index < n by {
            if k < layout(shorter).len() {
                assert(whole[k] == layout(shorter)[k]);
            } else {
                let j = k - layout(shorter).len();
                assert(whole[k] == own[j]);
                if j > 0 {
                    assert(own[j].to_index == extras[extras.len() - 1][j - 1]);
                }
            }
        }
    }
}

/// The target lists of `targets` as sequences.
pub open spec fn target_lists(targets: Seq<Vec<usize>>) -> Seq<Seq<usize>> {
    Seq::new(targets.len(), |i: int| targets[i]@)
}

/// Lays out the connection list from the extra targets drawn for each room
/// that has a successor: `targets[i]` holds the rooms to which room `i` gets
/// an extra connection. There are `targets.len() + 1` rooms.
pub fn connections_from_targets(targets: &Vec<Vec<usize>>) -> (edges: Vec<Connection>)
    ensures
        edges@ == layout(target_lists(targets@)),
{
    let ghost lists = target_lists(targets@);
    let mut edges: Vec<Connection> = Vec::new();
    let mut i: usize = 0;
    while i < targets.len()
        invariant
            i <= targets.len(),
            lists == target_lists(targets@),
            edges@ == layout(lists.take(i as int)),
        decreases targets.len() - i,
    {
        let ghost done = edges@;
        edges.push(Connection { from_index: i, to_index: i + 1 });
        let row = &targets[i];
        let mut j: usize = 0;
        assert(edges@ =~= done + edges_from(i as int, row@.take(0)));
        while j < row.len()
            invariant
                j <= row.len(),
                edges@ == done + edges_from(i as int, row@.take(j as int)),
            decreases row.len() - j,
        {
            edges.push(Connection { from_index: i, to_index: row[j] });
            assert(edges@ =~= done + edges_from(i as int, row@.take(j + 1)));
            j += 1;
        }
        proof {
            assert(row@.take(row.len() as int) =~= row@);
            let upto = lists.take(i + 1);
            assert(upto.drop_last() =~= lists.take(i as int));
            assert(upto.last() == row@);
        }
        i += 1;
    }
    assert(lists.take(targets.len() as int) =~= lists);
    edges
}

/// Draws, for each of the `room_count` rooms that has a successor, a number
/// of extra connections within `range` and that many target rooms.
fn draw_extra_targets(rng: &mut fastrand::Rng, room_count: usize, range: &Range<u32>) -> (targets:
    Vec<Vec<usize>>)
    requires
        range.start < range.end,
    ensures
        extras_fit(target_lists(targets@), room_count as nat, *range),
{
    let mut targets: Vec<Vec<usize>> = Vec::new();
    if room_count == 0 {
        return targets;
    }
    let mut i: usize = 0;
    while i < room_count - 1
        invariant
            room_count >= 1,
            i <= room_count - 1,
            range.start < range.end,
            targets@.len() == i,
            forall|a: int|
                0 <= a < i ==> range.start <= (#[trigger] targets@[a])@.len() < range.end,
            forall|a: int, b: int|
                0 <= a < i && 0 <= b < targets@[a]@.len() ==> (#[trigger] targets@[a]@[b])
                    < room_count,
        decreases room_count - 1 - i,
    {
        let count = draw_u32(rng, range.start, range.end);
        let mut row: Vec<usize> = Vec::new();
        let mut drawn: u32 = 0;
        while drawn < count
            invariant
                drawn <= count,
                room_count >= 1,
                row@.len() == drawn,
                forall|b: int| 0 <= b < row@.len() ==> (#[trigger] row@[b]) < room_count,
            decreases count - drawn,
        {
            let target = draw_usize(rng, 0, room_count);
            row.push(target);
            drawn += 1;
        }
        targets.push(row);
        i += 1;
    }
    proof {
        let lists = target_lists(targets@);
        assert forall|a: int| 0 <= a < lists.len() implies range.start <= (#[trigger] lists[a]).len()
            < range.end by {
            assert(lists[a] == targets@[a]@);
        }
        assert forall|a: int, b: int| 0 <= a < lists.len() && 0 <= b < lists[a].len() implies (
        #[trigger] lists[a][b]) < room_count by {
            assert(lists[a][b] == targets@[a]@[b]);
        }
    }
    targets
}

/// Builds the connection list over `rooms`, which are named by position.
///
/// Every room is joined to its successor, and every room but the last draws
/// a number of extra connections from `extra_edge_count_range` (half-open),
/// each to a room drawn from the whole list. Self-loops and duplicates are
/// kept. The connections of room 0 come first, its chain link ahead of its
/// extras, then those of room 1, and so on.
///
/// Whatever the generator yields, the result is the layout of some drawing
/// that fits, every end names a room, and the rooms form one component.
pub fn build_connections(
    rng: &mut fastrand::Rng,
    rooms: &Vec<Room>,
    extra_edge_count_range: Range<u32>,
) -> (r: Result<Vec<Connection>, ConfigError>)
    ensures
        match r {
            Err(e) => e == ConfigError::EmptyExtraEdgeRange && extra_edge_count_range.start
                >= extra_edge_count_range.end,
            Ok(edges) => {
                &&& extra_edge_count_range.start < extra_edge_count_range.end
                &&& exists|extras: Seq<Seq<usize>>|
                    extras_fit(extras, rooms@.len(), extra_edge_count_range) && edges@ == layout(
                        extras,
                    )
                &&& endpoints_valid(edges@, rooms@.len())
                &&& connected(rooms@.len(), edges@)
            },
        },
{
    if extra_edge_count_range.start >= extra_edge_count_range.end {
        return Err(ConfigError::EmptyExtraEdgeRange);
    }
    let targets = draw_extra_targets(rng, rooms.len(), &extra_edge_count_range);
    let edges = connections_from_targets(&targets);
    proof {
        let n = rooms@.len();
        let extras = target_lists(targets@);
        assert(extras_fit(extras, n, extra_edge_count_range) && edges@ == layout(extras));
        if n >= 1 {
            lemma_layout_endpoints(extras, n);
            lemma_layout_includes_chain(extras);
            lemma_base_chain_connects(n);
            lemma_connected_by_superset(n, base_chain(n), edges@);
        }
    }
    Ok(edges)
}

} // verus!
