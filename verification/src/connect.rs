//! Connectivity of the room graph: rooms are nodes, corridors are undirected
//! edges. `all_rooms_connected` decides, by a frontier search that mirrors
//! how corridors attach to rooms, whether every room is reachable from every
//! other room, and is proved equivalent to the path-based specification
//! `spec_all_connected`.

use crate::corridors::{corridor_rep, reps_of, CorridorRep, MapgenCorridor};
use crate::rooms::MapgenRoom;
use vstd::prelude::*;

verus! {

/// Whether corridor `c` joins rooms `a` and `b` (in either direction).
pub open spec fn linked(c: MapgenCorridor, a: int, b: int) -> bool {
    ||| (c.from as int == a && c.to as int == b)
    ||| (c.from as int == b && c.to as int == a)
}

/// Whether some corridor joins `a` and `b`.
pub open spec fn has_edge(cs: Seq<MapgenCorridor>, a: int, b: int) -> bool {
    exists|m: int| 0 <= m < cs.len() && linked(#[trigger] cs[m], a, b)
}

/// The set of room identifiers.
pub open spec fn id_set(rooms: Seq<MapgenRoom>) -> Set<int> {
    Set::new(|x: int| exists|i: int| 0 <= i < rooms.len() && (#[trigger] rooms[i]).id as int == x)
}

/// `p` is a walk from `a` to `b` through room identifiers, each consecutive
/// pair joined by some corridor.
pub open spec fn is_path(
    cs: Seq<MapgenCorridor>,
    ids: Set<int>,
    p: Seq<int>,
    a: int,
    b: int,
) -> bool {
    &&& p.len() >= 1
    &&& p[0] == a
    &&& p[p.len() - 1] == b
    &&& forall|k: int| 0 <= k < p.len() ==> ids.contains(#[trigger] p[k])
    &&& forall|k: int| 0 <= k < p.len() - 1 ==> has_edge(cs, #[trigger] p[k], p[k + 1])
}

/// Rooms `a` and `b` are joined by some corridor walk.
pub open spec fn connected(cs: Seq<MapgenCorridor>, ids: Set<int>, a: int, b: int) -> bool {
    exists|p: Seq<int>| is_path(cs, ids, p, a, b)
}

/// Every room is reachable from every other room through corridors.
pub open spec fn spec_all_connected(rooms: Seq<MapgenRoom>, cs: Seq<MapgenCorridor>) -> bool {
    forall|i: int, j: int|
        0 <= i < rooms.len() && 0 <= j < rooms.len() ==> connected(
            cs,
            id_set(rooms),
            (#[trigger] rooms[i]).id as int,
            (#[trigger] rooms[j]).id as int,
        )
}

/// `linked`, over corridor reps.
pub open spec fn linked_rep(c: CorridorRep, a: int, b: int) -> bool {
    ||| (c.from as int == a && c.to as int == b)
    ||| (c.from as int == b && c.to as int == a)
}

/// `has_edge`, over corridor reps.
pub open spec fn has_edge_rep(reps: Seq<CorridorRep>, a: int, b: int) -> bool {
    exists|m: int| 0 <= m < reps.len() && linked_rep(#[trigger] reps[m], a, b)
}

/// `is_path`, over corridor reps.
pub open spec fn is_path_rep(
    reps: Seq<CorridorRep>,
    ids: Set<int>,
    p: Seq<int>,
    a: int,
    b: int,
) -> bool {
    &&& p.len() >= 1
    &&& p[0] == a
    &&& p[p.len() - 1] == b
    &&& forall|k: int| 0 <= k < p.len() ==> ids.contains(#[trigger] p[k])
    &&& forall|k: int| 0 <= k < p.len() - 1 ==> has_edge_rep(reps, #[trigger] p[k], p[k + 1])
}

/// `connected`, over corridor reps.
pub open spec fn connected_rep(reps: Seq<CorridorRep>, ids: Set<int>, a: int, b: int) -> bool {
    exists|p: Seq<int>| is_path_rep(reps, ids, p, a, b)
}

/// `spec_all_connected`, over corridor reps.
pub open spec fn spec_all_connected_rep(rooms: Seq<MapgenRoom>, reps: Seq<CorridorRep>) -> bool {
    forall|i: int, j: int|
        0 <= i < rooms.len() && 0 <= j < rooms.len() ==> connected_rep(
            reps,
            id_set(rooms),
            (#[trigger] rooms[i]).id as int,
            (#[trigger] rooms[j]).id as int,
        )
}

/// Connectivity reads only room identifiers off the corridors, so it is the
/// same judged on corridor values or on their reps.
pub proof fn lemma_all_connected_rep(rooms: Seq<MapgenRoom>, cs: Seq<MapgenCorridor>)
    ensures
        spec_all_connected(rooms, cs) == spec_all_connected_rep(rooms, reps_of(cs)),
{
    let reps = reps_of(cs);
    let ids = id_set(rooms);
    if spec_all_connected(rooms, cs) {
        assert forall|i: int, j: int|
            0 <= i < rooms.len() && 0 <= j < rooms.len() implies connected_rep(
            reps,
            ids,
            (#[trigger] rooms[i]).id as int,
            (#[trigger] rooms[j]).id as int,
        ) by {
            let x = rooms[i].id as int;
            let y = rooms[j].id as int;
            assert(connected(cs, ids, x, y));
            let p = choose|p: Seq<int>| is_path(cs, ids, p, x, y);
            assert forall|k: int| 0 <= k < p.len() - 1 implies has_edge_rep(
                reps,
                #[trigger] p[k],
                p[k + 1],
            ) by {
                assert(has_edge(cs, p[k], p[k + 1]));
                let m = choose|m: int| 0 <= m < cs.len() && linked(#[trigger] cs[m], p[k], p[k + 1]);
                assert(reps[m] == corridor_rep(cs[m]));
                assert(linked_rep(reps[m], p[k], p[k + 1]));
            }
            assert(is_path_rep(reps, ids, p, x, y));
        }
        assert(spec_all_connected_rep(rooms, reps));
    }
    if spec_all_connected_rep(rooms, reps) {
        assert forall|i: int, j: int|
            0 <= i < rooms.len() && 0 <= j < rooms.len() implies connected(
            cs,
            ids,
            (#[trigger] rooms[i]).id as int,
            (#[trigger] rooms[j]).id as int,
        ) by {
            let x = rooms[i].id as int;
            let y = rooms[j].id as int;
            assert(connected_rep(reps, ids, x, y));
            let p = choose|p: Seq<int>| is_path_rep(reps, ids, p, x, y);
            assert forall|k: int| 0 <= k < p.len() - 1 implies has_edge(
                cs,
                #[trigger] p[k],
                p[k + 1],
            ) by {
                assert(has_edge_rep(reps, p[k], p[k + 1]));
                let m = choose|m: int|
                    0 <= m < reps.len() && linked_rep(#[trigger] reps[m], p[k], p[k + 1]);
                assert(reps[m] == corridor_rep(cs[m]));
                assert(linked(cs[m], p[k], p[k + 1]));
            }
            assert(is_path(cs, ids, p, x, y));
        }
        assert(spec_all_connected(rooms, cs));
    }
}

/// A room identifier connects to itself.
pub proof fn lemma_connected_refl(cs: Seq<MapgenCorridor>, ids: Set<int>, a: int)
    requires
        ids.contains(a),
    ensures
        connected(cs, ids, a, a),
{
    let p = seq![a];
    assert(is_path(cs, ids, p, a, a));
}

/// A connection extends along one more corridor.
pub proof fn lemma_connected_step(cs: Seq<MapgenCorridor>, ids: Set<int>, a: int, b: int, c: int)
    requires
        connected(cs, ids, a, b),
        has_edge(cs, b, c),
        ids.contains(c),
    ensures
        connected(cs, ids, a, c),
{
    let p = choose|p: Seq<int>| is_path(cs, ids, p, a, b);
    let q = p.push(c);
    assert forall|k: int| 0 <= k < q.len() implies ids.contains(#[trigger] q[k]) by {
        if k < p.len() {
            assert(q[k] == p[k]);
        }
    }
    assert forall|k: int| 0 <= k < q.len() - 1 implies has_edge(cs, #[trigger] q[k], q[k + 1]) by {
        if k < p.len() - 1 {
            assert(q[k] == p[k] && q[k + 1] == p[k + 1]);
        } else {
            assert(q[k] == p[p.len() - 1] && q[k + 1] == c);
        }
    }
    assert(is_path(cs, ids, q, a, c));
}

/// Connections run both ways: corridors are undirected.
pub proof fn lemma_connected_sym(cs: Seq<MapgenCorridor>, ids: Set<int>, a: int, b: int)
    requires
        connected(cs, ids, a, b),
    ensures
        connected(cs, ids, b, a),
{
    let p = choose|p: Seq<int>| is_path(cs, ids, p, a, b);
    let n = p.len();
    let q = Seq::new(n, |k: int| p[n - 1 - k]);
    assert forall|k: int| 0 <= k < q.len() implies ids.contains(#[trigger] q[k]) by {
        assert(q[k] == p[n - 1 - k]);
    }
    assert forall|k: int| 0 <= k < q.len() - 1 implies has_edge(cs, #[trigger] q[k], q[k + 1]) by {
        assert(q[k] == p[n - 1 - k] && q[k + 1] == p[n - 2 - k]);
        assert(has_edge(cs, p[n - 2 - k], p[n - 1 - k]));
        let m = choose|m: int| 0 <= m < cs.len() && linked(#[trigger] cs[m], p[n - 2 - k], p[n - 1
            - k]);
        assert(linked(cs[m], q[k], q[k + 1]));
    }
    assert(is_path(cs, ids, q, b, a));
}

/// Connections compose.
pub proof fn lemma_connected_trans(cs: Seq<MapgenCorridor>, ids: Set<int>, a: int, b: int, c: int)
    requires
        connected(cs, ids, a, b),
        connected(cs, ids, b, c),
    ensures
        connected(cs, ids, a, c),
{
    let p1 = choose|p: Seq<int>| is_path(cs, ids, p, a, b);
    let p2 = choose|p: Seq<int>| is_path(cs, ids, p, b, c);
    let n1 = p1.len();
    let n2 = p2.len();
    if n2 == 1 {
        assert(is_path(cs, ids, p1, a, c));
    } else {
        let q = Seq::new(
            (n1 + n2 - 1) as nat,
            |k: int|
                if k < n1 {
                    p1[k]
                } else {
                    p2[k - n1 + 1]
                },
        );
        assert forall|k: int| 0 <= k < q.len() implies ids.contains(#[trigger] q[k]) by {
            if k < n1 {
                assert(q[k] == p1[k]);
            } else {
                assert(q[k] == p2[k - n1 + 1]);
            }
        }
        assert forall|k: int| 0 <= k < q.len() - 1 implies has_edge(
            cs,
            #[trigger] q[k],
            q[k + 1],
        ) by {
            if k < n1 - 1 {
                assert(q[k] == p1[k] && q[k + 1] == p1[k + 1]);
            } else if k == n1 - 1 {
                assert(q[k] == p1[n1 - 1] && q[k + 1] == p2[1]);
                assert(p1[n1 - 1] == b && p2[0] == b);
                assert(has_edge(cs, p2[0], p2[1]));
            } else {
                assert(q[k] == p2[k - n1 + 1] && q[k + 1] == p2[k - n1 + 2]);
            }
        }
        assert(q[q.len() - 1] == p2[n2 - 1]);
        assert(is_path(cs, ids, q, a, c));
    }
}

/// A set of identifiers that contains `a` and is closed under corridor edges
/// contains everything connected to `a`.
pub proof fn lemma_closed_under_edges(
    cs: Seq<MapgenCorridor>,
    ids: Set<int>,
    v: Set<int>,
    p: Seq<int>,
    a: int,
    b: int,
)
    requires
        is_path(cs, ids, p, a, b),
        v.contains(a),
        forall|m: int, u: int, w: int|
            0 <= m < cs.len() && #[trigger] linked(cs[m], u, w) && v.contains(u) && ids.contains(w)
                ==> v.contains(w),
    ensures
        v.contains(b),
    decreases p.len(),
{
    if p.len() == 1 {
        assert(b == a);
    } else {
        assert(has_edge(cs, p[0], p[1]));
        let m = choose|m: int| 0 <= m < cs.len() && linked(#[trigger] cs[m], p[0], p[1]);
        assert(ids.contains(p[1]));
        assert(v.contains(p[1]));
        let tail = p.subrange(1, p.len() as int);
        assert forall|k: int| 0 <= k < tail.len() implies ids.contains(#[trigger] tail[k]) by {
            assert(tail[k] == p[k + 1]);
        }
        assert forall|k: int| 0 <= k < tail.len() - 1 implies has_edge(
            cs,
            #[trigger] tail[k],
            tail[k + 1],
        ) by {
            assert(tail[k] == p[k + 1] && tail[k + 1] == p[k + 2]);
        }
        assert(is_path(cs, ids, tail, p[1], b));
        lemma_closed_under_edges(cs, ids, v, tail, p[1], b);
    }
}

/// Whether `f` holds identifier `u`.
pub open spec fn seq_contains_id(f: Seq<usize>, u: int) -> bool {
    exists|k: int| 0 <= k < f.len() && (#[trigger] f[k]) as int == u
}

/// Whether room `r` occurs (by value) in `s`.
pub open spec fn room_in(r: MapgenRoom, s: Seq<MapgenRoom>) -> bool {
    exists|b: int| 0 <= b < s.len() && s[b] == r
}

/// Every corridor edge leaving a visited-but-no-longer-frontier identifier
/// ends on a visited identifier.
spec fn closure_except(
    cs: Seq<MapgenCorridor>,
    ids: Set<int>,
    v: Set<int>,
    f: Seq<usize>,
) -> bool {
    forall|m: int, u: int, w: int|
        0 <= m < cs.len() && #[trigger] linked(cs[m], u, w) && v.contains(u) && !seq_contains_id(
            f,
            u,
        ) && ids.contains(w) ==> v.contains(w)
}

/// The invariant of the search: visited identifiers and still-unvisited
/// rooms partition the room list, visited identifiers are all connected to
/// the seed `a`, and the frontier is visited.
#[verifier::opaque]
spec fn bfs_inv(
    rooms: Seq<MapgenRoom>,
    cs: Seq<MapgenCorridor>,
    a: int,
    visited: Set<int>,
    remaining: Seq<MapgenRoom>,
    frontier: Seq<usize>,
) -> bool {
    &&& forall|j: int|
        0 <= j < rooms.len() ==> visited.contains((#[trigger] rooms[j]).id as int) || room_in(
            rooms[j],
            remaining,
        )
    &&& forall|b: int|
        0 <= b < remaining.len() ==> room_in(#[trigger] remaining[b], rooms) && !visited.contains(
            remaining[b].id as int,
        )
    &&& forall|b1: int, b2: int|
        0 <= b1 < b2 < remaining.len() ==> (#[trigger] remaining[b1]).id != (
        #[trigger] remaining[b2]).id
    &&& forall|u: int|
        #[trigger] visited.contains(u) ==> id_set(rooms).contains(u) && connected(
            cs,
            id_set(rooms),
            a,
            u,
        )
    &&& forall|k: int|
        0 <= k < frontier.len() ==> visited.contains((#[trigger] frontier[k]) as int)
    &&& visited.contains(a)
}

proof fn lemma_bfs_init(rooms: Seq<MapgenRoom>, cs: Seq<MapgenCorridor>)
    requires
        rooms.len() >= 1,
        forall|i: int, j: int|
            0 <= i < j < rooms.len() ==> (#[trigger] rooms[i]).id != (#[trigger] rooms[j]).id,
    ensures
        bfs_inv(
            rooms,
            cs,
            rooms[rooms.len() - 1].id as int,
            Set::empty().insert(rooms[rooms.len() - 1].id as int),
            rooms.take(rooms.len() - 1),
            seq![rooms[rooms.len() - 1].id],
        ),
        closure_except(
            cs,
            id_set(rooms),
            Set::empty().insert(rooms[rooms.len() - 1].id as int),
            seq![rooms[rooms.len() - 1].id],
        ),
{
    reveal(bfs_inv);
    let a = rooms[rooms.len() - 1].id as int;
    let visited = Set::empty().insert(a);
    let remaining = rooms.take(rooms.len() - 1);
    let frontier = seq![rooms[rooms.len() - 1].id];
    assert(id_set(rooms).contains(a));
    lemma_connected_refl(cs, id_set(rooms), a);
    assert forall|j: int| 0 <= j < rooms.len() implies visited.contains(
        (#[trigger] rooms[j]).id as int,
    ) || room_in(rooms[j], remaining) by {
        if j < rooms.len() - 1 {
            assert(remaining[j] == rooms[j]);
        }
    }
    assert forall|b: int| 0 <= b < remaining.len() implies room_in(#[trigger] remaining[b], rooms)
        && !visited.contains(remaining[b].id as int) by {
        assert(remaining[b] == rooms[b]);
        assert(rooms[b].id != rooms[rooms.len() - 1].id);
    }
    assert(frontier[0] == rooms[rooms.len() - 1].id);
    assert(seq_contains_id(frontier, a));
    assert forall|m: int, u: int, w: int|
        0 <= m < cs.len() && #[trigger] linked(cs[m], u, w) && visited.contains(u)
            && !seq_contains_id(frontier, u) && id_set(rooms).contains(w) implies visited.contains(
        w,
    ) by {
        assert(u == a);
    }
}

proof fn lemma_bfs_remove(
    rooms: Seq<MapgenRoom>,
    cs: Seq<MapgenCorridor>,
    a: int,
    visited: Set<int>,
    remaining: Seq<MapgenRoom>,
    frontier: Seq<usize>,
    u: int,
    m: int,
    pos: int,
)
    requires
        bfs_inv(rooms, cs, a, visited, remaining, frontier),
        0 <= m < cs.len(),
        0 <= pos < remaining.len(),
        seq_contains_id(frontier, u),
        linked(cs[m], u, remaining[pos].id as int),
    ensures
        bfs_inv(
            rooms,
            cs,
            a,
            visited.insert(remaining[pos].id as int),
            remaining.remove(pos),
            frontier,
        ),
{
    reveal(bfs_inv);
    remaining.remove_ensures(pos);
    let w = remaining[pos].id as int;
    let visited1 = visited.insert(w);
    let remaining1 = remaining.remove(pos);
    let ids = id_set(rooms);
    // the removed room is a room, so its identifier is a node
    assert(room_in(remaining[pos], rooms));
    let jw = choose|j: int| 0 <= j < rooms.len() && rooms[j] == remaining[pos];
    assert(ids.contains(w));
    // the frontier end of the corridor is visited, hence connected to the seed
    let kf = choose|k: int| 0 <= k < frontier.len() && (#[trigger] frontier[k]) as int == u;
    assert(visited.contains(u));
    assert(has_edge(cs, u, w));
    lemma_connected_step(cs, ids, a, u, w);
    assert forall|j: int| 0 <= j < rooms.len() implies visited1.contains(
        (#[trigger] rooms[j]).id as int,
    ) || room_in(rooms[j], remaining1) by {
        if !visited.contains(rooms[j].id as int) {
            let b = choose|b: int| 0 <= b < remaining.len() && remaining[b] == rooms[j];
            if b == pos {
                assert(rooms[j].id as int == w);
            } else if b < pos {
                assert(remaining1[b] == remaining[b]);
            } else {
                assert(remaining1[b - 1] == remaining[b]);
            }
        }
    }
    assert forall|b: int| 0 <= b < remaining1.len() implies room_in(
        #[trigger] remaining1[b],
        rooms,
    ) && !visited1.contains(remaining1[b].id as int) by {
        let bb: int = if b < pos {
            b
        } else {
            b + 1
        };
        assert(remaining1[b] == remaining[bb]);
        assert(room_in(remaining[bb], rooms));
        assert(remaining[bb].id != remaining[pos].id);
    }
    assert forall|b1: int, b2: int| 0 <= b1 < b2 < remaining1.len() implies (
    #[trigger] remaining1[b1]).id != (#[trigger] remaining1[b2]).id by {
        let c1: int = if b1 < pos {
            b1
        } else {
            b1 + 1
        };
        let c2: int = if b2 < pos {
            b2
        } else {
            b2 + 1
        };
        assert(remaining1[b1] == remaining[c1] && remaining1[b2] == remaining[c2]);
    }
}

proof fn lemma_bfs_true(
    rooms: Seq<MapgenRoom>,
    cs: Seq<MapgenCorridor>,
    a: int,
    visited: Set<int>,
    frontier: Seq<usize>,
)
    requires
        rooms.len() >= 1,
        a == rooms[rooms.len() - 1].id as int,
        bfs_inv(rooms, cs, a, visited, Seq::empty(), frontier),
    ensures
        spec_all_connected(rooms, cs),
{
    reveal(bfs_inv);
    let ids = id_set(rooms);
    assert forall|i: int, j: int| 0 <= i < rooms.len() && 0 <= j < rooms.len() implies connected(
        cs,
        ids,
        (#[trigger] rooms[i]).id as int,
        (#[trigger] rooms[j]).id as int,
    ) by {
        assert(!room_in(rooms[i], Seq::empty()));
        assert(!room_in(rooms[j], Seq::empty()));
        assert(visited.contains(rooms[i].id as int));
        assert(visited.contains(rooms[j].id as int));
        lemma_connected_sym(cs, ids, a, rooms[i].id as int);
        lemma_connected_trans(cs, ids, rooms[i].id as int, a, rooms[j].id as int);
    }
}

proof fn lemma_bfs_false(
    rooms: Seq<MapgenRoom>,
    cs: Seq<MapgenCorridor>,
    a: int,
    visited: Set<int>,
    remaining: Seq<MapgenRoom>,
    frontier: Seq<usize>,
)
    requires
        rooms.len() >= 1,
        a == rooms[rooms.len() - 1].id as int,
        bfs_inv(rooms, cs, a, visited, remaining, frontier),
        closure_except(cs, id_set(rooms), visited, frontier),
        frontier.len() == 0,
        remaining.len() >= 1,
    ensures
        !spec_all_connected(rooms, cs),
{
    reveal(bfs_inv);
    let ids = id_set(rooms);
    let r0 = remaining[0];
    assert(room_in(r0, rooms));
    let j0 = choose|j: int| 0 <= j < rooms.len() && rooms[j] == r0;
    let w = r0.id as int;
    assert(!visited.contains(w));
    assert(visited.contains(a));
    assert forall|m: int, u: int, x: int|
        0 <= m < cs.len() && #[trigger] linked(cs[m], u, x) && visited.contains(u) && ids.contains(
            x,
        ) implies visited.contains(x) by {
        assert(!seq_contains_id(frontier, u));
    }
    if connected(cs, ids, a, w) {
        let p = choose|p: Seq<int>| is_path(cs, ids, p, a, w);
        lemma_closed_under_edges(cs, ids, visited, p, a, w);
        assert(false);
    }
    assert(!connected(cs, ids, rooms[rooms.len() - 1].id as int, rooms[j0].id as int));
}

/// Whether `v` holds the identifier `id`.
fn contains_id(v: &Vec<usize>, id: usize) -> (r: bool)
    ensures
        r == seq_contains_id(v@, id as int),
{
    let mut k: usize = 0;
    while k < v.len()
        invariant
            k <= v@.len(),
            forall|m: int| 0 <= m < k ==> (#[trigger] v@[m]) as int != id as int,
        decreases v@.len() - k,
    {
        if v[k] == id {
            return true;
        }
        k += 1;
    }
    false
}

/// The index of the first room with identifier `id`, if any.
fn find_room_index(rooms: &Vec<MapgenRoom>, id: usize) -> (r: Option<usize>)
    ensures
        match r {
            Some(i) => 0 <= i < rooms@.len() && rooms@[i as int].id == id,
            None => forall|b: int| 0 <= b < rooms@.len() ==> (#[trigger] rooms@[b]).id != id,
        },
{
    let mut k: usize = 0;
    while k < rooms.len()
        invariant
            k <= rooms@.len(),
            forall|m: int| 0 <= m < k ==> (#[trigger] rooms@[m]).id != id,
        decreases rooms@.len() - k,
    {
        if rooms[k].id == id {
            return Some(k);
        }
        k += 1;
    }
    None
}

/// Mark the room with identifier `w` as reached, if it is still unvisited:
/// remove it from `remaining` and put its identifier on the next frontier.
/// Afterwards `w` is visited whenever it is a room identifier at all.
fn absorb(
    rooms: &Vec<MapgenRoom>,
    remaining: &mut Vec<MapgenRoom>,
    new_frontier: &mut Vec<usize>,
    w: usize,
    Ghost(cs): Ghost<Seq<MapgenCorridor>>,
    Ghost(a): Ghost<int>,
    Ghost(visited): Ghost<Set<int>>,
    Ghost(frontier): Ghost<Seq<usize>>,
    Ghost(u): Ghost<int>,
    Ghost(m): Ghost<int>,
) -> (v1: Ghost<Set<int>>)
    requires
        bfs_inv(rooms@, cs, a, visited, old(remaining)@, frontier),
        0 <= m < cs.len(),
        seq_contains_id(frontier, u),
        linked(cs[m], u, w as int),
    ensures
        bfs_inv(rooms@, cs, a, v1@, final(remaining)@, frontier),
        forall|x: int| visited.contains(x) ==> v1@.contains(x),
        forall|x: int| #[trigger] v1@.contains(x) ==> visited.contains(x) || x == w as int,
        id_set(rooms@).contains(w as int) ==> v1@.contains(w as int),
        final(remaining)@.len() + final(new_frontier)@.len() == old(remaining)@.len() + old(
            new_frontier,
        )@.len(),
        final(new_frontier)@ == old(new_frontier)@ || final(new_frontier)@ == old(
            new_frontier,
        )@.push(w),
        v1@ != visited ==> final(new_frontier)@ == old(new_frontier)@.push(w),
        final(new_frontier)@ != old(new_frontier)@ ==> v1@.contains(w as int)
            && final(new_frontier)@ == old(new_frontier)@.push(w),
{
    match find_room_index(remaining, w) {
        Some(pos) => {
            proof {
                lemma_bfs_remove(rooms@, cs, a, visited, remaining@, frontier, u, m, pos as int);
            }
            let room = remaining.remove(pos);
            new_frontier.push(room.id);
            proof {
                reveal(bfs_inv);
                assert(id_set(rooms@).contains(w as int)) by {
                    assert(visited.insert(w as int).contains(w as int));
                }
            }
            Ghost(visited.insert(w as int))
        },
        None => {
            proof {
                reveal(bfs_inv);
                if id_set(rooms@).contains(w as int) {
                    let j = choose|j: int|
                        0 <= j < rooms@.len() && (#[trigger] rooms@[j]).id as int == w as int;
                    if !visited.contains(w as int) {
                        assert(room_in(rooms@[j], remaining@));
                        let b = choose|b: int|
                            0 <= b < remaining@.len() && remaining@[b] == rooms@[j];
                        assert(false);
                    }
                }
            }
            Ghost(visited)
        },
    }
}

proof fn lemma_round_end(
    cs: Seq<MapgenCorridor>,
    ids: Set<int>,
    visited0: Set<int>,
    visited: Set<int>,
    frontier: Seq<usize>,
    new_frontier: Seq<usize>,
)
    requires
        closure_except(cs, ids, visited0, frontier),
        forall|x: int| visited0.contains(x) ==> visited.contains(x),
        forall|x: int|
            #[trigger] visited.contains(x) ==> visited0.contains(x) || seq_contains_id(
                new_frontier,
                x,
            ),
        forall|m: int, u: int, w: int|
            0 <= m < cs.len() && #[trigger] linked(cs[m], u, w) && seq_contains_id(frontier, u)
                && ids.contains(w) ==> visited.contains(w),
    ensures
        closure_except(cs, ids, visited, new_frontier),
{
    assert forall|m: int, u: int, w: int|
        0 <= m < cs.len() && #[trigger] linked(cs[m], u, w) && visited.contains(u)
            && !seq_contains_id(new_frontier, u) && ids.contains(w) implies visited.contains(w) by {
        assert(visited0.contains(u));
        if seq_contains_id(frontier, u) {
        } else {
            assert(visited0.contains(w));
        }
    }
}

/// Decide whether every room is reachable from every other room through the
/// corridor graph. The search grows a frontier from one room; the layout is
/// connected exactly when no room is left out.
pub fn all_rooms_connected(rooms: &Vec<MapgenRoom>, corridors: &Vec<MapgenCorridor>) -> (r: bool)
    requires
        rooms@.len() >= 1,
        forall|i: int, j: int|
            0 <= i < j < rooms@.len() ==> (#[trigger] rooms@[i]).id != (#[trigger] rooms@[j]).id,
    ensures
        r == spec_all_connected(rooms@, corridors@),
{
    let ghost cs = corridors@;
    let ghost ids = id_set(rooms@);
    let seed = rooms[rooms.len() - 1];
    let ghost a = seed.id as int;

    let mut remaining: Vec<MapgenRoom> = Vec::new();
    let mut bi: usize = 0;
    while bi < rooms.len() - 1
        invariant
            rooms@.len() >= 1,
            bi <= rooms@.len() - 1,
            remaining@ == rooms@.take(bi as int),
        decreases rooms@.len() - 1 - bi,
    {
        remaining.push(rooms[bi]);
        proof {
            assert(remaining@ =~= rooms@.take(bi + 1 as int));
        }
        bi += 1;
    }

    let mut frontier: Vec<usize> = Vec::new();
    frontier.push(seed.id);
    let ghost mut visited: Set<int> = Set::empty().insert(a);
    proof {
        lemma_bfs_init(rooms@, cs);
        assert(frontier@ =~= seq![rooms@[rooms@.len() - 1].id]);
    }

    let mut done = false;
    while !done
        invariant
            rooms@.len() >= 1,
            forall|i: int, j: int|
                0 <= i < j < rooms@.len() ==> (#[trigger] rooms@[i]).id != (
                #[trigger] rooms@[j]).id,
            cs == corridors@,
            ids == id_set(rooms@),
            a == rooms@[rooms@.len() - 1].id as int,
            bfs_inv(rooms@, cs, a, visited, remaining@, frontier@),
            closure_except(cs, ids, visited, frontier@),
            done ==> frontier@.len() == 0,
        decreases 2 * remaining@.len() + (if done {
            0int
        } else {
            1int
        }),
    {
        let ghost visited0 = visited;
        let ghost frontier0 = frontier@;
        let ghost n0 = remaining@.len();
        let mut new_frontier: Vec<usize> = Vec::new();
        let mut ci: usize = 0;
        while ci < corridors.len()
            invariant
                rooms@.len() >= 1,
                cs == corridors@,
                ids == id_set(rooms@),
                a == rooms@[rooms@.len() - 1].id as int,
                frontier@ == frontier0,
                ci <= cs.len(),
                bfs_inv(rooms@, cs, a, visited, remaining@, frontier@),
                closure_except(cs, ids, visited0, frontier0),
                forall|x: int| visited0.contains(x) ==> visited.contains(x),
                forall|x: int|
                    #[trigger] visited.contains(x) ==> visited0.contains(x) || seq_contains_id(
                        new_frontier@,
                        x,
                    ),
                forall|k: int|
                    0 <= k < new_frontier@.len() ==> visited.contains(
                        (#[trigger] new_frontier@[k]) as int,
                    ),
                remaining@.len() + new_frontier@.len() == n0,
                forall|m: int, u: int, w: int|
                    0 <= m < ci && #[trigger] linked(cs[m], u, w) && seq_contains_id(frontier0, u)
                        && ids.contains(w) ==> visited.contains(w),
            decreases cs.len() - ci,
        {
            let c_from = corridors[ci].from;
            let c_to = corridors[ci].to;
            let ghost visited_pre = visited;
            let ghost nf_pre = new_frontier@;
            let hit_from = contains_id(&frontier, c_from);
            if hit_from {
                let v1 = absorb(
                    rooms,
                    &mut remaining,
                    &mut new_frontier,
                    c_to,
                    Ghost(cs),
                    Ghost(a),
                    Ghost(visited),
                    Ghost(frontier0),
                    Ghost(c_from as int),
                    Ghost(ci as int),
                );
                proof {
                    visited = v1@;
                }
            }
            let ghost visited_mid = visited;
            let ghost nf_mid = new_frontier@;
            let hit_to = contains_id(&frontier, c_to);
            if hit_to {
                let v2 = absorb(
                    rooms,
                    &mut remaining,
                    &mut new_frontier,
                    c_from,
                    Ghost(cs),
                    Ghost(a),
                    Ghost(visited),
                    Ghost(frontier0),
                    Ghost(c_to as int),
                    Ghost(ci as int),
                );
                proof {
                    visited = v2@;
                }
            }
            proof {
                assert forall|m: int, u: int, w: int|
                    0 <= m < ci + 1 && #[trigger] linked(cs[m], u, w) && seq_contains_id(
                        frontier0,
                        u,
                    ) && ids.contains(w) implies visited.contains(w) by {
                    if m == ci {
                        if u == c_from as int && w == c_to as int {
                            assert(hit_from);
                            assert(visited_mid.contains(w));
                        } else {
                            assert(u == c_to as int && w == c_from as int);
                            assert(hit_to);
                        }
                    }
                }
                assert forall|x: int| #[trigger] visited.contains(x) implies visited0.contains(x)
                    || seq_contains_id(new_frontier@, x) by {
                    if !visited0.contains(x) {
                        if visited_pre.contains(x) {
                            let k = choose|k: int|
                                0 <= k < nf_pre.len() && (#[trigger] nf_pre[k]) as int == x;
                            assert(new_frontier@[k] == nf_pre[k]);
                            assert(seq_contains_id(new_frontier@, x));
                        } else if visited_mid.contains(x) {
                            assert(visited_mid != visited_pre);
                            assert(nf_mid == nf_pre.push(c_to));
                            assert(x == c_to as int);
                            let k = nf_pre.len() as int;
                            assert(nf_mid[k] == c_to);
                            assert(new_frontier@[k] == nf_mid[k]);
                            assert(seq_contains_id(new_frontier@, x));
                        } else {
                            assert(visited != visited_mid);
                            assert(new_frontier@ == nf_mid.push(c_from));
                            assert(x == c_from as int);
                            let k = nf_mid.len() as int;
                            assert(new_frontier@[k] == c_from);
                            assert(seq_contains_id(new_frontier@, x));
                        }
                    }
                }
                assert forall|k: int| 0 <= k < new_frontier@.len() implies visited.contains(
                    (#[trigger] new_frontier@[k]) as int,
                ) by {
                    if k < nf_pre.len() {
                        assert(new_frontier@[k] == nf_pre[k]);
                        assert(visited_pre.contains(nf_pre[k] as int));
                    } else if k < nf_mid.len() {
                        assert(nf_mid != nf_pre);
                        assert(nf_mid == nf_pre.push(c_to));
                        assert(new_frontier@[k] == nf_mid[k]);
                        assert(nf_mid[k] == c_to);
                        assert(visited_mid.contains(c_to as int));
                    } else {
                        assert(new_frontier@ != nf_mid);
                        assert(new_frontier@ == nf_mid.push(c_from));
                        assert(new_frontier@[k] == c_from);
                        assert(visited.contains(c_from as int));
                    }
                }
                assert(bfs_inv(rooms@, cs, a, visited, remaining@, frontier@));
            }
            ci += 1;
        }
        proof {
            lemma_round_end(cs, ids, visited0, visited, frontier0, new_frontier@);
            reveal(bfs_inv);
            assert(bfs_inv(rooms@, cs, a, visited, remaining@, new_frontier@));
        }
        if new_frontier.len() == 0 {
            done = true;
        }
        frontier = new_frontier;
    }

    let connected_all = remaining.len() == 0;
    proof {
        if connected_all {
            assert(remaining@ =~= Seq::<MapgenRoom>::empty());
            lemma_bfs_true(rooms@, cs, a, visited, frontier@);
        } else {
            lemma_bfs_false(rooms@, cs, a, visited, remaining@, frontier@);
        }
    }
    connected_all
}

} // verus!
