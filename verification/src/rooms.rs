//! Room placement by rejection sampling: a requested number of rooms is
//! drawn, and each room tries up to `PLACE_ATTEMPTS` random grid-aligned
//! rectangles until one keeps its padded clearance from every room placed
//! before it. A slot whose attempts are all rejected is skipped, so the
//! output may hold fewer rooms than requested.

use crate::geom::{padded_disjoint, rects_padded_disjoint, round_mult, round_to, Rect, Vec2i, POS_LIMIT};
use crate::params::{MapgenContext, MapgenParams};
use crate::rng::{draw_value, pcg_advance};
use vstd::prelude::*;

verus! {

/// How many random rectangles one room slot may try.
pub const PLACE_ATTEMPTS: usize = 50;

/// A placed room: its identifier, the attempt at which its rectangle was
/// accepted (diagnostic only), and the rectangle itself.
#[derive(Clone, Copy, PartialEq, Eq, Structural, Debug)]
pub struct MapgenRoom {
    pub id: usize,
    pub attempt: usize,
    pub rect: Rect,
}

/// A placed room's rectangle is ordered and lies in the map extent, up to
/// one grid step of rounding slack.
pub open spec fn room_in_map(r: MapgenRoom, map: Vec2i, g: int) -> bool {
    &&& r.rect.wf()
    &&& 0 <= r.rect.min.x
    &&& 0 <= r.rect.min.y
    &&& r.rect.max.x <= map.x + g
    &&& r.rect.max.y <= map.y + g
}

/// The padding distance, in map units, that placement keeps between rooms.
pub open spec fn padding_of(p: MapgenParams) -> int {
    p.room_padding * p.grid_size
}

/// What `generate_rooms` guarantees of a room list.
pub open spec fn rooms_wf(rooms: Seq<MapgenRoom>, p: MapgenParams) -> bool {
    &&& rooms.len() <= p.num_rooms.end
    &&& forall|i: int, j: int|
        0 <= i < j < rooms.len() ==> #[trigger] rooms[i].id < #[trigger] rooms[j].id
    &&& forall|i: int| 0 <= i < rooms.len() ==> (#[trigger] rooms[i]).id < p.num_rooms.end
    &&& forall|i: int|
        0 <= i < rooms.len() ==> room_in_map(#[trigger] rooms[i], p.map_size, p.grid_size as int)
    &&& forall|i: int, j: int|
        0 <= i < j < rooms.len() ==> padded_disjoint(
            #[trigger] rooms[i].rect,
            #[trigger] rooms[j].rect,
            padding_of(p),
        )
}

/// Whether `cand` keeps the padded clearance `k` from every room in `rooms`.
pub open spec fn spec_clears(rooms: Seq<MapgenRoom>, cand: Rect, k: int) -> bool {
    forall|i: int| 0 <= i < rooms.len() ==> padded_disjoint((#[trigger] rooms[i]).rect, cand, k)
}

/// The attempt loop of one room slot, as a function of the stream state:
/// draw a size and, if it fits the map, a position; accept the rectangle
/// when it keeps its clearance from every earlier room, and otherwise try
/// again until the attempts run out.
pub open spec fn place_attempt_loop(
    p: MapgenParams,
    s: u128,
    id: int,
    attempt: int,
    rooms: Seq<MapgenRoom>,
) -> (Seq<MapgenRoom>, u128)
    decreases PLACE_ATTEMPTS - attempt,
{
    if attempt < 0 || attempt >= PLACE_ATTEMPTS {
        (rooms, s)
    } else {
        let g = p.grid_size as int;
        let sx = round_mult(draw_value(s, p.room_size.start.x as int, p.room_size.end.x as int), g);
        let s1 = pcg_advance(s);
        let sy = round_mult(
            draw_value(s1, p.room_size.start.y as int, p.room_size.end.y as int),
            g,
        );
        let s2 = pcg_advance(s1);
        if 0 <= sx <= p.map_size.x && 0 <= sy <= p.map_size.y {
            let px = round_mult(draw_value(s2, 0, p.map_size.x - sx), g);
            let s3 = pcg_advance(s2);
            let py = round_mult(draw_value(s3, 0, p.map_size.y - sy), g);
            let s4 = pcg_advance(s3);
            let rect = Rect {
                min: Vec2i { x: px as i64, y: py as i64 },
                max: Vec2i { x: (px + sx) as i64, y: (py + sy) as i64 },
            };
            if spec_clears(rooms, rect, padding_of(p)) {
                (
                    rooms.push(MapgenRoom { id: id as usize, attempt: attempt as usize, rect }),
                    s4,
                )
            } else {
                place_attempt_loop(p, s4, id, attempt + 1, rooms)
            }
        } else {
            place_attempt_loop(p, s2, id, attempt + 1, rooms)
        }
    }
}

/// The slot loop: place (or skip) each identifier in turn.
pub open spec fn place_id_loop(
    p: MapgenParams,
    s: u128,
    id: int,
    n: int,
    rooms: Seq<MapgenRoom>,
) -> (Seq<MapgenRoom>, u128)
    decreases n - id,
{
    if id < 0 || id >= n {
        (rooms, s)
    } else {
        let step = place_attempt_loop(p, s, id, 0, rooms);
        place_id_loop(p, step.1, id + 1, n, step.0)
    }
}

/// What `generate_rooms` returns, and the stream state it leaves behind, as
/// a function of the parameters and the starting state: placement is
/// deterministic given the seeded stream.
pub open spec fn spec_generate_rooms(p: MapgenParams, s: u128) -> (Seq<MapgenRoom>, u128) {
    let n = draw_value(s, p.num_rooms.start as int, p.num_rooms.end as int);
    place_id_loop(p, pcg_advance(s), 0, n, Seq::empty())
}

fn clears_all(rooms: &Vec<MapgenRoom>, cand: &Rect, k: i64) -> (r: bool)
    requires
        0 <= k <= POS_LIMIT,
        cand.in_bounds(POS_LIMIT as int),
        forall|i: int| 0 <= i < rooms@.len() ==> (#[trigger] rooms@[i]).rect.in_bounds(
            POS_LIMIT as int,
        ),
    ensures
        r == spec_clears(rooms@, *cand, k as int),
{
    let mut i: usize = 0;
    while i < rooms.len()
        invariant
            0 <= k <= POS_LIMIT,
            cand.in_bounds(POS_LIMIT as int),
            forall|m: int| 0 <= m < rooms@.len() ==> (#[trigger] rooms@[m]).rect.in_bounds(
                POS_LIMIT as int,
            ),
            i <= rooms@.len(),
            forall|m: int|
                0 <= m < i ==> padded_disjoint((#[trigger] rooms@[m]).rect, *cand, k as int),
        decreases rooms@.len() - i,
    {
        if !rects_padded_disjoint(&rooms[i].rect, cand, k) {
            return false;
        }
        i += 1;
    }
    true
}

/// Place rooms for the parameters in `context`, drawing the requested count
/// and every candidate rectangle from the context's stream. The returned
/// rooms have strictly increasing identifiers below the requested count's
/// upper bound, lie in the map, and pairwise keep the padded clearance.
pub fn generate_rooms(context: &mut MapgenContext) -> (rooms: Vec<MapgenRoom>)
    requires
        old(context).params.bounded(),
        old(context).params.spec_is_valid(),
    ensures
        final(context).params == old(context).params,
        rooms_wf(rooms@, old(context).params),
        rooms@ == spec_generate_rooms(old(context).params, old(context).rng@).0,
        final(context).rng@ == spec_generate_rooms(old(context).params, old(context).rng@).1,
{
    let ghost s0 = context.rng@;
    let g = context.params.grid_size;
    let map_x = context.params.map_size.x;
    let map_y = context.params.map_size.y;
    let pad = context.params.room_padding as i64;
    proof {
        assert(pad * g <= POS_LIMIT) by (nonlinear_arith)
            requires
                0 <= pad <= 1_000_000,
                1 <= g <= 1_000_000,
                POS_LIMIT == 3_000_000_000_000i64,
        ;
        assert(padding_of(context.params) == pad * g);
    }
    let k = pad * g;

    let n_drawn = context.rng.next_inclusive(
        context.params.num_rooms.start as u64,
        context.params.num_rooms.end as u64,
    );
    let n = n_drawn as usize;

    let mut rooms: Vec<MapgenRoom> = Vec::new();
    proof {
        assert(rooms@ =~= Seq::<MapgenRoom>::empty());
        assert(n as int == draw_value(
            s0,
            context.params.num_rooms.start as int,
            context.params.num_rooms.end as int,
        ));
    }
    let mut id: usize = 0;
    while id < n
        invariant
            spec_generate_rooms(old(context).params, s0) == place_id_loop(
                context.params,
                context.rng@,
                id as int,
                n as int,
                rooms@,
            ),
            s0 == old(context).rng@,
            context.params == old(context).params,
            context.params.bounded(),
            context.params.spec_is_valid(),
            g == context.params.grid_size,
            map_x == context.params.map_size.x,
            map_y == context.params.map_size.y,
            k == padding_of(context.params),
            0 <= k <= POS_LIMIT,
            n <= context.params.num_rooms.end,
            id <= n,
            rooms@.len() <= id,
            forall|i: int| 0 <= i < rooms@.len() ==> (#[trigger] rooms@[i]).id < id,
            forall|i: int, j: int|
                0 <= i < j < rooms@.len() ==> #[trigger] rooms@[i].id < #[trigger] rooms@[j].id,
            forall|i: int|
                0 <= i < rooms@.len() ==> room_in_map(
                    #[trigger] rooms@[i],
                    context.params.map_size,
                    g as int,
                ),
            forall|i: int, j: int|
                0 <= i < j < rooms@.len() ==> padded_disjoint(
                    #[trigger] rooms@[i].rect,
                    #[trigger] rooms@[j].rect,
                    k as int,
                ),
        decreases n - id,
    {
        let ghost s_entry = context.rng@;
        let ghost rooms_entry = rooms@;
        let mut attempt: usize = 0;
        let mut placed = false;
        while attempt < PLACE_ATTEMPTS && !placed
            invariant
                place_attempt_loop(context.params, s_entry, id as int, 0, rooms_entry) == (if placed {
                    (rooms@, context.rng@)
                } else {
                    place_attempt_loop(
                        context.params,
                        context.rng@,
                        id as int,
                        attempt as int,
                        rooms@,
                    )
                }),
                !placed ==> rooms@ == rooms_entry,
                context.params == old(context).params,
                context.params.bounded(),
                context.params.spec_is_valid(),
                g == context.params.grid_size,
                map_x == context.params.map_size.x,
                map_y == context.params.map_size.y,
                k == padding_of(context.params),
                0 <= k <= POS_LIMIT,
                n <= context.params.num_rooms.end,
                id < n,
                attempt <= PLACE_ATTEMPTS,
                rooms@.len() <= id + 1,
                !placed ==> rooms@.len() <= id,
                forall|i: int| 0 <= i < rooms@.len() ==> (#[trigger] rooms@[i]).id <= id,
                !placed ==> forall|i: int| 0 <= i < rooms@.len() ==> (#[trigger] rooms@[i]).id
                    < id,
                forall|i: int, j: int|
                    0 <= i < j < rooms@.len() ==> #[trigger] rooms@[i].id
                        < #[trigger] rooms@[j].id,
                forall|i: int|
                    0 <= i < rooms@.len() ==> room_in_map(
                        #[trigger] rooms@[i],
                        context.params.map_size,
                        g as int,
                    ),
                forall|i: int, j: int|
                    0 <= i < j < rooms@.len() ==> padded_disjoint(
                        #[trigger] rooms@[i].rect,
                        #[trigger] rooms@[j].rect,
                        k as int,
                    ),
            decreases PLACE_ATTEMPTS - attempt,
        {
            let sx = round_to(
                context.rng.next_i64_inclusive(
                    context.params.room_size.start.x,
                    context.params.room_size.end.x,
                ),
                g,
            );
            let sy = round_to(
                context.rng.next_i64_inclusive(
                    context.params.room_size.start.y,
                    context.params.room_size.end.y,
                ),
                g,
            );
            if 0 <= sx && sx <= map_x && 0 <= sy && sy <= map_y {
                let px = round_to(context.rng.next_i64_inclusive(0, map_x - sx), g);
                let py = round_to(context.rng.next_i64_inclusive(0, map_y - sy), g);
                let rect = Rect {
                    min: Vec2i { x: px, y: py },
                    max: Vec2i { x: px + sx, y: py + sy },
                };
                if clears_all(&rooms, &rect, k) {
                    rooms.push(MapgenRoom { id, attempt, rect });
                    placed = true;
                }
            }
            attempt += 1;
        }
        proof {
            let p = context.params;
            let step = place_attempt_loop(p, s_entry, id as int, 0, rooms_entry);
            if !placed {
                assert(place_attempt_loop(p, context.rng@, id as int, PLACE_ATTEMPTS as int, rooms@)
                    == (rooms@, context.rng@));
            }
            assert(step == (rooms@, context.rng@));
            assert(place_id_loop(p, s_entry, id as int, n as int, rooms_entry) == place_id_loop(
                p,
                context.rng@,
                id as int + 1,
                n as int,
                rooms@,
            ));
        }
        id += 1;
    }
    rooms
}

} // verus!
