//! Corridor carving: random walks from room boundaries that end when they
//! step into another room, with self-avoidance against corridors already
//! accepted in the same pass, followed by deduplication so that at most one
//! corridor survives per unordered room pair.

use crate::geom::{round_mult, vadd, Dir, Rect, Vec2i, COORD_LIMIT, POS_LIMIT};
use crate::params::{MapgenContext, MapgenParams};
use crate::rng::{draw_value, pcg_advance};
use crate::rooms::{room_in_map, MapgenRoom};
use vstd::prelude::*;

verus! {

/// How many independent walk attempts one carving pass makes.
pub const CARVE_ATTEMPTS: usize = 1000;

/// A carved corridor: the rooms it joins, the point where it leaves its
/// origin room, its centerline, and the two wall polylines kept in lockstep
/// with the centerline for rendering.
#[derive(Clone, PartialEq, Eq, Debug)]
pub struct MapgenCorridor {
    pub from: usize,
    pub to: usize,
    pub entrance: Vec2i,
    pub midpoints: Vec<Vec2i>,
    pub left: Vec<Vec2i>,
    pub right: Vec<Vec2i>,
}

/// Whether `e` lies on the boundary edge of `r` that faces direction `d`.
pub open spec fn edge_matches(d: Dir, e: Vec2i, r: Rect) -> bool {
    match d {
        Dir::PosX => e.x == r.max.x,
        Dir::NegX => e.x == r.min.x,
        Dir::PosY => e.y == r.max.y,
        Dir::NegY => e.y == r.min.y,
    }
}

/// The entrance's coordinate along the edge stays within the room's edge
/// segment, up to the half-step snap onto cell centers.
pub open spec fn lateral_on_edge(d: Dir, e: Vec2i, r: Rect, g: int) -> bool {
    match d {
        Dir::PosX => r.min.y - g <= e.y <= r.max.y + g,
        Dir::NegX => r.min.y - g <= e.y <= r.max.y + g,
        Dir::PosY => r.min.x - g <= e.x <= r.max.x + g,
        Dir::NegY => r.min.x - g <= e.x <= r.max.x + g,
    }
}

/// `p` translated by `k` unit steps in direction `d`.
pub open spec fn translated(p: Vec2i, d: Dir, k: int) -> Vec2i {
    Vec2i { x: (p.x + d.spec_unit().x * k) as i64, y: (p.y + d.spec_unit().y * k) as i64 }
}

/// Whether some room in `rooms` carries identifier `id`.
pub open spec fn has_room_id(rooms: Seq<MapgenRoom>, id: usize) -> bool {
    exists|i: int| 0 <= i < rooms.len() && rooms[i].id == id
}

/// The corridor leaves its origin room exactly on the boundary edge facing
/// its initial walk direction, and its second centerline point sits half a
/// grid step outward in that direction.
pub open spec fn entrance_on_edge(c: MapgenCorridor, rooms: Seq<MapgenRoom>, g: int) -> bool {
    exists|i: int, d: Dir|
        0 <= i < rooms.len() && rooms[i].id == c.from && edge_matches(d, c.entrance, rooms[i].rect)
            && lateral_on_edge(d, c.entrance, rooms[i].rect, g) && c.midpoints@[1] == translated(
            c.entrance,
            d,
            g / 2,
        )
}

/// All centerline points lie within the coordinate bound the walk respects.
pub open spec fn corridor_points_bounded(c: MapgenCorridor) -> bool {
    forall|k: int|
        0 <= k < c.midpoints@.len() ==> (#[trigger] c.midpoints@[k]).in_bounds(POS_LIMIT as int)
}

/// What carving guarantees of each corridor it emits.
pub open spec fn corridor_wf(c: MapgenCorridor, rooms: Seq<MapgenRoom>, p: MapgenParams) -> bool {
    &&& c.midpoints@.len() >= 3
    &&& c.left@.len() == c.midpoints@.len()
    &&& c.right@.len() == c.midpoints@.len()
    &&& has_room_id(rooms, c.from)
    &&& has_room_id(rooms, c.to)
    &&& c.midpoints@[0] == c.entrance
    &&& entrance_on_edge(c, rooms, p.grid_size as int)
    &&& corridor_points_bounded(c)
}

/// The mathematical content of a corridor: its fields with the point lists
/// as sequences. The carving mirror below produces values of this shape.
pub struct CorridorRep {
    pub from: usize,
    pub to: usize,
    pub entrance: Vec2i,
    pub midpoints: Seq<Vec2i>,
    pub left: Seq<Vec2i>,
    pub right: Seq<Vec2i>,
}

/// The rep of a carved corridor value.
pub open spec fn corridor_rep(c: MapgenCorridor) -> CorridorRep {
    CorridorRep {
        from: c.from,
        to: c.to,
        entrance: c.entrance,
        midpoints: c.midpoints@,
        left: c.left@,
        right: c.right@,
    }
}

/// The reps of a corridor list.
pub open spec fn reps_of(cs: Seq<MapgenCorridor>) -> Seq<CorridorRep> {
    Seq::new(cs.len(), |i: int| corridor_rep(cs[i]))
}

/// Whether `pos` comes near any centerline point of the given corridors.
pub open spec fn near_any(reps: Seq<CorridorRep>, pos: Vec2i, g: int) -> bool {
    exists|i: int, k: int|
        0 <= i < reps.len() && 0 <= k < reps[i].midpoints.len() && near(
            reps[i].midpoints[k],
            pos,
            g,
        )
}

/// The identifier of the first room whose rectangle contains `pos`.
pub open spec fn room_hit(rooms: Seq<MapgenRoom>, pos: Vec2i) -> Option<usize>
    decreases rooms.len(),
{
    if rooms.len() == 0 {
        None
    } else if rooms[0].rect.spec_contains(pos) {
        Some(rooms[0].id)
    } else {
        room_hit(rooms.skip(1), pos)
    }
}

/// The walk of one carving attempt, as a function of the stream state: turn
/// with probability two in ten (swapping the live and dormant direction and
/// nudging the latest wall points around the corner), abandon near an
/// accepted corridor, advance one grid step, and stop against the first room
/// hit -- a corridor if the walk is long enough, nothing otherwise.
#[verifier::opaque]
pub open spec fn walk_loop(
    p: MapgenParams,
    rooms: Seq<MapgenRoom>,
    reps: Seq<CorridorRep>,
    s: u128,
    step: int,
    dir: Dir,
    odir: Dir,
    loff: Vec2i,
    roff: Vec2i,
    oloff: Vec2i,
    oroff: Vec2i,
    pos: Vec2i,
    mids: Seq<Vec2i>,
    ls: Seq<Vec2i>,
    rs: Seq<Vec2i>,
    from: usize,
) -> (Option<CorridorRep>, u128)
    decreases p.corridor_length.end - step,
{
    if step < 0 || step >= p.corridor_length.end {
        (None, s)
    } else {
        let g = p.grid_size as int;
        let half = g / 2;
        let turning = draw_value(s, 0, 9) < 2;
        let s1 = pcg_advance(s);
        let dir1 = if turning {
            odir
        } else {
            dir
        };
        let odir1 = if turning {
            dir
        } else {
            odir
        };
        let loff1 = if turning {
            oloff
        } else {
            loff
        };
        let oloff1 = if turning {
            loff
        } else {
            oloff
        };
        let roff1 = if turning {
            oroff
        } else {
            roff
        };
        let oroff1 = if turning {
            roff
        } else {
            oroff
        };
        let ls1 = if turning {
            ls.update(ls.len() - 1, vadd(ls.last(), loff1))
        } else {
            ls
        };
        let rs1 = if turning {
            rs.update(rs.len() - 1, vadd(rs.last(), roff1))
        } else {
            rs
        };
        if near_any(reps, pos, g) {
            (None, s1)
        } else {
            let pos1 = vadd(pos, dir1.spec_step(g));
            match room_hit(rooms, pos1) {
                Some(hit) => {
                    if step < p.corridor_length.start {
                        (None, s1)
                    } else {
                        let fin = vadd(pos1, dir1.spec_opposite().spec_step(half));
                        (
                            Some(
                                CorridorRep {
                                    from,
                                    to: hit,
                                    entrance: mids[0],
                                    midpoints: mids.push(fin),
                                    left: ls1.push(vadd(fin, loff1)),
                                    right: rs1.push(vadd(fin, roff1)),
                                },
                            ),
                            s1,
                        )
                    }
                },
                None => walk_loop(
                    p,
                    rooms,
                    reps,
                    s1,
                    step + 1,
                    dir1,
                    odir1,
                    loff1,
                    roff1,
                    oloff1,
                    oroff1,
                    pos1,
                    mids.push(pos1),
                    ls1.push(vadd(pos1, loff1)),
                    rs1.push(vadd(pos1, roff1)),
                    from,
                ),
            }
        }
    }
}

/// `walk_loop` outside its step range yields no corridor and leaves the
/// stream alone.
proof fn lemma_walk_done(
    p: MapgenParams,
    rooms: Seq<MapgenRoom>,
    reps: Seq<CorridorRep>,
    s: u128,
    step: int,
    dir: Dir,
    odir: Dir,
    loff: Vec2i,
    roff: Vec2i,
    oloff: Vec2i,
    oroff: Vec2i,
    pos: Vec2i,
    mids: Seq<Vec2i>,
    ls: Seq<Vec2i>,
    rs: Seq<Vec2i>,
    from: usize,
)
    requires
        step >= p.corridor_length.end,
    ensures
        walk_loop(p, rooms, reps, s, step, dir, odir, loff, roff, oloff, oroff, pos, mids, ls, rs, from)
            == (None::<CorridorRep>, s),
{
    reveal(walk_loop);
}

/// One unfolding of `walk_loop`, phrased over the already-swapped walk state
/// so the caller's loop only has to match its own variables against it.
proof fn lemma_walk_unfold(
    p: MapgenParams,
    rooms: Seq<MapgenRoom>,
    reps: Seq<CorridorRep>,
    s: u128,
    step: int,
    dir: Dir,
    odir: Dir,
    loff: Vec2i,
    roff: Vec2i,
    oloff: Vec2i,
    oroff: Vec2i,
    pos: Vec2i,
    mids: Seq<Vec2i>,
    ls: Seq<Vec2i>,
    rs: Seq<Vec2i>,
    from: usize,
    turning: bool,
    dir1: Dir,
    odir1: Dir,
    loff1: Vec2i,
    roff1: Vec2i,
    oloff1: Vec2i,
    oroff1: Vec2i,
    ls1: Seq<Vec2i>,
    rs1: Seq<Vec2i>,
    pos1: Vec2i,
)
    requires
        0 <= step < p.corridor_length.end,
        turning == (draw_value(s, 0, 9) < 2),
        dir1 == (if turning {
            odir
        } else {
            dir
        }),
        odir1 == (if turning {
            dir
        } else {
            odir
        }),
        loff1 == (if turning {
            oloff
        } else {
            loff
        }),
        oloff1 == (if turning {
            loff
        } else {
            oloff
        }),
        roff1 == (if turning {
            oroff
        } else {
            roff
        }),
        oroff1 == (if turning {
            roff
        } else {
            oroff
        }),
        ls1 == (if turning {
            ls.update(ls.len() - 1, vadd(ls.last(), loff1))
        } else {
            ls
        }),
        rs1 == (if turning {
            rs.update(rs.len() - 1, vadd(rs.last(), roff1))
        } else {
            rs
        }),
        pos1 == vadd(pos, dir1.spec_step(p.grid_size as int)),
    ensures
        walk_loop(p, rooms, reps, s, step, dir, odir, loff, roff, oloff, oroff, pos, mids, ls, rs, from)
            == (if near_any(reps, pos, p.grid_size as int) {
            (None::<CorridorRep>, pcg_advance(s))
        } else {
            match room_hit(rooms, pos1) {
                Some(hit) => {
                    if step < p.corridor_length.start {
                        (None::<CorridorRep>, pcg_advance(s))
                    } else {
                        let fin = vadd(
                            pos1,
                            dir1.spec_opposite().spec_step(p.grid_size as int / 2),
                        );
                        (
                            Some(
                                CorridorRep {
                                    from,
                                    to: hit,
                                    entrance: mids[0],
                                    midpoints: mids.push(fin),
                                    left: ls1.push(vadd(fin, loff1)),
                                    right: rs1.push(vadd(fin, roff1)),
                                },
                            ),
                            pcg_advance(s),
                        )
                    }
                },
                None => walk_loop(
                    p,
                    rooms,
                    reps,
                    pcg_advance(s),
                    step + 1,
                    dir1,
                    odir1,
                    loff1,
                    roff1,
                    oloff1,
                    oroff1,
                    pos1,
                    mids.push(pos1),
                    ls1.push(vadd(pos1, loff1)),
                    rs1.push(vadd(pos1, roff1)),
                    from,
                ),
            }
        }),
{
    reveal(walk_loop);
}

/// One whole carving attempt, as a function of the stream state: choose a
/// room, an initial direction, an entrance snapped to a cell center and
/// projected onto the facing room edge, and the one allowed perpendicular,
/// then walk.
#[verifier::opaque]
pub open spec fn spec_carve_one(
    p: MapgenParams,
    rooms: Seq<MapgenRoom>,
    reps: Seq<CorridorRep>,
    s: u128,
) -> (Option<CorridorRep>, u128) {
    let g = p.grid_size as int;
    let half = g / 2;
    let wh = p.corridor_width as int / 2;
    let room_idx = draw_value(s, 0, rooms.len() - 1);
    let s1 = pcg_advance(s);
    let room = rooms[room_idx];
    let dd = draw_value(s1, 0, 3);
    let s2 = pcg_advance(s1);
    let dir0 = if dd == 0 {
        Dir::PosX
    } else if dd == 1 {
        Dir::PosY
    } else if dd == 2 {
        Dir::NegX
    } else {
        Dir::NegY
    };
    let ox = draw_value(s2, 0, room.rect.max.x - room.rect.min.x);
    let s3 = pcg_advance(s2);
    let oy = draw_value(s3, 0, room.rect.max.y - room.rect.min.y);
    let s4 = pcg_advance(s3);
    let ex = round_mult(room.rect.min.x + ox - half, g) + half;
    let ey = round_mult(room.rect.min.y + oy - half, g) + half;
    let entrance = match dir0 {
        Dir::PosX => Vec2i { x: room.rect.max.x, y: ey as i64 },
        Dir::NegX => Vec2i { x: room.rect.min.x, y: ey as i64 },
        Dir::PosY => Vec2i { x: ex as i64, y: room.rect.max.y },
        Dir::NegY => Vec2i { x: ex as i64, y: room.rect.min.y },
    };
    let tl = draw_value(s4, 0, 1);
    let s5 = pcg_advance(s4);
    let odir = if tl == 1 {
        dir0.spec_rot_left()
    } else {
        dir0.spec_rot_right()
    };
    let loff = dir0.spec_rot_left().spec_step(wh);
    let roff = dir0.spec_rot_right().spec_step(wh);
    let oloff = odir.spec_rot_left().spec_step(wh);
    let oroff = odir.spec_rot_right().spec_step(wh);
    let pos = vadd(entrance, dir0.spec_step(half));
    let mids = seq![entrance, pos];
    let ls = seq![vadd(entrance, loff), vadd(pos, loff)];
    let rs = seq![vadd(entrance, roff), vadd(pos, roff)];
    walk_loop(
        p,
        rooms,
        reps,
        s5,
        0,
        dir0,
        odir,
        loff,
        roff,
        oloff,
        oroff,
        pos,
        mids,
        ls,
        rs,
        room.id,
    )
}

/// The unordered pair of rooms a corridor joins.
pub open spec fn norm_pair(c: MapgenCorridor) -> (usize, usize) {
    if c.from <= c.to {
        (c.from, c.to)
    } else {
        (c.to, c.from)
    }
}

/// Lexicographic order on normalized pairs.
pub open spec fn pair_le(a: MapgenCorridor, b: MapgenCorridor) -> bool {
    ||| norm_pair(a).0 < norm_pair(b).0
    ||| (norm_pair(a).0 == norm_pair(b).0 && norm_pair(a).1 <= norm_pair(b).1)
}

/// Ordered by normalized pair.
pub open spec fn sorted_pairs(cs: Seq<MapgenCorridor>) -> bool {
    forall|i: int, j: int| 0 <= i < j < cs.len() ==> pair_le(#[trigger] cs[i], #[trigger] cs[j])
}

/// No two corridors join the same unordered pair of rooms.
pub open spec fn distinct_pairs(cs: Seq<MapgenCorridor>) -> bool {
    forall|i: int, j: int|
        0 <= i < j < cs.len() ==> norm_pair(#[trigger] cs[i]) != norm_pair(#[trigger] cs[j])
}

/// Whether `p` and `q` are within 1.1 grid steps of each other (Euclidean):
/// the squared distance, scaled by 100, is at most `121 * g * g`.
pub open spec fn near(p: Vec2i, q: Vec2i, g: int) -> bool {
    100 * ((p.x - q.x) * (p.x - q.x) + (p.y - q.y) * (p.y - q.y)) <= 121 * (g * g)
}

/// Decide `near` on point values.
fn point_near(p: Vec2i, q: Vec2i, g: i64) -> (r: bool)
    requires
        p.in_bounds(POS_LIMIT as int),
        q.in_bounds(POS_LIMIT as int),
        1 <= g <= COORD_LIMIT,
    ensures
        r == near(p, q, g as int),
{
    let dx = (p.x as i128) - (q.x as i128);
    let dy = (p.y as i128) - (q.y as i128);
    proof {
        assert(dx * dx + dy * dy <= 0x10000000000000000000000000000i128 && 0 <= dx * dx && 0 <= dy
            * dy) by (nonlinear_arith)
            requires
                -6_000_000_000_000 <= dx <= 6_000_000_000_000,
                -6_000_000_000_000 <= dy <= 6_000_000_000_000,
        ;
        assert((g as i128) * (g as i128) <= 0x10000000000000000i128 && 0 <= (g as i128) * (
        g as i128)) by (nonlinear_arith)
            requires
                1 <= g <= 1_000_000,
        ;
    }
    let d2 = dx * dx + dy * dy;
    let gg = (g as i128) * (g as i128);
    proof {
        assert(d2 == (p.x - q.x) * (p.x - q.x) + (p.y - q.y) * (p.y - q.y)) by (nonlinear_arith)
            requires
                dx == p.x - q.x,
                dy == p.y - q.y,
                d2 == dx * dx + dy * dy,
        ;
        assert(gg == g * g) by (nonlinear_arith)
            requires
                gg == (g as i128) * (g as i128),
                1 <= g <= 1_000_000,
        ;
    }
    100 * d2 <= 121 * gg
}

/// Whether `pos` comes near any centerline point of an already accepted
/// corridor.
fn hits_existing(corridors: &Vec<MapgenCorridor>, pos: Vec2i, g: i64) -> (r: bool)
    requires
        pos.in_bounds(POS_LIMIT as int),
        1 <= g <= COORD_LIMIT,
        forall|i: int|
            0 <= i < corridors@.len() ==> corridor_points_bounded(#[trigger] corridors@[i]),
    ensures
        r == near_any(reps_of(corridors@), pos, g as int),
{
    let mut i: usize = 0;
    while i < corridors.len()
        invariant
            pos.in_bounds(POS_LIMIT as int),
            1 <= g <= COORD_LIMIT,
            forall|m: int|
                0 <= m < corridors@.len() ==> corridor_points_bounded(#[trigger] corridors@[m]),
            i <= corridors@.len(),
            forall|m: int, k: int|
                0 <= m < i && 0 <= k < corridors@[m].midpoints@.len() ==> !near(
                    #[trigger] corridors@[m].midpoints@[k],
                    pos,
                    g as int,
                ),
        decreases corridors@.len() - i,
    {
        let mids = &corridors[i].midpoints;
        let mut k: usize = 0;
        while k < mids.len()
            invariant
                pos.in_bounds(POS_LIMIT as int),
                1 <= g <= COORD_LIMIT,
                0 <= i < corridors@.len(),
                mids == &corridors@[i as int].midpoints,
                corridor_points_bounded(corridors@[i as int]),
                k <= mids@.len(),
                forall|m: int|
                    0 <= m < k ==> !near(#[trigger] mids@[m], pos, g as int),
            decreases mids@.len() - k,
        {
            if point_near(mids[k], pos, g) {
                proof {
                    assert(reps_of(corridors@)[i as int].midpoints == corridors@[i as int].midpoints@);
                    assert(near_any(reps_of(corridors@), pos, g as int));
                }
                return true;
            }
            k += 1;
        }
        i += 1;
    }
    proof {
        assert forall|m: int, k: int|
            0 <= m < corridors@.len() && 0 <= k < reps_of(corridors@)[m].midpoints.len() implies !near(
            reps_of(corridors@)[m].midpoints[k],
            pos,
            g as int,
        ) by {
            assert(reps_of(corridors@)[m].midpoints == corridors@[m].midpoints@);
        }
    }
    false
}

/// Unfold `spec_carve_one` to the walk it starts, phrased over the values
/// the carving code computes.
proof fn lemma_carve_prelude(
    p: MapgenParams,
    rooms: Seq<MapgenRoom>,
    reps: Seq<CorridorRep>,
    s0: u128,
    room: MapgenRoom,
    dir0: Dir,
    entrance: Vec2i,
    odir: Dir,
    loff: Vec2i,
    roff: Vec2i,
    oloff: Vec2i,
    oroff: Vec2i,
    pos: Vec2i,
    mids: Seq<Vec2i>,
    ls: Seq<Vec2i>,
    rs: Seq<Vec2i>,
)
    requires
        rooms.len() >= 1,
        0 <= draw_value(s0, 0, rooms.len() - 1) < rooms.len(),
        room == rooms[draw_value(s0, 0, rooms.len() - 1)],
        dir0 == ({
            let dd = draw_value(pcg_advance(s0), 0, 3);
            if dd == 0 {
                Dir::PosX
            } else if dd == 1 {
                Dir::PosY
            } else if dd == 2 {
                Dir::NegX
            } else {
                Dir::NegY
            }
        }),
        entrance == ({
            let g = p.grid_size as int;
            let half = g / 2;
            let ox = draw_value(
                pcg_advance(pcg_advance(s0)),
                0,
                room.rect.max.x - room.rect.min.x,
            );
            let oy = draw_value(
                pcg_advance(pcg_advance(pcg_advance(s0))),
                0,
                room.rect.max.y - room.rect.min.y,
            );
            let ex = round_mult(room.rect.min.x + ox - half, g) + half;
            let ey = round_mult(room.rect.min.y + oy - half, g) + half;
            match dir0 {
                Dir::PosX => Vec2i { x: room.rect.max.x, y: ey as i64 },
                Dir::NegX => Vec2i { x: room.rect.min.x, y: ey as i64 },
                Dir::PosY => Vec2i { x: ex as i64, y: room.rect.max.y },
                Dir::NegY => Vec2i { x: ex as i64, y: room.rect.min.y },
            }
        }),
        odir == ({
            let tl = draw_value(pcg_advance(pcg_advance(pcg_advance(pcg_advance(s0)))), 0, 1);
            if tl == 1 {
                dir0.spec_rot_left()
            } else {
                dir0.spec_rot_right()
            }
        }),
        loff == dir0.spec_rot_left().spec_step(p.corridor_width as int / 2),
        roff == dir0.spec_rot_right().spec_step(p.corridor_width as int / 2),
        oloff == odir.spec_rot_left().spec_step(p.corridor_width as int / 2),
        oroff == odir.spec_rot_right().spec_step(p.corridor_width as int / 2),
        pos == vadd(entrance, dir0.spec_step(p.grid_size as int / 2)),
        mids == seq![entrance, pos],
        ls == seq![vadd(entrance, loff), vadd(pos, loff)],
        rs == seq![vadd(entrance, roff), vadd(pos, roff)],
    ensures
        spec_carve_one(p, rooms, reps, s0) == walk_loop(
            p,
            rooms,
            reps,
            pcg_advance(pcg_advance(pcg_advance(pcg_advance(pcg_advance(s0))))),
            0,
            dir0,
            odir,
            loff,
            roff,
            oloff,
            oroff,
            pos,
            mids,
            ls,
            rs,
            room.id,
        ),
{
    reveal(spec_carve_one);
}

/// The carving pass, as a function of the stream state: every attempt either
/// adds one corridor (which later attempts must then avoid) or nothing.
pub open spec fn carve_loop(
    p: MapgenParams,
    rooms: Seq<MapgenRoom>,
    s: u128,
    attempt: int,
    acc: Seq<CorridorRep>,
) -> (Seq<CorridorRep>, u128)
    decreases CARVE_ATTEMPTS - attempt,
{
    if attempt < 0 || attempt >= CARVE_ATTEMPTS {
        (acc, s)
    } else {
        let res = spec_carve_one(p, rooms, acc, s);
        match res.0 {
            Some(rep) => carve_loop(p, rooms, res.1, attempt + 1, acc.push(rep)),
            None => carve_loop(p, rooms, res.1, attempt + 1, acc),
        }
    }
}

/// The unordered pair a rep joins.
pub open spec fn norm_pair_rep(c: CorridorRep) -> (usize, usize) {
    if c.from <= c.to {
        (c.from, c.to)
    } else {
        (c.to, c.from)
    }
}

/// Lexicographic order on rep pairs.
pub open spec fn rep_pair_le(a: CorridorRep, b: CorridorRep) -> bool {
    ||| norm_pair_rep(a).0 < norm_pair_rep(b).0
    ||| (norm_pair_rep(a).0 == norm_pair_rep(b).0 && norm_pair_rep(a).1 <= norm_pair_rep(b).1)
}

/// The index the minimum scan settles on, starting from candidate `mi` at
/// position `i`.
pub open spec fn min_scan(cs: Seq<CorridorRep>, mi: int, i: int) -> int
    decreases cs.len() - i,
{
    if i < 0 || i >= cs.len() {
        mi
    } else {
        min_scan(
            cs,
            if !rep_pair_le(cs[mi], cs[i]) {
                i
            } else {
                mi
            },
            i + 1,
        )
    }
}

/// Deduplication, as a function of the corridor list: repeatedly move the
/// corridor with the smallest pair over, skipping it when its pair is
/// already represented.
pub open spec fn spec_dedup_loop(out: Seq<CorridorRep>, rest: Seq<CorridorRep>) -> Seq<CorridorRep>
    decreases rest.len(),
{
    if rest.len() == 0 {
        out
    } else {
        let mi0 = min_scan(rest, 0, 1);
        let mi = if 0 <= mi0 < rest.len() {
            mi0
        } else {
            0
        };
        let c = rest[mi];
        let keep = out.len() == 0 || norm_pair_rep(out.last()) != norm_pair_rep(c);
        spec_dedup_loop(
            if keep {
                out.push(c)
            } else {
                out
            },
            rest.remove(mi),
        )
    }
}

/// What `generate_corridors` returns, and the stream state it leaves behind,
/// as a function of the parameters, the rooms and the starting state:
/// carving is deterministic given the seeded stream.
pub open spec fn spec_generate_corridors(p: MapgenParams, rooms: Seq<MapgenRoom>, s: u128) -> (
    Seq<CorridorRep>,
    u128,
) {
    let raw = carve_loop(p, rooms, s, 0, Seq::empty());
    (spec_dedup_loop(Seq::empty(), raw.0), raw.1)
}

/// Decide `pair_le` on corridor values.
fn pair_le_exec(a: &MapgenCorridor, b: &MapgenCorridor) -> (r: bool)
    ensures
        r == pair_le(*a, *b),
{
    let a0 = if a.from <= a.to {
        a.from
    } else {
        a.to
    };
    let a1 = if a.from <= a.to {
        a.to
    } else {
        a.from
    };
    let b0 = if b.from <= b.to {
        b.from
    } else {
        b.to
    };
    let b1 = if b.from <= b.to {
        b.to
    } else {
        b.from
    };
    a0 < b0 || (a0 == b0 && a1 <= b1)
}

/// The index of a corridor whose normalized pair is minimal.
fn min_pair_index(cs: &Vec<MapgenCorridor>) -> (mi: usize)
    requires
        cs@.len() >= 1,
    ensures
        0 <= mi < cs@.len(),
        forall|k: int| 0 <= k < cs@.len() ==> pair_le(cs@[mi as int], #[trigger] cs@[k]),
        mi as int == min_scan(reps_of(cs@), 0, 1),
{
    let mut mi: usize = 0;
    let mut i: usize = 1;
    while i < cs.len()
        invariant
            cs@.len() >= 1,
            0 <= mi < i,
            i <= cs@.len(),
            forall|k: int| 0 <= k < i ==> pair_le(cs@[mi as int], #[trigger] cs@[k]),
            min_scan(reps_of(cs@), 0, 1) == min_scan(reps_of(cs@), mi as int, i as int),
        decreases cs@.len() - i,
    {
        proof {
            assert(reps_of(cs@)[mi as int] == corridor_rep(cs@[mi as int]));
            assert(reps_of(cs@)[i as int] == corridor_rep(cs@[i as int]));
        }
        if !pair_le_exec(&cs[mi], &cs[i]) {
            mi = i;
        }
        i += 1;
    }
    mi
}

/// Whether `c` occurs (by value) in `s`.
pub open spec fn in_seq(c: MapgenCorridor, s: Seq<MapgenCorridor>) -> bool {
    exists|j: int| 0 <= j < s.len() && c == s[j]
}

/// Whether some corridor of `s` joins the same unordered pair as `c`.
pub open spec fn pair_in_seq(c: MapgenCorridor, s: Seq<MapgenCorridor>) -> bool {
    exists|i: int| 0 <= i < s.len() && norm_pair(c) == norm_pair(s[i])
}

/// The invariant of the deduplication loop: `out` is sorted with pairwise
/// distinct normalized pairs and precedes everything still in `rest`; both
/// hold only corridors of `input0`; and every corridor of `input0` is
/// represented in `out` by its pair or still present in `rest`.
#[verifier::opaque]
spec fn dedup_inv(
    input0: Seq<MapgenCorridor>,
    out: Seq<MapgenCorridor>,
    rest: Seq<MapgenCorridor>,
) -> bool {
    &&& sorted_pairs(out)
    &&& distinct_pairs(out)
    &&& forall|a: int, b: int|
        0 <= a < out.len() && 0 <= b < rest.len() ==> pair_le(#[trigger] out[a], #[trigger] rest[b])
    &&& forall|i: int| 0 <= i < out.len() ==> in_seq(#[trigger] out[i], input0)
    &&& forall|b: int| 0 <= b < rest.len() ==> in_seq(#[trigger] rest[b], input0)
    &&& forall|j: int|
        0 <= j < input0.len() ==> pair_in_seq(#[trigger] input0[j], out) || in_seq(
            input0[j],
            rest,
        )
}

proof fn lemma_dedup_init(input0: Seq<MapgenCorridor>)
    ensures
        dedup_inv(input0, Seq::empty(), input0),
{
    reveal(dedup_inv);
    assert forall|j: int| 0 <= j < input0.len() implies in_seq(#[trigger] input0[j], input0) by {
        assert(input0[j] == input0[j]);
    }
}

proof fn lemma_dedup_keep(
    input0: Seq<MapgenCorridor>,
    out: Seq<MapgenCorridor>,
    rest: Seq<MapgenCorridor>,
    mi: int,
)
    requires
        dedup_inv(input0, out, rest),
        0 <= mi < rest.len(),
        forall|k: int| 0 <= k < rest.len() ==> pair_le(rest[mi], #[trigger] rest[k]),
        out.len() == 0 || norm_pair(out[out.len() - 1]) != norm_pair(rest[mi]),
    ensures
        dedup_inv(input0, out.push(rest[mi]), rest.remove(mi)),
{
    reveal(dedup_inv);
    rest.remove_ensures(mi);
    let c = rest[mi];
    let out1 = out.push(c);
    let rest1 = rest.remove(mi);
    assert forall|i: int, j: int| 0 <= i < j < out1.len() implies pair_le(
        #[trigger] out1[i],
        #[trigger] out1[j],
    ) by {
        if j < out.len() {
            assert(out1[i] == out[i] && out1[j] == out[j]);
        } else {
            assert(out1[j] == c);
            assert(out1[i] == out[i]);
            assert(pair_le(out[i], rest[mi]));
        }
    }
    assert forall|i: int, j: int| 0 <= i < j < out1.len() implies norm_pair(#[trigger] out1[i])
        != norm_pair(#[trigger] out1[j]) by {
        if j < out.len() {
            assert(out1[i] == out[i] && out1[j] == out[j]);
        } else {
            assert(out1[j] == c);
            assert(out1[i] == out[i]);
            let last = out[out.len() - 1];
            if i < out.len() - 1 {
                assert(pair_le(out[i], last));
            }
            assert(pair_le(last, c));
            assert(norm_pair(last) != norm_pair(c));
        }
    }
    assert forall|a: int, b: int| 0 <= a < out1.len() && 0 <= b < rest1.len() implies pair_le(
        #[trigger] out1[a],
        #[trigger] rest1[b],
    ) by {
        let rb = if b < mi {
            rest[b]
        } else {
            rest[b + 1]
        };
        assert(rest1[b] == rb);
        if a < out.len() {
            assert(out1[a] == out[a]);
            assert(pair_le(out[a], rb));
        } else {
            assert(out1[a] == c);
            assert(pair_le(c, rb));
        }
    }
    assert forall|i: int| 0 <= i < out1.len() implies in_seq(#[trigger] out1[i], input0) by {
        if i < out.len() {
            assert(out1[i] == out[i]);
            assert(in_seq(out[i], input0));
        } else {
            assert(out1[i] == c);
            assert(in_seq(c, input0));
        }
    }
    assert forall|b: int| 0 <= b < rest1.len() implies in_seq(#[trigger] rest1[b], input0) by {
        let bb: int = if b < mi {
            b
        } else {
            b + 1
        };
        assert(rest1[b] == rest[bb]);
        assert(in_seq(rest[bb], input0));
    }
    assert forall|j: int| 0 <= j < input0.len() implies pair_in_seq(#[trigger] input0[j], out1)
        || in_seq(input0[j], rest1) by {
        if pair_in_seq(input0[j], out) {
            let i = choose|i: int| 0 <= i < out.len() && norm_pair(input0[j]) == norm_pair(out[i]);
            assert(out1[i] == out[i]);
            assert(pair_in_seq(input0[j], out1));
        } else {
            let b = choose|b: int| 0 <= b < rest.len() && input0[j] == rest[b];
            if b == mi {
                let i = out1.len() - 1;
                assert(out1[i] == c);
                assert(pair_in_seq(input0[j], out1));
            } else {
                let bb: int = if b < mi {
                    b
                } else {
                    b - 1
                };
                assert(rest1[bb] == rest[b]);
                assert(in_seq(input0[j], rest1));
            }
        }
    }
}

proof fn lemma_dedup_drop(
    input0: Seq<MapgenCorridor>,
    out: Seq<MapgenCorridor>,
    rest: Seq<MapgenCorridor>,
    mi: int,
)
    requires
        dedup_inv(input0, out, rest),
        0 <= mi < rest.len(),
        out.len() > 0,
        norm_pair(out[out.len() - 1]) == norm_pair(rest[mi]),
    ensures
        dedup_inv(input0, out, rest.remove(mi)),
{
    reveal(dedup_inv);
    rest.remove_ensures(mi);
    let rest1 = rest.remove(mi);
    assert forall|a: int, b: int| 0 <= a < out.len() && 0 <= b < rest1.len() implies pair_le(
        #[trigger] out[a],
        #[trigger] rest1[b],
    ) by {
        let rb = if b < mi {
            rest[b]
        } else {
            rest[b + 1]
        };
        assert(rest1[b] == rb);
        assert(pair_le(out[a], rb));
    }
    assert forall|b: int| 0 <= b < rest1.len() implies in_seq(#[trigger] rest1[b], input0) by {
        let bb: int = if b < mi {
            b
        } else {
            b + 1
        };
        assert(rest1[b] == rest[bb]);
        assert(in_seq(rest[bb], input0));
    }
    assert forall|j: int| 0 <= j < input0.len() implies pair_in_seq(#[trigger] input0[j], out)
        || in_seq(input0[j], rest1) by {
        if !pair_in_seq(input0[j], out) {
            let b = choose|b: int| 0 <= b < rest.len() && input0[j] == rest[b];
            if b == mi {
                let i = out.len() - 1;
                assert(norm_pair(input0[j]) == norm_pair(out[i]));
                assert(pair_in_seq(input0[j], out));
            } else {
                let bb: int = if b < mi {
                    b
                } else {
                    b - 1
                };
                assert(rest1[bb] == rest[b]);
                assert(in_seq(input0[j], rest1));
            }
        }
    }
}

proof fn lemma_dedup_final(
    input0: Seq<MapgenCorridor>,
    out: Seq<MapgenCorridor>,
    rest: Seq<MapgenCorridor>,
)
    requires
        dedup_inv(input0, out, rest),
        rest.len() == 0,
    ensures
        sorted_pairs(out),
        distinct_pairs(out),
        forall|i: int| 0 <= i < out.len() ==> in_seq(#[trigger] out[i], input0),
        forall|j: int| 0 <= j < input0.len() ==> pair_in_seq(#[trigger] input0[j], out),
{
    reveal(dedup_inv);
    assert forall|j: int| 0 <= j < input0.len() implies pair_in_seq(
        #[trigger] input0[j],
        out,
    ) by {
        if in_seq(input0[j], rest) {
            let b = choose|b: int| 0 <= b < rest.len() && input0[j] == rest[b];
            assert(false);
        }
    }
}

/// Decide whether two corridors join the same unordered room pair.
fn same_pair(a: &MapgenCorridor, b: &MapgenCorridor) -> (r: bool)
    ensures
        r == (norm_pair(*a) == norm_pair(*b)),
{
    let a0 = if a.from <= a.to {
        a.from
    } else {
        a.to
    };
    let a1 = if a.from <= a.to {
        a.to
    } else {
        a.from
    };
    let b0 = if b.from <= b.to {
        b.from
    } else {
        b.to
    };
    let b1 = if b.from <= b.to {
        b.to
    } else {
        b.from
    };
    a0 == b0 && a1 == b1
}

/// Collapse the corridor list to at most one corridor per unordered room
/// pair: corridors are taken in normalized-pair order, and of corridors
/// joining the same pair only the earliest carved one is kept.
fn dedup_corridors(input: Vec<MapgenCorridor>) -> (out: Vec<MapgenCorridor>)
    ensures
        sorted_pairs(out@),
        distinct_pairs(out@),
        forall|i: int| 0 <= i < out@.len() ==> in_seq(#[trigger] out@[i], input@),
        forall|j: int| 0 <= j < input@.len() ==> pair_in_seq(#[trigger] input@[j], out@),
        reps_of(out@) == spec_dedup_loop(Seq::empty(), reps_of(input@)),
{
    let ghost input0 = input@;
    let mut rest = input;
    let mut out: Vec<MapgenCorridor> = Vec::new();
    proof {
        lemma_dedup_init(input0);
        assert(out@ =~= Seq::<MapgenCorridor>::empty());
        assert(rest@ =~= input0);
    }
    proof {
        assert(reps_of(out@) =~= Seq::<CorridorRep>::empty());
    }
    while rest.len() > 0
        invariant
            dedup_inv(input0, out@, rest@),
            spec_dedup_loop(Seq::empty(), reps_of(input0)) == spec_dedup_loop(
                reps_of(out@),
                reps_of(rest@),
            ),
        decreases rest@.len(),
    {
        let ghost rest0 = rest@;
        let ghost out0 = out@;
        let mi = min_pair_index(&rest);
        let keep = if out.len() == 0 {
            true
        } else {
            !same_pair(&out[out.len() - 1], &rest[mi])
        };
        let c = rest.remove(mi);
        proof {
            rest0.remove_ensures(mi as int);
            reps_of(rest0).remove_ensures(mi as int);
            assert(reps_of(rest0)[mi as int] == corridor_rep(rest0[mi as int]));
            assert forall|k: int| 0 <= k < reps_of(rest@).len() implies reps_of(rest@)[k]
                == reps_of(rest0).remove(mi as int)[k] by {
                if k < mi {
                    assert(rest@[k] == rest0[k]);
                    assert(reps_of(rest0).remove(mi as int)[k] == reps_of(rest0)[k]);
                } else {
                    assert(rest@[k] == rest0[k + 1]);
                    assert(reps_of(rest0).remove(mi as int)[k] == reps_of(rest0)[k + 1]);
                }
            }
            assert(reps_of(rest@) =~= reps_of(rest0).remove(mi as int));
            if out0.len() > 0 {
                assert(reps_of(out0)[out0.len() - 1] == corridor_rep(out0[out0.len() - 1]));
            }
        }
        if keep {
            proof {
                lemma_dedup_keep(input0, out0, rest0, mi as int);
            }
            out.push(c);
            proof {
                assert(out@ =~= out0.push(c));
                assert(reps_of(out@) =~= reps_of(out0).push(corridor_rep(c)));
            }
        } else {
            proof {
                lemma_dedup_drop(input0, out0, rest0, mi as int);
            }
        }
    }
    proof {
        lemma_dedup_final(input0, out@, rest@);
        assert(reps_of(rest@) =~= Seq::<CorridorRep>::empty());
    }
    out
}

/// Attempt one corridor walk: pick a room, a direction and an entrance on
/// the room's facing edge, then step outward, turning between the initial
/// direction and one fixed perpendicular, until the walk steps into a room
/// (a corridor, if not too short), comes near an accepted corridor, or runs
/// out of steps (no corridor).
#[verifier::rlimit(100)]
fn carve_one(
    context: &mut MapgenContext,
    rooms: &Vec<MapgenRoom>,
    existing: &Vec<MapgenCorridor>,
) -> (r: Option<MapgenCorridor>)
    requires
        old(context).params.bounded(),
        rooms@.len() >= 1,
        forall|i: int|
            0 <= i < rooms@.len() ==> room_in_map(
                #[trigger] rooms@[i],
                old(context).params.map_size,
                old(context).params.grid_size as int,
            ),
        forall|i: int|
            0 <= i < existing@.len() ==> corridor_points_bounded(#[trigger] existing@[i]),
    ensures
        final(context).params == old(context).params,
        match r {
            Some(c) => corridor_wf(c, rooms@, old(context).params),
            None => true,
        },
        final(context).rng@ == spec_carve_one(
            old(context).params,
            rooms@,
            reps_of(existing@),
            old(context).rng@,
        ).1,
        match r {
            Some(c) => spec_carve_one(
                old(context).params,
                rooms@,
                reps_of(existing@),
                old(context).rng@,
            ).0 == Some(corridor_rep(c)),
            None => spec_carve_one(
                old(context).params,
                rooms@,
                reps_of(existing@),
                old(context).rng@,
            ).0 == None::<CorridorRep>,
        },
{
    let ghost expected = spec_carve_one(
        context.params,
        rooms@,
        reps_of(existing@),
        context.rng@,
    );
    let g = context.params.grid_size;
    let w = context.params.corridor_width;
    let half = ((g as u64) / 2) as i64;
    let wh = ((w as u64) / 2) as i64;
    let min_steps = context.params.corridor_length.start;
    let max_steps = context.params.corridor_length.end;

    // the room to start from
    let room_idx = context.rng.next_inclusive(0, (rooms.len() - 1) as u64) as usize;
    let room = rooms[room_idx];

    // the direction to start in
    let dir_draw = context.rng.next_inclusive(0, 3);
    let dir0: Dir = if dir_draw == 0 {
        Dir::PosX
    } else if dir_draw == 1 {
        Dir::PosY
    } else if dir_draw == 2 {
        Dir::NegX
    } else {
        Dir::NegY
    };

    // a random point inside the room, snapped onto the center of a cell
    let ox = context.rng.next_i64_inclusive(0, room.rect.width());
    let oy = context.rng.next_i64_inclusive(0, room.rect.height());
    let ex = crate::geom::round_to_offset(room.rect.min.x + ox, g, half);
    let ey = crate::geom::round_to_offset(room.rect.min.y + oy, g, half);
    let mut entrance = Vec2i { x: ex, y: ey };

    // move the entrance onto the room edge facing the walk direction
    match dir0 {
        Dir::PosX => {
            entrance.x = room.rect.max.x;
        },
        Dir::NegX => {
            entrance.x = room.rect.min.x;
        },
        Dir::PosY => {
            entrance.y = room.rect.max.y;
        },
        Dir::NegY => {
            entrance.y = room.rect.min.y;
        },
    }

    // the only other direction this walk may use, so there are no U-turns
    let turn_left = context.rng.next_inclusive(0, 1) == 1;
    let mut dir = dir0;
    let mut other_dir = if turn_left {
        dir0.rot_left()
    } else {
        dir0.rot_right()
    };

    // wall offsets for the current and the other direction
    let mut left_off = dir.rot_left().step(wh);
    let mut right_off = dir.rot_right().step(wh);
    let mut other_left_off = other_dir.rot_left().step(wh);
    let mut other_right_off = other_dir.rot_right().step(wh);

    // the crawling position, half a step out of the room
    let mut pos = entrance.add(dir.step(half));

    let mut midpoints: Vec<Vec2i> = Vec::new();
    midpoints.push(entrance);
    midpoints.push(pos);
    let mut left: Vec<Vec2i> = Vec::new();
    left.push(entrance.add(left_off));
    left.push(pos.add(left_off));
    let mut right: Vec<Vec2i> = Vec::new();
    right.push(entrance.add(right_off));
    right.push(pos.add(right_off));

    proof {
        assert(midpoints@ =~= seq![entrance, pos]);
        assert(left@ =~= seq![vadd(entrance, left_off), vadd(pos, left_off)]);
        assert(right@ =~= seq![vadd(entrance, right_off), vadd(pos, right_off)]);
        lemma_carve_prelude(
            context.params,
            rooms@,
            reps_of(existing@),
            old(context).rng@,
            room,
            dir0,
            entrance,
            other_dir,
            left_off,
            right_off,
            other_left_off,
            other_right_off,
            pos,
            midpoints@,
            left@,
            right@,
        );
        assert(expected == walk_loop(
            context.params,
            rooms@,
            reps_of(existing@),
            context.rng@,
            0,
            dir,
            other_dir,
            left_off,
            right_off,
            other_left_off,
            other_right_off,
            pos,
            midpoints@,
            left@,
            right@,
            room.id,
        ));
    }
    let mut step: usize = 0;
    while step < max_steps
        invariant
            expected == spec_carve_one(
                old(context).params,
                rooms@,
                reps_of(existing@),
                old(context).rng@,
            ),
            min_steps == context.params.corridor_length.start,
            expected == walk_loop(
                context.params,
                rooms@,
                reps_of(existing@),
                context.rng@,
                step as int,
                dir,
                other_dir,
                left_off,
                right_off,
                other_left_off,
                other_right_off,
                pos,
                midpoints@,
                left@,
                right@,
                room.id,
            ),
            context.params == old(context).params,
            context.params.bounded(),
            g == context.params.grid_size,
            half == g as int / 2,
            0 <= wh <= 500_000,
            max_steps == context.params.corridor_length.end,
            max_steps <= 1_000_000,
            step <= max_steps,
            rooms@.len() >= 1,
            forall|i: int|
                0 <= i < rooms@.len() ==> room_in_map(
                    #[trigger] rooms@[i],
                    context.params.map_size,
                    g as int,
                ),
            forall|i: int|
                0 <= i < existing@.len() ==> corridor_points_bounded(#[trigger] existing@[i]),
            0 <= room_idx < rooms@.len(),
            room == rooms@[room_idx as int],
            edge_matches(dir0, entrance, room.rect),
            lateral_on_edge(dir0, entrance, room.rect, g as int),
            entrance.in_bounds(3_000_000),
            left_off.in_bounds(1_000_000),
            right_off.in_bounds(1_000_000),
            other_left_off.in_bounds(1_000_000),
            other_right_off.in_bounds(1_000_000),
            midpoints@.len() == left@.len(),
            midpoints@.len() == right@.len(),
            midpoints@.len() >= 2,
            midpoints@[0] == entrance,
            midpoints@[1] == translated(entrance, dir0, g as int / 2),
            pos.in_bounds(3_000_000 + (step + 2) * 1_000_000),
            forall|k: int|
                0 <= k < midpoints@.len() ==> (#[trigger] midpoints@[k]).in_bounds(
                    3_000_000 + (step + 2) * 1_000_000,
                ),
            left@[left@.len() - 1].in_bounds(3_000_000 + (step + 3) * 1_000_000),
            right@[right@.len() - 1].in_bounds(3_000_000 + (step + 3) * 1_000_000),
        decreases max_steps - step,
    {
        let ghost s_top = context.rng@;
        let ghost dir_top = dir;
        let ghost odir_top = other_dir;
        let ghost loff_top = left_off;
        let ghost roff_top = right_off;
        let ghost oloff_top = other_left_off;
        let ghost oroff_top = other_right_off;
        let ghost ls_top = left@;
        let ghost rs_top = right@;
        // randomly decide to turn: swap the directions and wall offsets, and
        // nudge the most recent wall points by the new offsets so the wall
        // polylines wrap the corner
        let turning = context.rng.next_ratio(2, 10);
        if turning {
            let td = dir;
            dir = other_dir;
            other_dir = td;
            let tl = left_off;
            left_off = other_left_off;
            other_left_off = tl;
            let tr = right_off;
            right_off = other_right_off;
            other_right_off = tr;

            let lp = left.pop().unwrap();
            left.push(lp.add(left_off));
            let rp = right.pop().unwrap();
            right.push(rp.add(right_off));
            proof {
                assert(left@ =~= ls_top.update(ls_top.len() - 1, vadd(ls_top.last(), left_off)));
                assert(right@ =~= rs_top.update(rs_top.len() - 1, vadd(rs_top.last(), right_off)));
            }
        }
        proof {
            lemma_walk_unfold(
                context.params,
                rooms@,
                reps_of(existing@),
                s_top,
                step as int,
                dir_top,
                odir_top,
                loff_top,
                roff_top,
                oloff_top,
                oroff_top,
                pos,
                midpoints@,
                ls_top,
                rs_top,
                room.id,
                turning,
                dir,
                other_dir,
                left_off,
                right_off,
                other_left_off,
                other_right_off,
                left@,
                right@,
                vadd(pos, dir.spec_step(context.params.grid_size as int)),
            );
        }
        // drop this walk if it comes near a corridor accepted earlier
        if hits_existing(existing, pos, g) {
            proof {
                assert(expected == (None::<CorridorRep>, context.rng@));
            }
            return None;
        }
        // move along the current direction
        pos = pos.add(dir.step(g));

        // if we stepped into a room, the walk ends here
        match room_containing(rooms, pos) {
            Some(hit_id) => {
                if step < min_steps {
                    // too short to be interesting
                    proof {
                        assert(expected == (None::<CorridorRep>, context.rng@));
                    }
                    return None;
                }
                // soften the final corner: the last centerline point sits
                // half a step back from the room hit
                let fin = pos.add(dir.opposite().step(half));
                midpoints.push(fin);
                left.push(fin.add(left_off));
                right.push(fin.add(right_off));
                let c = MapgenCorridor {
                    from: room.id,
                    to: hit_id,
                    entrance,
                    midpoints,
                    left,
                    right,
                };
                proof {
                    assert(expected == (Some(corridor_rep(c)), context.rng@));
                    assert(c.midpoints@.len() >= 3);
                    assert(has_room_id(rooms@, c.from));
                    assert(has_room_id(rooms@, c.to));
                    assert(0 <= room_idx < rooms@.len() && rooms@[room_idx as int].id == c.from
                        && edge_matches(dir0, c.entrance, rooms@[room_idx as int].rect)
                        && lateral_on_edge(dir0, c.entrance, rooms@[room_idx as int].rect, g as int)
                        && c.midpoints@[1] == translated(c.entrance, dir0, g as int / 2));
                    assert(entrance_on_edge(c, rooms@, context.params.grid_size as int));
                    assert(corridor_points_bounded(c));
                    assert(corridor_wf(c, rooms@, context.params));
                }
                return Some(c);
            },
            None => {
                midpoints.push(pos);
                left.push(pos.add(left_off));
                right.push(pos.add(right_off));
            },
        }
        step += 1;
    }
    // the walk ran out of steps without reaching a room
    proof {
        lemma_walk_done(
            context.params,
            rooms@,
            reps_of(existing@),
            context.rng@,
            step as int,
            dir,
            other_dir,
            left_off,
            right_off,
            other_left_off,
            other_right_off,
            pos,
            midpoints@,
            left@,
            right@,
            room.id,
        );
        assert(expected == (None::<CorridorRep>, context.rng@));
    }
    None
}

/// Carve corridors between the given rooms: up to `CARVE_ATTEMPTS`
/// independent walks, each yielding at most one corridor, followed by
/// deduplication so at most one corridor joins each unordered room pair.
/// Every returned corridor joins rooms from the list and leaves its origin
/// room exactly on the boundary edge facing its initial direction.
pub fn generate_corridors(context: &mut MapgenContext, rooms: &Vec<MapgenRoom>) -> (cs: Vec<
    MapgenCorridor,
>)
    requires
        old(context).params.bounded(),
        rooms@.len() >= 1,
        forall|i: int|
            0 <= i < rooms@.len() ==> room_in_map(
                #[trigger] rooms@[i],
                old(context).params.map_size,
                old(context).params.grid_size as int,
            ),
    ensures
        final(context).params == old(context).params,
        forall|i: int|
            0 <= i < cs@.len() ==> corridor_wf(#[trigger] cs@[i], rooms@, old(context).params),
        distinct_pairs(cs@),
        reps_of(cs@) == spec_generate_corridors(
            old(context).params,
            rooms@,
            old(context).rng@,
        ).0,
        final(context).rng@ == spec_generate_corridors(
            old(context).params,
            rooms@,
            old(context).rng@,
        ).1,
{
    let ghost s0 = context.rng@;
    let mut raw: Vec<MapgenCorridor> = Vec::new();
    proof {
        assert(reps_of(raw@) =~= Seq::<CorridorRep>::empty());
    }
    let mut attempt: usize = 0;
    while attempt < CARVE_ATTEMPTS
        invariant
            carve_loop(old(context).params, rooms@, s0, 0, Seq::empty()) == carve_loop(
                old(context).params,
                rooms@,
                context.rng@,
                attempt as int,
                reps_of(raw@),
            ),
            s0 == old(context).rng@,
            context.params == old(context).params,
            context.params.bounded(),
            rooms@.len() >= 1,
            forall|i: int|
                0 <= i < rooms@.len() ==> room_in_map(
                    #[trigger] rooms@[i],
                    context.params.map_size,
                    context.params.grid_size as int,
                ),
            forall|i: int|
                0 <= i < raw@.len() ==> corridor_wf(#[trigger] raw@[i], rooms@, context.params),
        decreases CARVE_ATTEMPTS - attempt,
    {
        proof {
            assert forall|i: int| 0 <= i < raw@.len() implies corridor_points_bounded(
                #[trigger] raw@[i],
            ) by {
                assert(corridor_wf(raw@[i], rooms@, context.params));
            }
        }
        let ghost raw_pre = raw@;
        match carve_one(context, rooms, &raw) {
            Some(c) => {
                raw.push(c);
                proof {
                    assert(reps_of(raw@) =~= reps_of(raw_pre).push(corridor_rep(c)));
                }
            },
            None => {},
        }
        attempt += 1;
    }
    let ghost raw0 = raw@;
    let cs = dedup_corridors(raw);
    proof {
        assert forall|i: int| 0 <= i < cs@.len() implies corridor_wf(
            #[trigger] cs@[i],
            rooms@,
            context.params,
        ) by {
            assert(in_seq(cs@[i], raw0));
            let j = choose|j: int| 0 <= j < raw0.len() && cs@[i] == raw0[j];
            assert(corridor_wf(raw0[j], rooms@, context.params));
        }
        assert(carve_loop(old(context).params, rooms@, context.rng@, CARVE_ATTEMPTS as int, reps_of(raw0))
            == (reps_of(raw0), context.rng@));
    }
    cs
}

/// The identifier of the first room whose rectangle contains `pos`, if any.
fn room_containing(rooms: &Vec<MapgenRoom>, pos: Vec2i) -> (r: Option<usize>)
    ensures
        r == room_hit(rooms@, pos),
        match r {
            Some(id) => exists|i: int|
                0 <= i < rooms@.len() && (#[trigger] rooms@[i]).id == id
                    && rooms@[i].rect.spec_contains(pos),
            None => forall|i: int|
                0 <= i < rooms@.len() ==> !(#[trigger] rooms@[i]).rect.spec_contains(pos),
        },
{
    proof {
        assert(rooms@.skip(0) =~= rooms@);
    }
    let mut i: usize = 0;
    while i < rooms.len()
        invariant
            i <= rooms@.len(),
            forall|m: int| 0 <= m < i ==> !(#[trigger] rooms@[m]).rect.spec_contains(pos),
            room_hit(rooms@, pos) == room_hit(rooms@.skip(i as int), pos),
        decreases rooms@.len() - i,
    {
        proof {
            assert(rooms@.skip(i as int)[0] == rooms@[i as int]);
        }
        if rooms[i].rect.contains(pos) {
            return Some(rooms[i].id);
        }
        proof {
            assert(rooms@.skip(i as int).skip(1) =~= rooms@.skip(i as int + 1));
        }
        i += 1;
    }
    None
}

} // verus!
