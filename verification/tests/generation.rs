use mapgen::connect::all_rooms_connected;
use mapgen::generate::{generate, MapgenError};
use mapgen::geom::{rects_padded_disjoint, Vec2i};
use mapgen::params::{CountRange, MapgenParams, Vec2Range};

fn params_for(seed: &str) -> MapgenParams {
    MapgenParams {
        map_size: Vec2i { x: 700, y: 700 },
        grid_size: 50,
        room_size: Vec2Range {
            start: Vec2i { x: 100, y: 100 },
            end: Vec2i { x: 250, y: 250 },
        },
        room_padding: 2,
        num_rooms: CountRange { start: 10, end: 20 },
        corridor_length: CountRange { start: 5, end: 10 },
        corridor_width: 40,
        seed: seed.to_string(),
    }
}

#[test]
fn one_room_no_corridors() {
    let params = MapgenParams {
        map_size: Vec2i { x: 200, y: 200 },
        grid_size: 50,
        room_size: Vec2Range {
            start: Vec2i { x: 100, y: 100 },
            end: Vec2i { x: 200, y: 200 },
        },
        room_padding: 0,
        num_rooms: CountRange { start: 1, end: 1 },
        corridor_length: CountRange { start: 1, end: 5 },
        corridor_width: 20,
        seed: "alpha".to_string(),
    };
    assert!(params.is_valid());
    let out = generate(params).expect("one room always fits");
    assert_eq!(out.rooms.len(), 1);
    assert_eq!(out.corridors.len(), 0);
    assert!(all_rooms_connected(&out.rooms, &out.corridors));
}

#[test]
fn two_far_rooms_one_corridor() {
    let params = MapgenParams {
        map_size: Vec2i { x: 800, y: 200 },
        grid_size: 50,
        room_size: Vec2Range {
            start: Vec2i { x: 200, y: 200 },
            end: Vec2i { x: 200, y: 200 },
        },
        room_padding: 2,
        num_rooms: CountRange { start: 2, end: 2 },
        corridor_length: CountRange { start: 1, end: 40 },
        corridor_width: 20,
        seed: "beta".to_string(),
    };
    assert!(params.is_valid());
    let out = generate(params).expect("two rooms and a corridor");
    assert_eq!(out.rooms.len(), 2);
    assert_eq!(out.corridors.len(), 1);
    let c = &out.corridors[0];
    assert_ne!(c.from, c.to);
}

#[test]
fn oversized_rooms_are_invalid() {
    let mut params = params_for("unused");
    params.room_size.end = Vec2i { x: 900, y: 200 };
    assert!(!params.is_valid());
    assert_eq!(generate(params), Err(MapgenError::InvalidParams));
}

#[test]
fn reversed_count_range_is_invalid() {
    let mut params = params_for("unused");
    params.num_rooms = CountRange { start: 5, end: 2 };
    assert!(!params.is_valid());
    assert_eq!(generate(params), Err(MapgenError::InvalidParams));
}

#[test]
fn zero_rooms_exhausts_retries() {
    let mut params = params_for("gamma");
    params.num_rooms = CountRange { start: 0, end: 0 };
    assert!(params.is_valid());
    assert_eq!(generate(params), Err(MapgenError::RetriesExhausted));
}

#[test]
fn same_seed_same_layout() {
    let a = generate(params_for("a fixed seed")).expect("generation succeeds");
    let b = generate(params_for("a fixed seed")).expect("generation succeeds");
    assert_eq!(a, b);
}

#[test]
fn different_seeds_differ() {
    let a = generate(params_for("seed one")).expect("generation succeeds");
    let b = generate(params_for("seed two")).expect("generation succeeds");
    // two different seeds giving bit-identical layouts would mean the seed
    // string is ignored
    assert!(a.rooms != b.rooms || a.corridors != b.corridors);
}

#[test]
fn random_seed_generates() {
    let out = generate(params_for("random")).expect("generation succeeds");
    assert!(out.rooms.len() >= 1);
    assert!(all_rooms_connected(&out.rooms, &out.corridors));
}

#[test]
fn output_rooms_keep_padded_clearance() {
    let out = generate(params_for("delta")).expect("generation succeeds");
    let k = (out.params.room_padding as i64) * out.params.grid_size;
    for i in 0..out.rooms.len() {
        for j in 0..out.rooms.len() {
            if i != j {
                assert!(rects_padded_disjoint(&out.rooms[i].rect, &out.rooms[j].rect, k));
            }
        }
    }
}

#[test]
fn output_room_count_bounded() {
    let out = generate(params_for("epsilon")).expect("generation succeeds");
    assert!(out.rooms.len() <= out.params.num_rooms.end);
    for w in out.rooms.windows(2) {
        assert!(w[0].id < w[1].id);
    }
    for room in &out.rooms {
        assert!(room.rect.min.x >= 0 && room.rect.min.y >= 0);
        assert!(room.rect.max.x <= out.params.map_size.x + out.params.grid_size);
        assert!(room.rect.max.y <= out.params.map_size.y + out.params.grid_size);
    }
}

#[test]
fn output_is_connected() {
    let out = generate(params_for("zeta")).expect("generation succeeds");
    assert!(all_rooms_connected(&out.rooms, &out.corridors));
}

#[test]
fn output_corridor_pairs_distinct() {
    let out = generate(params_for("eta")).expect("generation succeeds");
    let norm = |from: usize, to: usize| if from <= to { (from, to) } else { (to, from) };
    for i in 0..out.corridors.len() {
        for j in 0..out.corridors.len() {
            if i != j {
                let a = &out.corridors[i];
                let b = &out.corridors[j];
                assert_ne!(norm(a.from, a.to), norm(b.from, b.to));
            }
        }
    }
}

#[test]
fn output_entrances_sit_on_room_edges() {
    let out = generate(params_for("theta")).expect("generation succeeds");
    let half = out.params.grid_size / 2;
    for c in &out.corridors {
        assert!(c.midpoints.len() >= 3);
        assert_eq!(c.left.len(), c.midpoints.len());
        assert_eq!(c.right.len(), c.midpoints.len());
        assert_eq!(c.midpoints[0], c.entrance);
        let room = out
            .rooms
            .iter()
            .find(|r| r.id == c.from)
            .expect("corridor origin is a room");
        assert!(out.rooms.iter().any(|r| r.id == c.to));
        // the initial direction is visible in the first walk step; the
        // entrance must sit on the room edge facing it
        let step = Vec2i {
            x: c.midpoints[1].x - c.entrance.x,
            y: c.midpoints[1].y - c.entrance.y,
        };
        if step.x > 0 {
            assert_eq!(step, Vec2i { x: half, y: 0 });
            assert_eq!(c.entrance.x, room.rect.max.x);
        } else if step.x < 0 {
            assert_eq!(step, Vec2i { x: -half, y: 0 });
            assert_eq!(c.entrance.x, room.rect.min.x);
        } else if step.y > 0 {
            assert_eq!(step, Vec2i { x: 0, y: half });
            assert_eq!(c.entrance.y, room.rect.max.y);
        } else {
            assert_eq!(step, Vec2i { x: 0, y: -half });
            assert_eq!(c.entrance.y, room.rect.min.y);
        }
    }
}

#[test]
fn default_params_are_valid() {
    let params = MapgenParams::default();
    assert!(params.is_valid());
    assert_eq!(params.seed, "random");
    assert_eq!(params.grid_size, 50);
    assert_eq!(params.map_size, Vec2i { x: 700, y: 700 });
}
