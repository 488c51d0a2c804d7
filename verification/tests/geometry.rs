use mapgen::connect::all_rooms_connected;
use mapgen::corridors::MapgenCorridor;
use mapgen::geom::{rects_padded_disjoint, round_to, round_to_offset, Dir, Rect, Vec2i};
use mapgen::rooms::MapgenRoom;

#[test]
fn rounding_to_grid_multiples() {
    assert_eq!(round_to(0, 50), 0);
    assert_eq!(round_to(24, 50), 0);
    assert_eq!(round_to(25, 50), 50);
    assert_eq!(round_to(124, 50), 100);
    assert_eq!(round_to(125, 50), 150);
    assert_eq!(round_to(200, 50), 200);
    assert_eq!(round_to(-24, 50), 0);
    assert_eq!(round_to(-25, 50), -50);
    assert_eq!(round_to(7, 1), 7);
}

#[test]
fn rounding_onto_cell_centers() {
    assert_eq!(round_to_offset(0, 50, 25), -25);
    assert_eq!(round_to_offset(1, 50, 25), 25);
    assert_eq!(round_to_offset(49, 50, 25), 25);
    assert_eq!(round_to_offset(50, 50, 25), 75);
    assert_eq!(round_to_offset(51, 50, 25), 75);
    assert_eq!(round_to_offset(199, 50, 25), 175);
    assert_eq!(round_to_offset(200, 50, 25), 225);
}

#[test]
fn rect_contains_is_inclusive() {
    let r = Rect {
        min: Vec2i { x: 0, y: 0 },
        max: Vec2i { x: 100, y: 50 },
    };
    assert!(r.contains(Vec2i { x: 0, y: 0 }));
    assert!(r.contains(Vec2i { x: 100, y: 50 }));
    assert!(r.contains(Vec2i { x: 60, y: 25 }));
    assert!(!r.contains(Vec2i { x: 101, y: 25 }));
    assert!(!r.contains(Vec2i { x: 60, y: -1 }));
}

#[test]
fn padded_rectangle_separation() {
    let a = Rect {
        min: Vec2i { x: 0, y: 0 },
        max: Vec2i { x: 100, y: 100 },
    };
    let b = Rect {
        min: Vec2i { x: 100, y: 0 },
        max: Vec2i { x: 200, y: 100 },
    };
    // rectangles that only share an edge count as separated
    assert!(rects_padded_disjoint(&a, &b, 0));
    // padding swallows the shared edge
    assert!(!rects_padded_disjoint(&a, &b, 50));
    let c = Rect {
        min: Vec2i { x: 250, y: 0 },
        max: Vec2i { x: 300, y: 100 },
    };
    assert!(rects_padded_disjoint(&a, &c, 100));
    assert!(!rects_padded_disjoint(&a, &c, 200));
}

#[test]
fn direction_turns() {
    assert_eq!(Dir::PosX.rot_left(), Dir::PosY);
    assert_eq!(Dir::PosY.rot_left(), Dir::NegX);
    assert_eq!(Dir::NegX.rot_left(), Dir::NegY);
    assert_eq!(Dir::NegY.rot_left(), Dir::PosX);
    assert_eq!(Dir::PosX.rot_right(), Dir::NegY);
    assert_eq!(Dir::PosX.opposite(), Dir::NegX);
    assert_eq!(Dir::NegY.step(50), Vec2i { x: 0, y: -50 });
}

fn room(id: usize) -> MapgenRoom {
    MapgenRoom {
        id,
        attempt: 0,
        rect: Rect {
            min: Vec2i {
                x: 300 * (id as i64),
                y: 0,
            },
            max: Vec2i {
                x: 300 * (id as i64) + 100,
                y: 100,
            },
        },
    }
}

fn corridor(from: usize, to: usize) -> MapgenCorridor {
    let p = Vec2i { x: 0, y: 0 };
    MapgenCorridor {
        from,
        to,
        entrance: p,
        midpoints: vec![p, p, p],
        left: vec![p, p, p],
        right: vec![p, p, p],
    }
}

#[test]
fn single_room_is_connected() {
    assert!(all_rooms_connected(&vec![room(0)], &vec![]));
}

#[test]
fn chain_of_corridors_connects() {
    let rooms = vec![room(0), room(1), room(2)];
    let corridors = vec![corridor(0, 1), corridor(2, 1)];
    assert!(all_rooms_connected(&rooms, &corridors));
}

#[test]
fn missing_link_disconnects() {
    let rooms = vec![room(0), room(1), room(2)];
    let corridors = vec![corridor(0, 1)];
    assert!(!all_rooms_connected(&rooms, &corridors));
}

#[test]
fn no_corridors_disconnects_two_rooms() {
    let rooms = vec![room(0), room(1)];
    assert!(!all_rooms_connected(&rooms, &vec![]));
}

#[test]
fn stray_endpoints_do_not_connect() {
    // corridors touching identifiers that are not rooms bridge nothing
    let rooms = vec![room(0), room(1)];
    let corridors = vec![corridor(0, 7), corridor(7, 1)];
    assert!(!all_rooms_connected(&rooms, &corridors));
}

#[test]
fn self_loops_change_nothing() {
    let rooms = vec![room(0), room(1)];
    let corridors = vec![corridor(0, 0), corridor(1, 0)];
    assert!(all_rooms_connected(&rooms, &corridors));
}
