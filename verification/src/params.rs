//! Generation parameters and their validity predicate.

use crate::geom::{Vec2i, COORD_LIMIT};
use crate::rng::MapgenRng;
use vstd::prelude::*;

verus! {

/// The working set of one generation call: the parameters and the random
/// stream every draw comes from.
pub struct MapgenContext {
    pub params: MapgenParams,
    pub rng: MapgenRng,
}

/// An inclusive range of point values, sampled independently per component.
#[derive(Clone, Copy, PartialEq, Eq, Structural, Debug)]
pub struct Vec2Range {
    pub start: Vec2i,
    pub end: Vec2i,
}

/// An inclusive range of counts.
#[derive(Clone, Copy, PartialEq, Eq, Structural, Debug)]
pub struct CountRange {
    pub start: usize,
    pub end: usize,
}

/// Everything that shapes one generated layout. `seed` is expanded into the
/// random stream; the literal value `"random"` asks for operating-system
/// entropy instead of a reproducible stream.
#[derive(Clone, PartialEq, Eq, Debug)]
pub struct MapgenParams {
    /// Extent of the map; rooms are placed in `[0, map_size]` per axis.
    pub map_size: Vec2i,
    /// Quantization step for room corners and corridor steps.
    pub grid_size: i64,
    /// Inclusive range from which room width and height are drawn.
    pub room_size: Vec2Range,
    /// Clearance required between rooms, in grid cells.
    pub room_padding: usize,
    /// Inclusive range from which the requested room count is drawn.
    pub num_rooms: CountRange,
    /// Inclusive range of corridor step counts: walks that hit a room too
    /// early are dropped, and walks stop unfinished at the upper bound.
    pub corridor_length: CountRange,
    /// Full width of a corridor, walls included.
    pub corridor_width: i64,
    /// Seed string, or `"random"` for a non-reproducible layout.
    pub seed: String,
}

impl MapgenParams {
    /// A parameter set is valid when the largest permitted room fits in the
    /// map and both sampling ranges are ordered.
    pub open spec fn spec_is_valid(&self) -> bool {
        &&& self.room_size.end.x <= self.map_size.x
        &&& self.room_size.end.y <= self.map_size.y
        &&& self.room_size.start.x <= self.room_size.end.x
        &&& self.room_size.start.y <= self.room_size.end.y
        &&& self.num_rooms.start <= self.num_rooms.end
    }

    /// Decide `spec_is_valid`. Callers must check this before generating.
    #[verifier::when_used_as_spec(spec_is_valid)]
    pub fn is_valid(&self) -> (r: bool)
        ensures
            r == self.spec_is_valid(),
    {
        self.room_size.end.x <= self.map_size.x && self.room_size.end.y <= self.map_size.y
            && self.room_size.start.x <= self.room_size.end.x && self.room_size.start.y
            <= self.room_size.end.y && self.num_rooms.start <= self.num_rooms.end
    }

    /// Machine-size bounds: every extent, size and count fits under
    /// `COORD_LIMIT`, which keeps all generation arithmetic inside `i64`
    /// (distances inside `i128`). The grid step must be positive because
    /// coordinates are rounded to its multiples.
    pub open spec fn bounded(&self) -> bool {
        &&& 1 <= self.grid_size <= COORD_LIMIT
        &&& 0 <= self.map_size.x <= COORD_LIMIT
        &&& 0 <= self.map_size.y <= COORD_LIMIT
        &&& 0 <= self.room_size.start.x <= COORD_LIMIT
        &&& 0 <= self.room_size.start.y <= COORD_LIMIT
        &&& 0 <= self.room_size.end.x <= COORD_LIMIT
        &&& 0 <= self.room_size.end.y <= COORD_LIMIT
        &&& self.room_padding <= COORD_LIMIT
        &&& self.num_rooms.end <= COORD_LIMIT
        &&& self.corridor_length.start <= COORD_LIMIT
        &&& self.corridor_length.end <= COORD_LIMIT
        &&& 0 <= self.corridor_width <= COORD_LIMIT
    }

    /// Decide `bounded`.
    #[verifier::when_used_as_spec(bounded)]
    pub fn is_bounded(&self) -> (r: bool)
        ensures
            r == self.bounded(),
    {
        1 <= self.grid_size && self.grid_size <= COORD_LIMIT && 0 <= self.map_size.x
            && self.map_size.x <= COORD_LIMIT && 0 <= self.map_size.y && self.map_size.y
            <= COORD_LIMIT && 0 <= self.room_size.start.x && self.room_size.start.x <= COORD_LIMIT
            && 0 <= self.room_size.start.y && self.room_size.start.y <= COORD_LIMIT && 0
            <= self.room_size.end.x && self.room_size.end.x <= COORD_LIMIT && 0
            <= self.room_size.end.y && self.room_size.end.y <= COORD_LIMIT && self.room_padding
            <= COORD_LIMIT as usize && self.num_rooms.end <= COORD_LIMIT as usize
            && self.corridor_length.start <= COORD_LIMIT as usize && self.corridor_length.end
            <= COORD_LIMIT as usize && 0 <= self.corridor_width && self.corridor_width
            <= COORD_LIMIT
    }
}

impl Default for MapgenParams {
    /// A mid-sized map with a handful of rooms, freshly seeded each call.
    fn default() -> (r: Self)
        ensures
            r.map_size == (Vec2i { x: 700, y: 700 }),
            r.grid_size == 50,
            r.room_size == (Vec2Range {
                start: Vec2i { x: 100, y: 100 },
                end: Vec2i { x: 250, y: 250 },
            }),
            r.room_padding == 2,
            r.num_rooms == (CountRange { start: 10, end: 20 }),
            r.corridor_length == (CountRange { start: 5, end: 10 }),
            r.corridor_width == 40,
            r.seed@ == "random"@,
            r.spec_is_valid(),
            r.bounded(),
    {
        MapgenParams {
            map_size: Vec2i { x: 700, y: 700 },
            grid_size: 50,
            room_size: Vec2Range {
                start: Vec2i { x: 100, y: 100 },
                end: Vec2i { x: 250, y: 250 },
            },
            room_padding: 2,
            num_rooms: CountRange { start: 10, end: 20 },
            corridor_length: CountRange { start: 5, end: 10 },
            corridor_width: 40,
            seed: "random".to_owned(),
        }
    }
}

} // verus!
