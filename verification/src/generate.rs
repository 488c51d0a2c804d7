//! The generation pipeline: seed the random stream, then retry room
//! placement, corridor carving and the connectivity check until a fully
//! connected layout comes out or the retry budget is exhausted.

use crate::connect::{
    all_rooms_connected, lemma_all_connected_rep, spec_all_connected, spec_all_connected_rep,
};
use crate::corridors::{
    corridor_wf, distinct_pairs, generate_corridors, reps_of, spec_generate_corridors,
    CorridorRep, MapgenCorridor,
};
use crate::params::{MapgenContext, MapgenParams};
use crate::rng::{new_rng, seeded_state};
use crate::rooms::{generate_rooms, rooms_wf, spec_generate_rooms, MapgenRoom};
use vstd::prelude::*;

verus! {

/// How many whole layouts one generation call may try.
pub const GENERATE_ATTEMPTS: usize = 100;

/// Why a generation call failed.
#[derive(Clone, Copy, PartialEq, Eq, Structural, Debug)]
pub enum MapgenError {
    /// The parameters fail the validity predicate; nothing was generated.
    InvalidParams,
    /// No connected layout was found within the retry budget.
    RetriesExhausted,
}

/// A generated layout: the parameters it was generated from, the rooms, and
/// the corridors joining them.
#[derive(Clone, PartialEq, Eq, Debug)]
pub struct DetailedMapgenOutput {
    pub params: MapgenParams,
    pub rooms: Vec<MapgenRoom>,
    pub corridors: Vec<MapgenCorridor>,
}

/// Everything a successful generation promises of its output: at least one
/// room; rooms within the map, with increasing identifiers, pairwise keeping
/// the padded clearance; corridors joining rooms of the list, leaving their
/// origin room on the boundary edge facing their initial direction, no two
/// joining the same unordered pair; and every room reachable from every
/// other room.
pub open spec fn output_wf(out: DetailedMapgenOutput) -> bool {
    &&& out.rooms@.len() >= 1
    &&& rooms_wf(out.rooms@, out.params)
    &&& forall|i: int|
        0 <= i < out.corridors@.len() ==> corridor_wf(
            #[trigger] out.corridors@[i],
            out.rooms@,
            out.params,
        )
    &&& distinct_pairs(out.corridors@)
    &&& spec_all_connected(out.rooms@, out.corridors@)
}

/// The retry loop, as a function of the stream state: place rooms, carve and
/// deduplicate corridors, and stop at the first connected layout; `None`
/// when the budget runs out.
pub open spec fn spec_generate_from(p: MapgenParams, s: u128, attempt: int) -> Option<
    (Seq<MapgenRoom>, Seq<CorridorRep>),
>
    decreases GENERATE_ATTEMPTS - attempt,
{
    if attempt < 0 || attempt >= GENERATE_ATTEMPTS {
        None
    } else {
        let placed = spec_generate_rooms(p, s);
        if placed.0.len() > 0 {
            let carved = spec_generate_corridors(p, placed.0, placed.1);
            if spec_all_connected_rep(placed.0, carved.0) {
                Some((placed.0, carved.0))
            } else {
                spec_generate_from(p, carved.1, attempt + 1)
            }
        } else {
            spec_generate_from(p, placed.1, attempt + 1)
        }
    }
}

/// The layout generated for `p` under a reproducible seed: a function of the
/// parameters alone.
pub open spec fn spec_generate(p: MapgenParams) -> Option<(Seq<MapgenRoom>, Seq<CorridorRep>)> {
    spec_generate_from(p, seeded_state(p.seed@), 0)
}

/// Determinism: under a reproducible (non-`"random"`) seed the generated
/// layout is a function of the parameters alone, so two generation calls
/// with equal parameters return bit-identical room and corridor lists (the
/// last clause of `generate` ties its result to `spec_generate`).
pub proof fn lemma_generation_deterministic(p1: MapgenParams, p2: MapgenParams)
    requires
        p1 == p2,
    ensures
        spec_generate(p1) == spec_generate(p2),
{
}

/// Generate a layout for `params`. Invalid parameters are reported before
/// anything is generated; an exhausted retry budget is reported as a failure
/// value, never a crash. A successful output satisfies `output_wf` and
/// carries the parameters it was generated from.
pub fn generate(params: MapgenParams) -> (r: Result<DetailedMapgenOutput, MapgenError>)
    requires
        params.bounded(),
    ensures
        (r == Result::<DetailedMapgenOutput, MapgenError>::Err(MapgenError::InvalidParams))
            <==> !params.spec_is_valid(),
        match r {
            Ok(out) => out.params == params && output_wf(out),
            Err(e) => e == MapgenError::InvalidParams || e == MapgenError::RetriesExhausted,
        },
        params.seed@ != "random"@ ==> match r {
            Ok(out) => spec_generate(params) == Some((out.rooms@, reps_of(out.corridors@))),
            Err(e) => e == MapgenError::InvalidParams || spec_generate(params) == None::<
                (Seq<MapgenRoom>, Seq<CorridorRep>),
            >,
        },
{
    let ghost params0 = params;
    if !params.is_valid() {
        return Err(MapgenError::InvalidParams);
    }
    let rng = new_rng(params.seed.as_str());
    let mut context = MapgenContext { params, rng };
    let mut attempt: usize = 0;
    while attempt < GENERATE_ATTEMPTS
        invariant
            params == params0,
            context.params == params0,
            params0.bounded(),
            params0.spec_is_valid(),
            attempt <= GENERATE_ATTEMPTS,
            params0.seed@ != "random"@ ==> spec_generate(params0) == spec_generate_from(
                params0,
                context.rng@,
                attempt as int,
            ),
        decreases GENERATE_ATTEMPTS - attempt,
    {
        let ghost s_top = context.rng@;
        let rooms = generate_rooms(&mut context);
        if rooms.len() > 0 {
            proof {
                assert forall|i: int, j: int| 0 <= i < j < rooms@.len() implies (
                #[trigger] rooms@[i]).id != (#[trigger] rooms@[j]).id by {
                    assert(rooms@[i].id < rooms@[j].id);
                }
            }
            let corridors = generate_corridors(&mut context, &rooms);
            let connected = all_rooms_connected(&rooms, &corridors);
            proof {
                lemma_all_connected_rep(rooms@, corridors@);
            }
            if connected {
                let MapgenContext { params: used_params, rng: _ } = context;
                return Ok(DetailedMapgenOutput { params: used_params, rooms, corridors });
            }
        }
        attempt += 1;
    }
    Err(MapgenError::RetriesExhausted)
}

} // verus!
