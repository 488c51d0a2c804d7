//! Integer plane geometry: points, axis directions, rectangles, and rounding
//! to grid multiples. All map coordinates are `i64` values; the bounds below
//! keep every computation of the generator inside `i64` (and distance
//! computations inside `i128`).

use vstd::prelude::*;

verus! {

/// Upper bound on the magnitude of every generation parameter (map extent,
/// grid step, room sizes, corridor width, counts). Keeping parameters under
/// this bound keeps all coordinates reached by the generator under
/// `POS_LIMIT`.
pub const COORD_LIMIT: i64 = 1_000_000;

/// Upper bound on the magnitude of any coordinate the corridor walk can
/// reach: a walk starts inside the map (at most `2 * COORD_LIMIT` from the
/// origin) and takes at most `COORD_LIMIT + 1` steps of at most `COORD_LIMIT`
/// each, plus wall offsets.
pub const POS_LIMIT: i64 = 3_000_000_000_000;

/// A point or displacement on the integer map plane.
#[derive(Clone, Copy, PartialEq, Eq, Structural, Debug)]
pub struct Vec2i {
    pub x: i64,
    pub y: i64,
}

/// The componentwise sum, truncated into `i64` (exact whenever the sums are
/// in range, which every caller here guarantees).
pub open spec fn vadd(a: Vec2i, b: Vec2i) -> Vec2i {
    Vec2i { x: (a.x + b.x) as i64, y: (a.y + b.y) as i64 }
}

impl Vec2i {
    pub open spec fn in_bounds(self, b: int) -> bool {
        &&& -b <= self.x <= b
        &&& -b <= self.y <= b
    }

    /// Componentwise sum.
    pub fn add(self, o: Vec2i) -> (r: Vec2i)
        requires
            i64::MIN <= self.x + o.x <= i64::MAX,
            i64::MIN <= self.y + o.y <= i64::MAX,
        ensures
            r.x == self.x + o.x,
            r.y == self.y + o.y,
            r == vadd(self, o),
    {
        Vec2i { x: self.x + o.x, y: self.y + o.y }
    }
}

/// One of the four cardinal walk directions.
#[derive(Clone, Copy, PartialEq, Eq, Structural, Debug)]
pub enum Dir {
    PosX,
    PosY,
    NegX,
    NegY,
}

impl Dir {
    /// The unit step vector of this direction.
    pub open spec fn spec_unit(self) -> Vec2i {
        match self {
            Dir::PosX => Vec2i { x: 1, y: 0 },
            Dir::PosY => Vec2i { x: 0, y: 1 },
            Dir::NegX => Vec2i { x: -1i64, y: 0 },
            Dir::NegY => Vec2i { x: 0, y: -1i64 },
        }
    }

    /// The displacement of `k` steps in this direction.
    pub open spec fn spec_step(self, k: int) -> Vec2i {
        Vec2i { x: (self.spec_unit().x * k) as i64, y: (self.spec_unit().y * k) as i64 }
    }

    /// Scale the unit vector of this direction by a nonnegative factor.
    pub fn step(self, k: i64) -> (r: Vec2i)
        requires
            0 <= k,
        ensures
            r == self.spec_step(k as int),
            r.in_bounds(k as int),
    {
        match self {
            Dir::PosX => Vec2i { x: k, y: 0 },
            Dir::PosY => Vec2i { x: 0, y: k },
            Dir::NegX => Vec2i { x: -k, y: 0 },
            Dir::NegY => Vec2i { x: 0, y: -k },
        }
    }

    /// This direction rotated a quarter turn counterclockwise.
    pub open spec fn spec_rot_left(self) -> Dir {
        match self {
            Dir::PosX => Dir::PosY,
            Dir::PosY => Dir::NegX,
            Dir::NegX => Dir::NegY,
            Dir::NegY => Dir::PosX,
        }
    }

    #[verifier::when_used_as_spec(spec_rot_left)]
    pub fn rot_left(self) -> (r: Dir)
        ensures
            r == self.spec_rot_left(),
    {
        match self {
            Dir::PosX => Dir::PosY,
            Dir::PosY => Dir::NegX,
            Dir::NegX => Dir::NegY,
            Dir::NegY => Dir::PosX,
        }
    }

    /// The opposite direction.
    pub open spec fn spec_opposite(self) -> Dir {
        match self {
            Dir::PosX => Dir::NegX,
            Dir::PosY => Dir::NegY,
            Dir::NegX => Dir::PosX,
            Dir::NegY => Dir::PosY,
        }
    }

    #[verifier::when_used_as_spec(spec_opposite)]
    pub fn opposite(self) -> (r: Dir)
        ensures
            r == self.spec_opposite(),
    {
        match self {
            Dir::PosX => Dir::NegX,
            Dir::PosY => Dir::NegY,
            Dir::NegX => Dir::PosX,
            Dir::NegY => Dir::PosY,
        }
    }

    /// This direction rotated a quarter turn clockwise.
    pub open spec fn spec_rot_right(self) -> Dir {
        match self {
            Dir::PosX => Dir::NegY,
            Dir::PosY => Dir::PosX,
            Dir::NegX => Dir::PosY,
            Dir::NegY => Dir::NegX,
        }
    }

    #[verifier::when_used_as_spec(spec_rot_right)]
    pub fn rot_right(self) -> (r: Dir)
        ensures
            r == self.spec_rot_right(),
    {
        match self {
            Dir::PosX => Dir::NegY,
            Dir::PosY => Dir::PosX,
            Dir::NegX => Dir::PosY,
            Dir::NegY => Dir::NegX,
        }
    }
}

/// An axis-aligned rectangle given by its two corners, both included.
#[derive(Clone, Copy, PartialEq, Eq, Structural, Debug)]
pub struct Rect {
    pub min: Vec2i,
    pub max: Vec2i,
}

impl Rect {
    pub open spec fn wf(self) -> bool {
        &&& self.min.x <= self.max.x
        &&& self.min.y <= self.max.y
    }

    pub open spec fn in_bounds(self, b: int) -> bool {
        &&& self.min.in_bounds(b)
        &&& self.max.in_bounds(b)
    }

    pub open spec fn spec_contains(&self, p: Vec2i) -> bool {
        &&& self.min.x <= p.x <= self.max.x
        &&& self.min.y <= p.y <= self.max.y
    }

    /// Whether `p` lies in the closed rectangle.
    #[verifier::when_used_as_spec(spec_contains)]
    pub fn contains(&self, p: Vec2i) -> (r: bool)
        ensures
            r == self.spec_contains(p),
    {
        self.min.x <= p.x && p.x <= self.max.x && self.min.y <= p.y && p.y <= self.max.y
    }

    pub fn width(&self) -> (r: i64)
        requires
            i64::MIN <= self.max.x - self.min.x <= i64::MAX,
        ensures
            r == self.max.x - self.min.x,
    {
        self.max.x - self.min.x
    }

    pub fn height(&self) -> (r: i64)
        requires
            i64::MIN <= self.max.y - self.min.y <= i64::MAX,
        ensures
            r == self.max.y - self.min.y,
    {
        self.max.y - self.min.y
    }
}

/// Whether `a` and `b` stay apart even after `b` is inflated by `k` on all
/// sides: the intersection of `a` with the inflated `b` is empty. An
/// intersection is empty when it is degenerate (zero width or height counts
/// as empty, matching a half-open reading of the intersection).
pub open spec fn padded_disjoint(a: Rect, b: Rect, k: int) -> bool {
    ||| vstd::math::max(a.min.x as int, b.min.x - k) >= vstd::math::min(
        a.max.x as int,
        b.max.x + k,
    )
    ||| vstd::math::max(a.min.y as int, b.min.y - k) >= vstd::math::min(
        a.max.y as int,
        b.max.y + k,
    )
}

/// Decide `padded_disjoint` on rectangle values.
pub fn rects_padded_disjoint(a: &Rect, b: &Rect, k: i64) -> (r: bool)
    requires
        0 <= k,
        a.in_bounds(POS_LIMIT as int),
        b.in_bounds(POS_LIMIT as int),
        k <= POS_LIMIT,
    ensures
        r == padded_disjoint(*a, *b, k as int),
{
    let ix_lo = if a.min.x >= b.min.x - k {
        a.min.x
    } else {
        b.min.x - k
    };
    let ix_hi = if a.max.x <= b.max.x + k {
        a.max.x
    } else {
        b.max.x + k
    };
    let iy_lo = if a.min.y >= b.min.y - k {
        a.min.y
    } else {
        b.min.y - k
    };
    let iy_hi = if a.max.y <= b.max.y + k {
        a.max.y
    } else {
        b.max.y + k
    };
    ix_lo >= ix_hi || iy_lo >= iy_hi
}

/// Nearest multiple of `g`, ties rounded away from zero.
pub open spec fn round_mult(v: int, g: int) -> int
    recommends
        1 <= g,
{
    if v >= 0 {
        ((v + g / 2) / g) * g
    } else {
        -((((-v) + g / 2) / g) * g)
    }
}

/// Round `v` to the nearest multiple of `g`, ties away from zero.
pub fn round_to(v: i64, g: i64) -> (r: i64)
    requires
        1 <= g <= COORD_LIMIT,
        -POS_LIMIT <= v <= POS_LIMIT,
    ensures
        r == round_mult(v as int, g as int),
        v - g / 2 <= r <= v + g / 2,
        0 <= v ==> 0 <= r,
{
    let gu = g as u64;
    if v >= 0 {
        let a = (v as u64) + gu / 2;
        let q = a / gu;
        proof {
            vstd::arithmetic::div_mod::lemma_fundamental_div_mod(a as int, gu as int);
        }
        (q * gu) as i64
    } else {
        let a = ((-v) as u64) + gu / 2;
        let q = a / gu;
        proof {
            vstd::arithmetic::div_mod::lemma_fundamental_div_mod(a as int, gu as int);
        }
        -((q * gu) as i64)
    }
}

/// Round `v` to the nearest point of the lattice `{ n * g + off }`, ties away
/// from zero (in the shifted frame).
pub fn round_to_offset(v: i64, g: i64, off: i64) -> (r: i64)
    requires
        1 <= g <= COORD_LIMIT,
        0 <= off <= g,
        -POS_LIMIT + COORD_LIMIT <= v <= POS_LIMIT - COORD_LIMIT,
    ensures
        r == round_mult(v - off, g as int) + off,
        v - g <= r <= v + g,
{
    round_to(v - off, g) + off
}

} // verus!
