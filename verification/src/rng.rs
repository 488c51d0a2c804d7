//! The seeded random stream. The generator state is a bare 128-bit integer
//! advanced by a multiplicative congruential step and read through the
//! XSL-RR output permutation (the `pcg64_fast` stream), so every draw is a
//! proved function of the state. Only seeding is trusted: expanding a seed
//! string into seed bytes, and gathering entropy for the `"random"` seed.

use vstd::prelude::*;

verus! {

/// The default PCG multiplier for 128-bit state.
pub const PCG_MULTIPLIER: u128 = 0x2360_ED05_1FC6_5DA4_4385_DF64_9FCC_F645;

/// The state reached from `s` by one multiplicative congruential step.
pub open spec fn pcg_advance(s: u128) -> u128 {
    s.wrapping_mul(PCG_MULTIPLIER)
}

/// `x` rotated right by `r` bit positions (`r < 64`).
pub open spec fn rotr64(x: u64, r: u64) -> u64
    recommends
        r < 64,
{
    if r == 0 {
        x
    } else {
        (x >> r) | (x << (64 - r) as u64)
    }
}

/// The XSL-RR output permutation: xor of the state halves, rotated right by
/// the top six state bits.
pub open spec fn pcg_output(s: u128) -> u64 {
    rotr64(((s >> 64) as u64) ^ (s as u64), (s >> 122) as u64)
}

/// The value drawn by `MapgenRng::next_inclusive(lo, hi)` from state `s`.
pub open spec fn draw_value(s: u128, lo: int, hi: int) -> int
    recommends
        lo <= hi,
{
    lo + (pcg_output(pcg_advance(s)) as int) % (hi - lo + 1)
}

/// The 128-bit stream state derived from a seed string: the seed bytes read
/// as a little-endian integer, with the low bit forced to one.
pub open spec fn seeded_state(seed: Seq<char>) -> u128 {
    vstd::bytes::spec_u128_from_le_bytes(seed_stream(seed)) | 1
}

/// The 16 bytes that the seed expansion produces from a seed string.
pub uninterp spec fn seed_stream(seed: Seq<char>) -> Seq<u8>;

/// Relies on rand_seeder::Seeder (a SipHash-based expander): the seed bytes
/// it yields are a pure function of the hashed seed string, portable across
/// machines and processes.
#[verifier::external_body]
fn derive_seed_bytes(seed: &str) -> (r: Vec<u8>)
    ensures
        r@ == seed_stream(seed@),
        r@.len() == 16,
{
    rand_seeder::Seeder::from(seed).make_seed::<[u8; 16]>().to_vec()
}

/// Relies on rand::random: 128 bits drawn from the thread-local generator,
/// which is seeded from operating-system entropy. Nothing is known of the
/// value.
#[verifier::external_body]
fn entropy_bits() -> u128 {
    rand::random::<u128>()
}

/// The random stream that drives generation. All draws are proved functions
/// of the 128-bit state, so a layout is a function of the starting state.
pub struct MapgenRng {
    state: u128,
}

impl MapgenRng {
    /// The current stream state.
    pub closed spec fn view(&self) -> u128 {
        self.state
    }

    /// A stream in the given state.
    pub fn from_state(state: u128) -> (r: MapgenRng)
        ensures
            r@ == state,
    {
        MapgenRng { state }
    }

    /// Advance the state once and read the output permutation.
    pub fn next_u64(&mut self) -> (r: u64)
        ensures
            final(self)@ == pcg_advance(old(self)@),
            r == pcg_output(final(self)@),
    {
        self.state = self.state.wrapping_mul(PCG_MULTIPLIER);
        let rot = ((self.state >> 122) as u64);
        let xsl = ((self.state >> 64) as u64) ^ (self.state as u64);
        proof {
            let s = self.state;
            assert(((s >> 122) as u64) < 64u64) by (bit_vector);
        }
        if rot == 0 {
            xsl
        } else {
            (xsl >> rot) | (xsl << (64 - rot))
        }
    }

    /// Draw uniformly (by reduction of one output word) from `lo ..= hi`.
    pub fn next_inclusive(&mut self, lo: u64, hi: u64) -> (r: u64)
        requires
            lo <= hi,
            hi - lo < u64::MAX,
        ensures
            final(self)@ == pcg_advance(old(self)@),
            lo <= r <= hi,
            r == draw_value(old(self)@, lo as int, hi as int),
    {
        let v = self.next_u64();
        let span = hi - lo + 1;
        lo + v % span
    }

    /// Draw from `lo ..= hi` on signed coordinates.
    pub fn next_i64_inclusive(&mut self, lo: i64, hi: i64) -> (r: i64)
        requires
            lo <= hi,
            -POS_LIMIT_RANGE <= lo,
            hi <= POS_LIMIT_RANGE,
        ensures
            final(self)@ == pcg_advance(old(self)@),
            lo <= r <= hi,
            r == draw_value(old(self)@, lo as int, hi as int),
    {
        let span = (hi - lo) as u64;
        let d = self.next_inclusive(0, span);
        lo + (d as i64)
    }

    /// Draw a coin that is true with probability `num` in `denom`.
    pub fn next_ratio(&mut self, num: u64, denom: u64) -> (r: bool)
        requires
            0 < denom,
            num <= denom,
        ensures
            final(self)@ == pcg_advance(old(self)@),
            r == (draw_value(old(self)@, 0, denom - 1) < num),
    {
        let d = self.next_inclusive(0, denom - 1);
        d < num
    }
}

/// Bound on the signed ranges `next_i64_inclusive` accepts; wide enough for
/// every coordinate the generator can reach.
pub const POS_LIMIT_RANGE: i64 = 4_000_000_000_000;

/// Build the stream for a seed string: `"random"` asks the operating system
/// for entropy (nothing is promised of the state then); any other string is
/// expanded reproducibly, so equal seed strings give equal states.
pub fn new_rng(seed: &str) -> (r: MapgenRng)
    ensures
        seed@ != "random"@ ==> r@ == seeded_state(seed@),
{
    let is_random = seed.to_owned() == "random".to_owned();
    let state: u128 = if is_random {
        entropy_bits() | 1
    } else {
        let bytes = derive_seed_bytes(seed);
        vstd::bytes::u128_from_le_bytes(bytes.as_slice()) | 1
    };
    MapgenRng::from_state(state)
}

} // verus!
