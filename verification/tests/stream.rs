use mapgen::rng::{new_rng, MapgenRng};
use rand::Rng as _;
use rand_pcg::Pcg64Mcg;
use rand_seeder::Seeder;

#[test]
fn seeded_stream_matches_reference_generator() {
    // the library's seeded stream must reproduce, draw for draw, the
    // pcg64_fast generator seeded through the same SipHash expansion
    for seed in ["stripy zebra", "a fixed seed", "x", ""] {
        let mut reference: Pcg64Mcg = Seeder::from(seed).into_rng();
        let mut mine = new_rng(seed);
        for _ in 0..64 {
            assert_eq!(mine.next_u64(), reference.next_u64());
        }
    }
}

#[test]
fn raw_state_matches_reference_generator() {
    let mut reference = Pcg64Mcg::new(42);
    // the reference constructor forces the low state bit to one
    let mut mine = MapgenRng::from_state(42 | 1);
    for _ in 0..64 {
        assert_eq!(mine.next_u64(), reference.next_u64());
    }
}

#[test]
fn same_seed_same_draws() {
    let mut a = new_rng("determinism");
    let mut b = new_rng("determinism");
    for _ in 0..32 {
        assert_eq!(a.next_u64(), b.next_u64());
        assert_eq!(a.next_i64_inclusive(-10, 10), b.next_i64_inclusive(-10, 10));
        assert_eq!(a.next_ratio(2, 10), b.next_ratio(2, 10));
    }
}

#[test]
fn draws_stay_in_range() {
    let mut rng = new_rng("ranges");
    for _ in 0..200 {
        let v = rng.next_inclusive(5, 9);
        assert!((5..=9).contains(&v));
        let w = rng.next_i64_inclusive(-3, 3);
        assert!((-3..=3).contains(&w));
    }
    let mut rng = new_rng("degenerate");
    for _ in 0..10 {
        assert_eq!(rng.next_inclusive(7, 7), 7);
    }
}

#[test]
fn seed_expansion_depends_on_the_seed() {
    // if seeding ignored the seed string, these streams would collide
    let mut a = new_rng("first");
    let mut b = new_rng("second");
    let mut any_diff = false;
    for _ in 0..16 {
        if a.next_u64() != b.next_u64() {
            any_diff = true;
        }
    }
    assert!(any_diff);
}
