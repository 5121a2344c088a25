use rray::random::{PCG32, RNG, XorShift32, PCG32_DEFAULT_INC, PCG32_DEFAULT_STATE};

#[test]
fn pcg32_starts_from_default_state() {
    let p = PCG32::new();
    assert_eq!(p.state, PCG32_DEFAULT_STATE);
    assert_eq!(p.inc, PCG32_DEFAULT_INC);
}

#[test]
fn pcg32_first_draws() {
    let mut p = PCG32::new();
    assert_eq!(p.uniform_u32(), 2895861552);
    assert_eq!(p.uniform_u32(), 2233660940);
    assert_eq!(p.uniform_u32(), 1177039625);
    assert_eq!(p.state, 0x8cca7ba80dc0362a);
    assert_eq!(p.inc, PCG32_DEFAULT_INC);
}

#[test]
fn pcg32_copies_replay_the_same_stream() {
    let mut a = PCG32::new();
    a.uniform_u32();
    let mut b = a;
    for _ in 0..10 {
        assert_eq!(a.uniform_u32(), b.uniform_u32());
    }
}

#[test]
fn xorshift32_draws_from_seed_one() {
    let mut x = XorShift32::new(1);
    assert_eq!(x.uniform_u32(), 268476417);
    assert_eq!(x.uniform_u32(), 1157628417);
    assert_eq!(x.uniform_u32(), 1158709409);
    assert_eq!(x.state, 1158709409);
}

#[test]
fn xorshift32_large_seed() {
    let mut x = XorShift32::new(2463534242);
    assert_eq!(x.uniform_u32(), 901999875);
}

#[test]
fn xorshift32_zero_seed_stays_zero() {
    let mut x = XorShift32::new(0);
    assert_eq!(x.uniform_u32(), 0);
    assert_eq!(x.uniform_u32(), 0);
}

#[test]
fn rng_default_is_xorshift() {
    let mut r = RNG::new(1);
    assert!(matches!(r, RNG::XorShift32(_)));
    assert_eq!(r.uniform_u32(), 268476417);
    assert_eq!(r.uniform_u32(), 1157628417);
}

#[test]
fn rng_pcg_variant_draws_like_pcg32() {
    let mut r = RNG::PCG32(PCG32::new());
    assert_eq!(r.uniform_u32(), 2895861552);
    assert_eq!(r.uniform_u32(), 2233660940);
}
