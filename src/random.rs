use vstd::prelude::*;

verus! {

/// Starting state of a freshly made PCG32 stream.
pub const PCG32_DEFAULT_STATE: u64 = 0xcafef00dd15ea5e5;

/// Stream increment of a freshly made PCG32 stream.
pub const PCG32_DEFAULT_INC: u64 = 0xa02bdbf7bb3c0a7;

/// Multiplier of the PCG32 linear congruential step.
pub const MULT: u64 = 6364136223846793005;

/// Rotation of a 32-bit word to the right by `r` places (`r < 32`).
pub open spec fn rotr32(x: u32, r: u32) -> u32 {
    if r == 0 {
        x
    } else {
        (x >> r) | (x << ((32 - r) as u32))
    }
}

/// The state that follows `state` in a PCG32 stream with increment `inc`.
pub open spec fn pcg_step(state: u64, inc: u64) -> u64 {
    state.wrapping_mul(MULT).wrapping_add(inc)
}

/// The word that PCG32 draws from `state` (xorshift, then a rotation chosen by
/// the five top bits).
pub open spec fn pcg_output(state: u64) -> u32 {
    rotr32((((state >> 18u64) ^ state) >> 17u64) as u32, (state >> 59u64) as u32)
}

/// The state that follows `x` in a XorShift32 stream.
pub open spec fn xorshift_step(x: u32) -> u32 {
    let a = x ^ (x << 13u32);
    let b = a ^ (a >> 17u32);
    b ^ (b << 15u32)
}

fn rotate_right(x: u32, r: u32) -> (res: u32)
    requires
        r < 32,
    ensures
        res == rotr32(x, r),
{
    if r == 0 {
        x
    } else {
        (x >> r) | (x << (32 - r))
    }
}

/// Permuted congruential generator: a 64-bit state, a 32-bit output.
#[derive(Copy, Clone)]
pub struct PCG32 {
    pub state: u64,
    pub inc: u64,
}

impl PCG32 {
    pub fn new() -> (r: Self)
        ensures
            r.state == PCG32_DEFAULT_STATE,
            r.inc == PCG32_DEFAULT_INC,
    {
        PCG32 { state: PCG32_DEFAULT_STATE, inc: PCG32_DEFAULT_INC }
    }

    /// Draws the next word and advances the stream.
    pub fn uniform_u32(&mut self) -> (r: u32)
        ensures
            r == pcg_output(old(self).state),
            final(self).state == pcg_step(old(self).state, old(self).inc),
            final(self).inc == old(self).inc,
    {
        let old_state = self.state;
        self.state = self.state.wrapping_mul(MULT).wrapping_add(self.inc);
        let rot = (old_state >> 59u64) as u32;
        assert(rot < 32) by (bit_vector)
            requires
                rot == (old_state >> 59u64) as u32,
        ;
        let xsh = (((old_state >> 18u64) ^ old_state) >> 17u64) as u32;
        rotate_right(xsh, rot)
    }
}

/// Marsaglia's xorshift generator on a 32-bit state. A zero state stays zero.
pub struct XorShift32 {
    pub state: u32,
}

impl XorShift32 {
    /// A stream that starts from `seed` (the clock's microseconds, where the
    /// caller wants a stream that differs from run to run).
    pub fn new(seed: u32) -> (r: Self)
        ensures
            r.state == seed,
    {
        XorShift32 { state: seed }
    }

    /// Advances the stream and returns the new state.
    pub fn uniform_u32(&mut self) -> (r: u32)
        ensures
            r == xorshift_step(old(self).state),
            final(self).state == r,
    {
        let mut x = self.state;
        x = x ^ (x << 13u32);
        x = x ^ (x >> 17u32);
        x = x ^ (x << 15u32);
        self.state = x;
        x
    }
}

/// One of the library's generators.
pub enum RNG {
    PCG32(PCG32),
    XorShift32(XorShift32),
}

/// The word that generator `g` draws next.
pub open spec fn rng_output(g: RNG) -> u32 {
    match g {
        RNG::PCG32(p) => pcg_output(p.state),
        RNG::XorShift32(x) => xorshift_step(x.state),
    }
}

/// The generator `g` after one draw.
pub open spec fn rng_next(g: RNG) -> RNG {
    match g {
        RNG::PCG32(p) => RNG::PCG32(PCG32 { state: pcg_step(p.state, p.inc), inc: p.inc }),
        RNG::XorShift32(x) => RNG::XorShift32(XorShift32 { state: xorshift_step(x.state) }),
    }
}

impl RNG {
    /// The default generator: a xorshift stream seeded with `seed`.
    pub fn new(seed: u32) -> (r: Self)
        ensures
            r == RNG::XorShift32(XorShift32 { state: seed }),
    {
        RNG::XorShift32(XorShift32::new(seed))
    }

    /// Draws the next word of whichever generator this is.
    pub fn uniform_u32(&mut self) -> (r: u32)
        ensures
            r == rng_output(*old(self)),
            *final(self) == rng_next(*old(self)),
    {
        match self {
            RNG::PCG32(p) => p.uniform_u32(),
            RNG::XorShift32(x) => x.uniform_u32(),
        }
    }
}

} // verus!
