//! White noise from a xorshift64 generator: the raw state step and the
//! noise sources built on it. The step works on the integer state; turning
//! its top 24 bits into a sample in `[-1, 1)` is left to the caller.
use vstd::prelude::*;

verus! {

/// The state that replaces a zero state before a step (a zero state would
/// otherwise stay zero forever).
pub open spec fn zero_state_seed() -> u64 {
    0x9E37_79B9_7F4A_7C15
}

/// One xorshift64 (13, 7, 17) step from `x`.
pub open spec fn xorshift_next(x: u64) -> u64 {
    let x0 = if x == 0 { zero_state_seed() } else { x };
    let a = x0 ^ (x0 << 13u64);
    let b = a ^ (a >> 7u64);
    b ^ (b << 17u64)
}

/// The 24 bits of a state that become a noise sample.
pub open spec fn sample_bits(x: u64) -> u32 {
    (x >> 40u64) as u32
}

/// The generator never reaches the zero state: every step yields a non-zero
/// state, whatever it starts from.
pub proof fn lemma_xorshift_nonzero(x: u64)
    ensures
        xorshift_next(x) != 0,
{
    let x0: u64 = if x == 0 { zero_state_seed() } else { x };
    assert(x0 != 0);
    let a: u64 = x0 ^ (x0 << 13u64);
    assert(x0 != 0 ==> (x0 ^ (x0 << 13u64)) != 0) by (bit_vector);
    let b: u64 = a ^ (a >> 7u64);
    assert(a != 0 ==> (a ^ (a >> 7u64)) != 0) by (bit_vector);
    assert(b != 0 ==> (b ^ (b << 17u64)) != 0) by (bit_vector);
}

/// Advance the xorshift state and return the 24 bits that make the next white
/// noise sample (`bits / 2^23 - 1` lies in `[-1, 1)`).
pub fn white_bits(state: &mut u64) -> (bits: u32)
    ensures
        *final(state) == xorshift_next(*old(state)),
        bits == sample_bits(*final(state)),
        bits < 0x100_0000,
{
    let mut x = *state;
    if x == 0 {
        x = 0x9E37_79B9_7F4A_7C15;
    }
    x = x ^ (x << 13u64);
    x = x ^ (x >> 7u64);
    x = x ^ (x << 17u64);
    *state = x;
    let top = x >> 40u64;
    assert(x >> 40u64 < 0x100_0000) by (bit_vector);
    top as u32
}

/// White-noise generator wrapping the [`white_bits`] xorshift.
#[derive(Clone)]
pub struct Noise {
    state: u64,
}

impl View for Noise {
    type V = u64;

    /// The generator's state.
    closed spec fn view(&self) -> u64 {
        self.state
    }
}

impl Noise {
    /// A generator seeded with `seed`, made odd so that it is never zero.
    pub fn new(seed: u64) -> (n: Noise)
        ensures
            n@ == seed | 1,
            n@ != 0,
    {
        assert(seed | 1u64 != 0) by (bit_vector);
        Noise { state: seed | 1 }
    }

    /// Advance the generator; the bits of its next sample.
    pub fn next_bits(&mut self) -> (bits: u32)
        ensures
            final(self)@ == xorshift_next(old(self)@),
            bits == sample_bits(final(self)@),
    {
        white_bits(&mut self.state)
    }
}

/// Raw white-noise source for hats; shape it with an envelope and a band-pass
/// in the cartridge.
#[derive(Clone)]
pub struct NoiseHat {
    noise: Noise,
}

impl View for NoiseHat {
    type V = u64;

    /// The state of the hat's noise generator.
    closed spec fn view(&self) -> u64 {
        self.noise@
    }
}

impl NoiseHat {
    pub fn new(seed: u64) -> (h: NoiseHat)
        ensures
            h@ == seed | 1,
    {
        NoiseHat { noise: Noise::new(seed) }
    }

    /// The bits of the hat's next noise sample.
    pub fn next_bits(&mut self) -> (bits: u32)
        ensures
            final(self)@ == xorshift_next(old(self)@),
            bits == sample_bits(final(self)@),
    {
        self.noise.next_bits()
    }

    /// A hat has no state to reset but its free-running noise.
    pub fn reset(&mut self)
        ensures
            final(self)@ == old(self)@,
    {
    }
}

} // verus!
