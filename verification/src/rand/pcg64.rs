//! The Pcg64 generator: a 128-bit linear congruential generator that is
//! started afresh from its seed for every output, and a seed that moves on
//! with every output.
//!
//! This generator is not cryptographically secure.
use crate::bytes::{
    decode_le, from_le, le_bytes, lemma_from_le_bound, lemma_from_le_of_le_bytes,
    lemma_pow256_values, to_le,
};
use crate::entropy::entropy_from_system;
use crate::rand::{pad, steady, Rng, SeedableRng};
use crate::wipe::wipe_u128;
use vstd::prelude::*;

verus! {

/// The multiplier of the congruential step.
pub const MULTIPLIER: u128 = 47026247687942121848144207491837523525;

/// The state of a Pcg64 generator.
pub struct Pcg64View {
    /// What the next output is made from.
    pub seed: u128,
    /// Where the congruential generator stood after the last output.
    pub state: u128,
    /// The increment of the last output.
    pub inc: u128,
}

/// `x` rotated left by `n` bits.
pub open spec fn rotl(x: u128, n: u32) -> u128 {
    (x << n) | (x >> ((128 - n) as u32))
}

/// One congruential step: `state * MULTIPLIER + inc`, modulo 2^128.
pub open spec fn step(state: u128, inc: u128) -> u128 {
    state.wrapping_mul(MULTIPLIER).wrapping_add(inc)
}

/// The increment that belongs to `seed`: the seed rotated by one bit, made
/// odd.
pub open spec fn increment(seed: u128) -> u128 {
    rotl(seed, 1) | 1
}

/// Where the congruential generator stands after the three steps of one
/// output: a step from zero, the seed added, and two steps more.
pub open spec fn mixed(seed: u128) -> u128 {
    let inc: u128 = increment(seed);
    step(step(step(0, inc).wrapping_add(seed), inc), inc)
}

/// The upper half of `state` folded onto its lower half.
pub open spec fn folded(state: u128) -> u64 {
    ((state / 0x1_0000_0000_0000_0000) as u64) ^ ((state % 0x1_0000_0000_0000_0000) as u64)
}

/// The seed after an output: where the congruential generator stands,
/// combined with the output in the upper half.
pub open spec fn next_seed(seed: u128) -> u128 {
    mixed(seed) ^ rotl(folded(mixed(seed)) as u128, 64)
}

/// `x` rotated left by `n` bits.
fn rotate_left(x: u128, n: u32) -> (r: u128)
    requires
        0 < n < 128,
    ensures
        r == rotl(x, n),
{
    (x << n) | (x >> (128 - n))
}

/// A Pcg64 generator.
#[derive(Debug)]
pub struct Pcg64 {
    seed: u128,
    state: u128,
    inc: u128,
}

impl View for Pcg64 {
    type V = Pcg64View;

    closed spec fn view(&self) -> Pcg64View {
        Pcg64View { seed: self.seed, state: self.state, inc: self.inc }
    }
}

impl Pcg64 {
    /// A generator seeded from the system's entropy: sixteen bytes of it,
    /// made into a seed as `reseed` makes them. Which seed that is, only the
    /// entropy decides: every seed can come. The congruential generator has
    /// not run yet.
    pub fn new() -> (rng: Pcg64)
        ensures
            rng@.state == 0,
            rng@.inc == 0,
    {
        let entropy: Vec<u8> = entropy_from_system(16);
        let mut rng: Pcg64 = Pcg64::new_seed(0);
        rng.reseed(entropy.as_slice());
        rng
    }

    /// A generator with the seed `seed`.
    pub fn new_seed(seed: u128) -> (rng: Pcg64)
        ensures
            rng@ == (Pcg64View { seed, state: 0, inc: 0 }),
    {
        Pcg64 { seed, state: 0, inc: 0 }
    }

    /// One congruential step.
    fn step(&mut self)
        ensures
            final(self)@ == (Pcg64View {
                seed: old(self)@.seed,
                state: step(old(self)@.state, old(self)@.inc),
                inc: old(self)@.inc,
            }),
    {
        self.state = self.state.wrapping_mul(MULTIPLIER).wrapping_add(self.inc);
    }

    /// Starts the congruential generator afresh from the seed, runs the
    /// three steps of an output, and folds where it stands.
    fn rand128(&mut self) -> (out: u64)
        ensures
            out == folded(mixed(old(self)@.seed)),
            final(self)@ == (Pcg64View {
                seed: old(self)@.seed,
                state: mixed(old(self)@.seed),
                inc: increment(old(self)@.seed),
            }),
    {
        self.state = 0;
        self.inc = rotate_left(self.seed, 1) | 1;
        self.step();
        self.state = self.state.wrapping_add(self.seed);
        self.step();
        self.step();
        let state: u128 = self.state;
        assert(state >> 64 == state / 0x1_0000_0000_0000_0000) by (bit_vector);
        assert((state >> 64) < 0x1_0000_0000_0000_0000) by (bit_vector);
        let upper: u64 = (state >> 64) as u64;
        let lower: u64 = (state % 0x1_0000_0000_0000_0000) as u64;
        upper ^ lower
    }

    /// Replaces the seed by `seed`.
    pub fn reseed128(&mut self, seed: u128)
        ensures
            final(self)@ == (Pcg64View { seed, state: old(self)@.state, inc: old(self)@.inc }),
    {
        self.seed = seed;
    }
}

impl Pcg64 {
    /// Wipes the state from memory: the generator is left with the seed zero.
    pub fn zeroize(&mut self)
        ensures
            final(self)@ == (Pcg64View { seed: 0, state: 0, inc: 0 }),
    {
        wipe_u128(&mut self.seed);
        wipe_u128(&mut self.state);
        wipe_u128(&mut self.inc);
    }
}

impl Default for Pcg64 {
    /// A generator seeded from the system's entropy.
    fn default() -> (rng: Pcg64)
        ensures
            rng@.state == 0,
            rng@.inc == 0,
    {
        Pcg64::new()
    }
}

impl Clone for Pcg64 {
    fn clone(&self) -> (copy: Pcg64)
        ensures
            copy@ == self@,
    {
        Pcg64 { seed: self.seed, state: self.state, inc: self.inc }
    }
}

impl Rng<8> for Pcg64 {
    open spec fn block(state: Pcg64View) -> Seq<u8> {
        le_bytes(folded(mixed(state.seed)) as nat, 8)
    }

    open spec fn next(state: Pcg64View) -> Pcg64View {
        Pcg64View {
            seed: next_seed(state.seed),
            state: mixed(state.seed),
            inc: increment(state.seed),
        }
    }

    open spec fn determined(state: Pcg64View) -> bool {
        true
    }

    proof fn lemma_block_len(state: Pcg64View) {
    }

    fn rand(&mut self) -> (out: [u8; 8]) {
        let ret: u64 = self.rand128();
        self.seed = self.state ^ rotate_left(ret as u128, 64);
        to_le::<8>(ret as u128)
    }
}

impl SeedableRng<16, 8> for Pcg64 {
    open spec fn seeded(state: Pcg64View, seed: Seq<u8>) -> Pcg64View {
        Pcg64View { seed: from_le(seed) as u128, state: state.state, inc: state.inc }
    }

    fn reseed(&mut self, seed: &[u8]) {
        let bytes: [u8; 16] = pad::<16>(seed);
        proof {
            lemma_from_le_bound(bytes@);
            lemma_pow256_values();
        }
        self.seed = decode_le(bytes.as_slice());
    }
}

/// A Pcg64 generator takes in nothing on its way: every step is decided by
/// the state it starts from. So two generators in the same state, put through
/// the same calls, emit the same bytes and stay in the same state, for ever.
pub proof fn lemma_pcg64_steady(state: Pcg64View, k: nat)
    ensures
        steady::<8, Pcg64>(state, k),
    decreases k,
{
    if k > 0 {
        lemma_pcg64_steady(
            Pcg64View {
                seed: next_seed(state.seed),
                state: mixed(state.seed),
                inc: increment(state.seed),
            },
            (k - 1) as nat,
        );
    }
}

/// The eight bytes of a block stand for the folded state of the congruential
/// generator: a 64-bit value drawn from a Pcg64 generator is that value.
pub proof fn lemma_pcg64_block_value(state: Pcg64View)
    ensures
        from_le(Pcg64::block(state)) == folded(mixed(state.seed)),
{
    lemma_from_le_of_le_bytes(folded(mixed(state.seed)) as nat, 8);
    lemma_pow256_values();
}

} // verus!
