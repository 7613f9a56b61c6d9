//! The WyRand generator: a 64-bit counter that steps by a fixed odd
//! constant, and a multiply-and-fold of the counter as output.
//!
//! This generator is fast and not cryptographically secure.
use crate::bytes::{
    decode_le, from_le, le_bytes, lemma_from_le_bound, lemma_from_le_of_le_bytes,
    lemma_pow256_values, to_le,
};
use crate::entropy::entropy_from_system;
use crate::rand::{pad, padded, steady, Rng, SeedableRng};
use crate::wipe::wipe_u64;
use vstd::prelude::*;

verus! {

/// What the state grows by at every step.
pub const INCREMENT: u64 = 0xa076_1d64_78bd_642f;

/// What the state is combined with before it is multiplied by itself.
pub const MIX: u64 = 0xe703_7ed1_a0b4_28db;

/// The state after `seed`.
pub open spec fn stepped(seed: u64) -> u64 {
    seed.wrapping_add(INCREMENT)
}

/// The output of the state `seed`: the 128-bit product of the state with the
/// state combined with `MIX`, its upper half folded onto its lower half.
pub open spec fn output(seed: u64) -> u64 {
    let product: nat = seed as nat * (seed ^ MIX) as nat;
    ((product / 0x1_0000_0000_0000_0000) as u64) ^ ((product % 0x1_0000_0000_0000_0000) as u64)
}

/// The output of the state `seed`.
pub fn fold(seed: u64) -> (out: u64)
    ensures
        out == output(seed),
{
    let other: u64 = seed ^ MIX;
    assert(seed as int * other as int <= 0xffff_ffff_ffff_ffff * 0xffff_ffff_ffff_ffff)
        by (nonlinear_arith)
        requires
            0 <= seed <= 0xffff_ffff_ffff_ffff,
            0 <= other <= 0xffff_ffff_ffff_ffff,
    ;
    assert(0 <= seed as int * other as int) by (nonlinear_arith)
        requires
            0 <= seed,
            0 <= other,
    ;
    let product: u128 = (seed as u128) * (other as u128);
    assert(product >> 64 == product / 0x1_0000_0000_0000_0000) by (bit_vector);
    assert((product >> 64) < 0x1_0000_0000_0000_0000) by (bit_vector);
    let upper: u64 = (product >> 64) as u64;
    let lower: u64 = (product % 0x1_0000_0000_0000_0000) as u64;
    upper ^ lower
}

/// A WyRand generator. Its view is its 64-bit state.
#[derive(Debug)]
pub struct WyRand {
    seed: u64,
}

impl View for WyRand {
    type V = u64;

    closed spec fn view(&self) -> u64 {
        self.seed
    }
}

impl WyRand {
    /// A generator seeded from the system's entropy: eight bytes of it, made
    /// into a state as `reseed` makes them. Which state that is, only the
    /// entropy decides: every state can come.
    pub fn new() -> WyRand {
        let entropy: Vec<u8> = entropy_from_system(8);
        let mut rng: WyRand = WyRand::new_seed(0);
        rng.reseed(entropy.as_slice());
        rng
    }

    /// A generator in the state `seed`.
    pub fn new_seed(seed: u64) -> (rng: WyRand)
        ensures
            rng@ == seed,
    {
        WyRand { seed }
    }
}

impl WyRand {
    /// The block that a generator seeded with `seed` emits first. A seed of
    /// fewer than 8 bytes is filled up with zero bytes; of a longer one, the
    /// first 8 bytes count.
    pub fn rand_with_seed(seed: &[u8]) -> (out: [u8; 8])
        ensures
            out@ == Self::block(Self::seeded(0, padded(seed@, 8))),
    {
        let mut rng: WyRand = WyRand::new_seed(0);
        rng.reseed(seed);
        rng.rand()
    }

    /// Wipes the state from memory: the generator is left in the state zero.
    pub fn zeroize(&mut self)
        ensures
            final(self)@ == 0,
    {
        wipe_u64(&mut self.seed);
    }
}

impl Default for WyRand {
    /// A generator seeded from the system's entropy.
    fn default() -> WyRand {
        WyRand::new()
    }
}

impl Clone for WyRand {
    fn clone(&self) -> (copy: WyRand)
        ensures
            copy@ == self@,
    {
        WyRand { seed: self.seed }
    }
}

impl Rng<8> for WyRand {
    open spec fn block(state: u64) -> Seq<u8> {
        le_bytes(output(stepped(state)) as nat, 8)
    }

    open spec fn next(state: u64) -> u64 {
        stepped(state)
    }

    open spec fn determined(state: u64) -> bool {
        true
    }

    proof fn lemma_block_len(state: u64) {
    }

    fn rand(&mut self) -> (out: [u8; 8]) {
        self.seed = self.seed.wrapping_add(INCREMENT);
        to_le::<8>(fold(self.seed) as u128)
    }
}

impl SeedableRng<8, 8> for WyRand {
    open spec fn seeded(state: u64, seed: Seq<u8>) -> u64 {
        from_le(seed) as u64
    }

    fn reseed(&mut self, seed: &[u8]) {
        let bytes: [u8; 8] = pad::<8>(seed);
        proof {
            lemma_from_le_bound(bytes@);
            lemma_pow256_values();
        }
        self.seed = decode_le(bytes.as_slice()) as u64;
    }
}

/// A WyRand generator takes in nothing on its way: every step is decided by
/// the state it starts from. So two generators in the same state, put through
/// the same calls, emit the same bytes and stay in the same state, for ever.
pub proof fn lemma_wyrand_steady(state: u64, k: nat)
    ensures
        steady::<8, WyRand>(state, k),
    decreases k,
{
    if k > 0 {
        lemma_wyrand_steady(stepped(state), (k - 1) as nat);
    }
}

/// The eight bytes of a block stand for the output of the state after one
/// step: a 64-bit value drawn from a WyRand generator is that output.
pub proof fn lemma_wyrand_block_value(state: u64)
    ensures
        from_le(WyRand::block(state)) == output(stepped(state)),
{
    lemma_from_le_of_le_bytes(output(stepped(state)) as nat, 8);
    lemma_pow256_values();
}

} // verus!
