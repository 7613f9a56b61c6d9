//! Generators and what they have in common.
//!
//! A generator holds a state and does one thing: it moves the state on and
//! emits a block of fixed size. Everything else is built on that.
use vstd::array::array_fill_for_copy_types;
use vstd::prelude::*;

pub mod chacha;
pub mod pcg64;
pub mod wyrand;

pub use chacha::{ChaCha, ChaChaError, ChaChaView};
pub use pcg64::{Pcg64, Pcg64View};
pub use wyrand::WyRand;

verus! {

/// A random number generator that emits blocks of `OUTPUT` bytes.
///
/// The view of a generator is its state. What a generator emits is a function
/// of its state, and so is the state that it moves on to, unless the generator
/// takes in fresh entropy on the way: `determined` says of a state whether the
/// step from it is of the first kind.
pub trait Rng<const OUTPUT: usize>: View + Sized {
    /// The block that a generator in `state` emits next.
    spec fn block(state: Self::V) -> Seq<u8>;

    /// The state that follows `state`, where the state alone decides it.
    spec fn next(state: Self::V) -> Self::V;

    /// Whether the state alone decides the state that follows it.
    spec fn determined(state: Self::V) -> bool;

    /// Every block has `OUTPUT` bytes.
    proof fn lemma_block_len(state: Self::V)
        ensures
            Self::block(state).len() == OUTPUT,
    ;

    /// Moves the state on and emits a block.
    fn rand(&mut self) -> (out: [u8; OUTPUT])
        ensures
            out@ == Self::block(old(self)@),
            Self::determined(old(self)@) ==> final(self)@ == Self::next(old(self)@),
    ;
}

/// A generator whose state can be replaced by one made from `SEED_SIZE` bytes.
pub trait SeedableRng<const SEED_SIZE: usize, const OUTPUT: usize>: Rng<OUTPUT> {
    /// The state that a generator in `state` takes from the seed bytes `seed`.
    spec fn seeded(state: Self::V, seed: Seq<u8>) -> Self::V;

    /// Replaces the state by the one that `seed` gives. A seed of fewer than
    /// `SEED_SIZE` bytes is filled up with zero bytes; of a longer one, the
    /// first `SEED_SIZE` bytes count.
    fn reseed(&mut self, seed: &[u8])
        ensures
            final(self)@ == Self::seeded(old(self)@, padded(seed@, SEED_SIZE as nat)),
    ;
}

/// The first `n` bytes of `seed`, with zero bytes where `seed` has none.
pub open spec fn padded(seed: Seq<u8>, n: nat) -> Seq<u8> {
    Seq::new(
        n,
        |i: int|
            if i < seed.len() {
                seed[i]
            } else {
                0u8
            },
    )
}

/// The first `N` bytes of `seed`, with zero bytes where `seed` has none.
pub fn pad<const N: usize>(seed: &[u8]) -> (out: [u8; N])
    ensures
        out@ == padded(seed@, N as nat),
{
    let mut out: [u8; N] = array_fill_for_copy_types::<u8, N>(0);
    let len: usize = seed.len();
    let mut i: usize = 0;
    while i < N && i < len
        invariant
            len == seed@.len(),
            i <= N,
            i <= len,
            out@.len() == N,
            forall|j: int| 0 <= j < i ==> out@[j] == seed@[j],
            forall|j: int| i <= j < N ==> out@[j] == 0,
        decreases N - i,
    {
        out[i] = seed[i];
        i += 1;
    }
    proof {
        assert(out@ =~= padded(seed@, N as nat));
    }
    out
}

/// The number of blocks of `size` bytes that hold `n` bytes.
pub open spec fn blocks_for(n: nat, size: nat) -> nat {
    if size == 0 {
        0
    } else if n % size == 0 {
        n / size
    } else {
        n / size + 1
    }
}

/// The state `k` blocks after `state`.
pub open spec fn advance<const N: usize, R: Rng<N>>(state: R::V, k: nat) -> R::V
    decreases k,
{
    if k == 0 {
        state
    } else {
        advance::<N, R>(R::next(state), (k - 1) as nat)
    }
}

/// Whether the next `k` steps from `state` are each decided by the state
/// they start from.
pub open spec fn steady<const N: usize, R: Rng<N>>(state: R::V, k: nat) -> bool
    decreases k,
{
    k == 0 || (R::determined(state) && steady::<N, R>(R::next(state), (k - 1) as nat))
}

/// The first `n` bytes that a generator in `state` emits.
pub open spec fn drawn<const N: usize, R: Rng<N>>(state: R::V, n: nat) -> Seq<u8>
    decreases n,
{
    if n == 0 || N == 0 {
        Seq::empty()
    } else if n <= N {
        R::block(state).take(n as int)
    } else {
        R::block(state) + drawn::<N, R>(R::next(state), (n - N) as nat)
    }
}

/// Advancing by `a` blocks and then by `b` is advancing by `a + b`.
pub proof fn lemma_advance_add<const N: usize, R: Rng<N>>(state: R::V, a: nat, b: nat)
    ensures
        advance::<N, R>(advance::<N, R>(state, a), b) == advance::<N, R>(state, a + b),
    decreases a,
{
    if a > 0 {
        lemma_advance_add::<N, R>(R::next(state), (a - 1) as nat, b);
    }
}

/// Steps are steady for `a + b` blocks exactly when they are for `a` blocks
/// and then for `b` more.
pub proof fn lemma_steady_add<const N: usize, R: Rng<N>>(state: R::V, a: nat, b: nat)
    ensures
        steady::<N, R>(state, a + b) <==> steady::<N, R>(state, a) && steady::<N, R>(
            advance::<N, R>(state, a),
            b,
        ),
    decreases a,
{
    if a > 0 {
        lemma_steady_add::<N, R>(R::next(state), (a - 1) as nat, b);
    }
}

/// What a generator emits has the length that was asked for.
pub proof fn lemma_drawn_len<const N: usize, R: Rng<N>>(state: R::V, n: nat)
    requires
        N > 0,
    ensures
        drawn::<N, R>(state, n).len() == n,
    decreases n,
{
    R::lemma_block_len(state);
    if n > N {
        lemma_drawn_len::<N, R>(R::next(state), (n - N) as nat);
    }
}

} // verus!
