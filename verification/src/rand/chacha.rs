//! The ChaCha generator: the key stream of the ChaCha block function.
use crate::bytes::{le_byte, le_bytes, to_le};
use crate::crypto::chacha::{
    block_words, chacha_block, chacha_increment_counter, chacha_init, initial_state, COUNTER,
};
use crate::entropy::entropy_from_system;
use crate::rand::{pad, padded, steady, Rng, SeedableRng};
use crate::wipe::wipe_words;
use vstd::array::array_fill_for_copy_types;
use vstd::prelude::*;

verus! {

/// Why a ChaCha generator could not be made.
#[derive(Clone, Copy, Debug, PartialEq, Eq, Structural)]
pub enum ChaChaError {
    /// The number of rounds is zero or odd.
    InvalidRoundCount,
}

impl ChaChaError {
    /// The error in words.
    pub fn message(&self) -> (text: &'static str)
        ensures
            text@ == "the number of rounds must be even and not zero"@,
    {
        "the number of rounds must be even and not zero"
    }
}

/// The state of a ChaCha generator.
pub struct ChaChaView {
    /// The sixteen words that the next block is made from.
    pub words: Seq<u32>,
    /// The number of rounds of the block function.
    pub rounds: u8,
}

/// Whether a block function can run `rounds` rounds: they come in pairs, and
/// there is at least one pair.
pub open spec fn valid_rounds(rounds: u8) -> bool {
    rounds > 0 && rounds % 2 == 0
}

/// The words of a state at the start of some key stream.
pub open spec fn is_initial(words: Seq<u32>) -> bool {
    exists|key: Seq<u8>, nonce: Seq<u8>|
        key.len() == 32 && nonce.len() == 16 && words == #[trigger] initial_state(key, nonce)
}

/// The bytes of `words`, each word least significant byte first.
pub open spec fn words_le(words: Seq<u32>) -> Seq<u8> {
    Seq::new(4 * words.len(), |i: int| le_byte(words[i / 4] as nat, (i % 4) as nat))
}

/// The state that the 48 seed bytes `seed` give: a key of 32 bytes, then a
/// nonce of 16.
pub open spec fn seeded_words(seed: Seq<u8>) -> Seq<u32> {
    initial_state(seed.subrange(0, 32), seed.subrange(32, 48))
}

/// The bytes of sixteen words, each word least significant byte first.
pub fn block_bytes(words: &[u32; 16]) -> (out: [u8; 64])
    ensures
        out@ == words_le(words@),
{
    let mut out: [u8; 64] = [0u8; 64];
    let mut i: usize = 0;
    while i < 16
        invariant
            i <= 16,
            forall|k: int| 0 <= k < 4 * i ==> out@[k] == le_byte(words@[k / 4] as nat, (k % 4) as nat),
        decreases 16 - i,
    {
        let word: [u8; 4] = to_le::<4>(words[i] as u128);
        out[4 * i] = word[0];
        out[4 * i + 1] = word[1];
        out[4 * i + 2] = word[2];
        out[4 * i + 3] = word[3];
        i += 1;
    }
    proof {
        assert(out@ =~= words_le(words@));
    }
    out
}

/// The key and the nonce in 48 seed bytes.
fn split_seed(seed: &[u8; 48]) -> (parts: ([u8; 32], [u8; 16]))
    ensures
        parts.0@ == seed@.subrange(0, 32),
        parts.1@ == seed@.subrange(32, 48),
{
    let mut key: [u8; 32] = [0u8; 32];
    let mut nonce: [u8; 16] = [0u8; 16];
    let mut i: usize = 0;
    while i < 32
        invariant
            i <= 32,
            forall|k: int| 0 <= k < i ==> key@[k] == seed@[k],
        decreases 32 - i,
    {
        key[i] = seed[i];
        i += 1;
    }
    let mut j: usize = 0;
    while j < 16
        invariant
            j <= 16,
            forall|k: int| 0 <= k < j ==> nonce@[k] == seed@[32 + k],
        decreases 16 - j,
    {
        nonce[j] = seed[32 + j];
        j += 1;
    }
    proof {
        assert(key@ =~= seed@.subrange(0, 32));
        assert(nonce@ =~= seed@.subrange(32, 48));
    }
    (key, nonce)
}

/// A ChaCha generator.
#[derive(Debug)]
pub struct ChaCha {
    state: [u32; 16],
    rounds: u8,
}

impl View for ChaCha {
    type V = ChaChaView;

    closed spec fn view(&self) -> ChaChaView {
        ChaChaView { words: self.state@, rounds: self.rounds }
    }
}

impl ChaCha {
    #[verifier::type_invariant]
    spec fn rounds_come_in_pairs(self) -> bool {
        valid_rounds(self.rounds)
    }

    /// A generator of `rounds` rounds with a key and a nonce from the
    /// system's entropy. Fails where `rounds` is zero or odd.
    pub fn new(rounds: u8) -> (made: Result<ChaCha, ChaChaError>)
        ensures
            made is Ok <==> valid_rounds(rounds),
            made matches Ok(rng) ==> rng@.rounds == rounds && is_initial(rng@.words),
            made matches Err(why) ==> why == ChaChaError::InvalidRoundCount,
    {
        if rounds == 0 || rounds % 2 != 0 {
            return Err(ChaChaError::InvalidRoundCount);
        }
        let key: Vec<u8> = entropy_from_system(32);
        let nonce: Vec<u8> = entropy_from_system(16);
        ChaCha::new_key(rounds, pad::<32>(key.as_slice()), pad::<16>(nonce.as_slice()))
    }

    /// A generator of `rounds` rounds at the start of the key stream of `key`
    /// and `nonce`. Fails where `rounds` is zero or odd.
    pub fn new_key(rounds: u8, key: [u8; 32], nonce: [u8; 16]) -> (made: Result<
        ChaCha,
        ChaChaError,
    >)
        ensures
            made is Ok <==> valid_rounds(rounds),
            made matches Ok(rng) ==> rng@ == (ChaChaView {
                words: initial_state(key@, nonce@),
                rounds,
            }),
            made matches Err(why) ==> why == ChaChaError::InvalidRoundCount,
    {
        if rounds == 0 || rounds % 2 != 0 {
            return Err(ChaChaError::InvalidRoundCount);
        }
        Ok(ChaCha { state: chacha_init(key, nonce), rounds })
    }
}

impl ChaCha {
    /// Wipes the key, the nonce and the counter from memory: the sixteen
    /// words of the state are left zero. The number of rounds is no secret,
    /// and stays.
    pub fn zeroize(&mut self)
        ensures
            final(self)@ == (ChaChaView { words: Seq::new(16, |i: int| 0u32), rounds: old(self)@.rounds }),
    {
        proof {
            use_type_invariant(&*self);
        }
        wipe_words(&mut self.state);
    }
}

impl Default for ChaCha {
    /// A generator of twenty rounds with a key and a nonce from the system's
    /// entropy.
    fn default() -> (rng: ChaCha)
        ensures
            rng@.rounds == 20,
            is_initial(rng@.words),
    {
        let key: Vec<u8> = entropy_from_system(32);
        let nonce: Vec<u8> = entropy_from_system(16);
        ChaCha { state: chacha_init(pad::<32>(key.as_slice()), pad::<16>(nonce.as_slice())), rounds: 20 }
    }
}

impl Clone for ChaCha {
    fn clone(&self) -> (copy: ChaCha)
        ensures
            copy@ == self@,
    {
        proof {
            use_type_invariant(self);
        }
        ChaCha { state: self.state, rounds: self.rounds }
    }
}

impl ChaCha {
    /// A generator of `rounds` rounds at the start of the key stream of `key`
    /// and a nonce of 8 bytes, which is filled up to 16 bytes with zero bytes.
    /// Fails where `rounds` is zero or odd.
    pub fn new_key_nonce64(rounds: u8, key: [u8; 32], nonce: [u8; 8]) -> (made: Result<
        ChaCha,
        ChaChaError,
    >)
        ensures
            made is Ok <==> valid_rounds(rounds),
            made matches Ok(rng) ==> rng@ == (ChaChaView {
                words: initial_state(key@, padded(nonce@, 16)),
                rounds,
            }),
            made matches Err(why) ==> why == ChaChaError::InvalidRoundCount,
    {
        ChaCha::new_key(rounds, key, pad::<16>(nonce.as_slice()))
    }
}

impl Rng<64> for ChaCha {
    open spec fn block(state: ChaChaView) -> Seq<u8> {
        words_le(block_words(state.rounds as nat, state.words))
    }

    open spec fn next(state: ChaChaView) -> ChaChaView {
        ChaChaView {
            words: state.words.update(COUNTER as int, (state.words[COUNTER as int] + 1) as u32),
            rounds: state.rounds,
        }
    }

    open spec fn determined(state: ChaChaView) -> bool {
        state.words[COUNTER as int] < u32::MAX
    }

    proof fn lemma_block_len(state: ChaChaView) {
    }

    /// Emits the block of the state and moves the counter on. Where the
    /// counter has no higher value to take, the key stream is used up: the
    /// generator then takes a fresh key and nonce from the system's entropy,
    /// and what follows has nothing to do with what came before.
    fn rand(&mut self) -> (out: [u8; 64])
        ensures
            final(self)@.rounds == old(self)@.rounds,
            !Self::determined(old(self)@) ==> is_initial(final(self)@.words),
    {
        proof {
            use_type_invariant(&*self);
        }
        let words: [u32; 16] = chacha_block(self.rounds, self.state);
        let out: [u8; 64] = block_bytes(&words);
        let mut state: [u32; 16] = self.state;
        if chacha_increment_counter(&mut state) {
            self.state = state;
        } else {
            let fresh: Vec<u8> = entropy_from_system(48);
            self.reseed(fresh.as_slice());
        }
        out
    }
}

impl SeedableRng<48, 64> for ChaCha {
    open spec fn seeded(state: ChaChaView, seed: Seq<u8>) -> ChaChaView {
        ChaChaView { words: seeded_words(seed), rounds: state.rounds }
    }

    fn reseed(&mut self, seed: &[u8]) {
        let bytes: [u8; 48] = pad::<48>(seed);
        let (key, nonce) = split_seed(&bytes);
        proof {
            use_type_invariant(&*self);
        }
        self.state = chacha_init(key, nonce);
    }
}

/// A ChaCha generator is decided by the state it starts from for as many
/// blocks as its counter has values left. Within that window, two generators
/// in the same state, put through the same calls, emit the same bytes and
/// stay in the same state. Past it each takes a key and a nonce of its own
/// from the system's entropy.
pub proof fn lemma_chacha_steady(state: ChaChaView, k: nat)
    requires
        state.words.len() == 16,
        state.words[COUNTER as int] + k <= u32::MAX,
    ensures
        steady::<64, ChaCha>(state, k),
    decreases k,
{
    if k > 0 {
        lemma_chacha_steady(
            ChaChaView {
                words: state.words.update(
                    COUNTER as int,
                    (state.words[COUNTER as int] + 1) as u32,
                ),
                rounds: state.rounds,
            },
            (k - 1) as nat,
        );
    }
}

} // verus!
