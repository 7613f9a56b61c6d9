//! The ChaCha block function.
//!
//! A ChaCha state is sixteen 32-bit words: four constant words, eight key
//! words, one block counter and three nonce words. The block function mixes a
//! copy of the state with a number of double rounds and adds the state to
//! the result, word by word.
use crate::bytes::{decode_le, from_le, lemma_from_le_bound, lemma_pow256_values};
use vstd::prelude::*;
use vstd::slice::slice_subrange;

verus! {

/// Index of the block counter in a state.
pub const COUNTER: usize = 12;

/// The constant words: the ASCII text `expand 16-byte k`, read as four
/// little-endian words.
pub open spec fn constant_word(i: int) -> u32 {
    if i == 0 {
        0x6170_7865
    } else if i == 1 {
        0x3120_646e
    } else if i == 2 {
        0x7962_2d36
    } else {
        0x6b20_6574
    }
}

/// `a` rotated left by `b` bits.
pub open spec fn rotl(a: u32, b: u32) -> u32 {
    (a << b) | (a >> ((32 - b) as u32))
}

/// One quarter round on the words at `a`, `b`, `c` and `d`: four
/// add-xor-rotate steps, with the rotations 16, 12, 8 and 7.
#[verifier::opaque]
pub open spec fn quarter_round(x: Seq<u32>, a: int, b: int, c: int, d: int) -> Seq<u32> {
    let x1 = x.update(a, x[a].wrapping_add(x[b]));
    let x2 = x1.update(d, rotl(x1[d] ^ x1[a], 16));
    let x3 = x2.update(c, x2[c].wrapping_add(x2[d]));
    let x4 = x3.update(b, rotl(x3[b] ^ x3[c], 12));
    let x5 = x4.update(a, x4[a].wrapping_add(x4[b]));
    let x6 = x5.update(d, rotl(x5[d] ^ x5[a], 8));
    let x7 = x6.update(c, x6[c].wrapping_add(x6[d]));
    x7.update(b, rotl(x7[b] ^ x7[c], 7))
}

/// The four quarter rounds down the columns of the 4x4 word matrix.
pub open spec fn column_round(x: Seq<u32>) -> Seq<u32> {
    quarter_round(
        quarter_round(quarter_round(quarter_round(x, 0, 4, 8, 12), 1, 5, 9, 13), 2, 6, 10, 14),
        3,
        7,
        11,
        15,
    )
}

/// The four quarter rounds across the 4x4 word matrix, each on one word of
/// every row and every column.
pub open spec fn diagonal_round(x: Seq<u32>) -> Seq<u32> {
    quarter_round(
        quarter_round(quarter_round(quarter_round(x, 0, 5, 10, 15), 1, 6, 11, 14), 2, 7, 8, 13),
        3,
        4,
        9,
        12,
    )
}

/// `n` double rounds: a column round and then a diagonal round, `n` times.
pub open spec fn double_rounds(x: Seq<u32>, n: nat) -> Seq<u32>
    decreases n,
{
    if n == 0 {
        x
    } else {
        diagonal_round(column_round(double_rounds(x, (n - 1) as nat)))
    }
}

/// The block that `rounds` rounds make of the state `input`.
pub open spec fn block_words(rounds: nat, input: Seq<u32>) -> Seq<u32> {
    Seq::new(16, |i: int| double_rounds(input, rounds / 2)[i].wrapping_add(input[i]))
}

/// The little-endian word that the four bytes of `b` from index `at` hold.
pub open spec fn word_at(b: Seq<u8>, at: int) -> u32 {
    from_le(b.subrange(at, at + 4)) as u32
}

/// The state at the start of the key stream of `key` and `nonce`: the
/// constant words, the key, a zero counter, and the first twelve bytes of the
/// nonce.
pub open spec fn initial_state(key: Seq<u8>, nonce: Seq<u8>) -> Seq<u32> {
    Seq::new(
        16,
        |i: int|
            if i < 4 {
                constant_word(i)
            } else if i < 12 {
                word_at(key, 4 * (i - 4))
            } else if i == 12 {
                0u32
            } else {
                word_at(nonce, 4 * (i - 13))
            },
    )
}

/// `a` rotated left by `b` bits, for a `b` from 1 to 31.
pub fn chacha_rotl(a: u32, b: u32) -> (r: u32)
    requires
        0 < b < 32,
    ensures
        r == rotl(a, b),
{
    (a << b) | (a >> (32 - b))
}

/// One quarter round on the words of `x` at `a`, `b`, `c` and `d`.
pub fn chacha_quarter_round(x: &mut [u32; 16], a: usize, b: usize, c: usize, d: usize)
    requires
        a < 16,
        b < 16,
        c < 16,
        d < 16,
    ensures
        final(x)@ == quarter_round(old(x)@, a as int, b as int, c as int, d as int),
{
    proof {
        reveal(quarter_round);
    }
    x[a] = x[a].wrapping_add(x[b]);
    x[d] = chacha_rotl(x[d] ^ x[a], 16);
    x[c] = x[c].wrapping_add(x[d]);
    x[b] = chacha_rotl(x[b] ^ x[c], 12);
    x[a] = x[a].wrapping_add(x[b]);
    x[d] = chacha_rotl(x[d] ^ x[a], 8);
    x[c] = x[c].wrapping_add(x[d]);
    x[b] = chacha_rotl(x[b] ^ x[c], 7);
}

/// The little-endian word in the four bytes of `x` from index `a`.
pub fn chacha_pack(x: &[u8], a: usize) -> (r: u32)
    requires
        a + 4 <= x@.len(),
    ensures
        r == word_at(x@, a as int),
{
    let n: usize = x.len();
    let four: &[u8] = slice_subrange(x, a, a + 4);
    proof {
        lemma_from_le_bound(four@);
        lemma_pow256_values();
    }
    let v: u128 = decode_le(four);
    v as u32
}

/// The block of the state `input` after `rounds` rounds, which must be an
/// even number.
pub fn chacha_block(rounds: u8, input: [u32; 16]) -> (out: [u32; 16])
    requires
        rounds % 2 == 0,
    ensures
        out@ == block_words(rounds as nat, input@),
{
    let mut x: [u32; 16] = input;
    let mut done: u8 = 0;
    while done < rounds
        invariant
            done % 2 == 0,
            rounds % 2 == 0,
            done <= rounds,
            x@ == double_rounds(input@, (done / 2) as nat),
        decreases rounds - done,
    {
        chacha_quarter_round(&mut x, 0, 4, 8, 12);
        chacha_quarter_round(&mut x, 1, 5, 9, 13);
        chacha_quarter_round(&mut x, 2, 6, 10, 14);
        chacha_quarter_round(&mut x, 3, 7, 11, 15);
        chacha_quarter_round(&mut x, 0, 5, 10, 15);
        chacha_quarter_round(&mut x, 1, 6, 11, 14);
        chacha_quarter_round(&mut x, 2, 7, 8, 13);
        chacha_quarter_round(&mut x, 3, 4, 9, 12);
        done = done + 2;
    }
    let ghost mixed: Seq<u32> = x@;
    let mut i: usize = 0;
    while i < 16
        invariant
            i <= 16,
            mixed.len() == 16,
            x@.len() == 16,
            forall|j: int| 0 <= j < i ==> x@[j] == mixed[j].wrapping_add(input@[j]),
            forall|j: int| i <= j < 16 ==> x@[j] == mixed[j],
        decreases 16 - i,
    {
        x[i] = x[i].wrapping_add(input[i]);
        i += 1;
    }
    proof {
        assert(x@ =~= block_words(rounds as nat, input@));
    }
    x
}

/// The state at the start of the key stream of `key` and `nonce`.
pub fn chacha_init(key: [u8; 32], nonce: [u8; 16]) -> (state: [u32; 16])
    ensures
        state@ == initial_state(key@, nonce@),
{
    let state: [u32; 16] = [
        0x6170_7865,
        0x3120_646e,
        0x7962_2d36,
        0x6b20_6574,
        chacha_pack(key.as_slice(), 0),
        chacha_pack(key.as_slice(), 4),
        chacha_pack(key.as_slice(), 8),
        chacha_pack(key.as_slice(), 12),
        chacha_pack(key.as_slice(), 16),
        chacha_pack(key.as_slice(), 20),
        chacha_pack(key.as_slice(), 24),
        chacha_pack(key.as_slice(), 28),
        0,
        chacha_pack(nonce.as_slice(), 0),
        chacha_pack(nonce.as_slice(), 4),
        chacha_pack(nonce.as_slice(), 8),
    ];
    proof {
        assert(state@ =~= initial_state(key@, nonce@));
    }
    state
}

/// Moves the state on to the next block. Returns `false`, and leaves the
/// state as it is, where the counter has no higher value to take.
pub fn chacha_increment_counter(state: &mut [u32; 16]) -> (ok: bool)
    ensures
        ok == (old(state)@[COUNTER as int] < u32::MAX),
        ok ==> final(state)@ == old(state)@.update(
            COUNTER as int,
            (old(state)@[COUNTER as int] + 1) as u32,
        ),
        !ok ==> final(state)@ == old(state)@,
{
    if state[COUNTER] < u32::MAX {
        state[COUNTER] = state[COUNTER] + 1;
        true
    } else {
        false
    }
}

} // verus!
