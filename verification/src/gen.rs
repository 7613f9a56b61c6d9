//! Typed values from the blocks of a generator.
//!
//! A value of `w` bytes is made from the first `w` bytes that the generator
//! emits: one block where a block is long enough, and as many as it takes
//! where it is not. The bytes are read least significant first.
use crate::bytes::{
    decode_le, from_le, lemma_from_le_bound, lemma_pow256_monotonic, lemma_pow256_values, pow256,
};
use crate::rand::{advance, blocks_for, drawn, lemma_advance_add, lemma_steady_add, steady, Rng};
use vstd::prelude::*;

verus! {

/// One less than `k`, and zero for zero.
pub open spec fn before(k: nat) -> nat {
    if k == 0 {
        0
    } else {
        (k - 1) as nat
    }
}

/// The first `j` whole blocks and the first `m` bytes of the block after
/// them are the first `j * N + m` bytes.
pub proof fn lemma_drawn_extend<const N: usize, R: Rng<N>>(state: R::V, len: nat, j: nat, m: nat)
    requires
        N > 0,
        len == j * N,
        0 < m <= N,
    ensures
        drawn::<N, R>(state, len + m) == drawn::<N, R>(state, len) + R::block(
            advance::<N, R>(state, j),
        ).take(m as int),
    decreases j,
{
    R::lemma_block_len(state);
    if j == 0 {
        assert(len == 0) by (nonlinear_arith)
            requires
                len == j * N,
                j == 0,
        ;
        assert(drawn::<N, R>(state, 0) =~= Seq::<u8>::empty());
        assert(Seq::<u8>::empty() + R::block(state).take(m as int) =~= R::block(state).take(
            m as int,
        ));
    } else {
        assert(len >= N && len - N == (j - 1) * N) by (nonlinear_arith)
            requires
                len == j * N,
                j > 0,
                N > 0,
        ;
        let rest: nat = (len - N) as nat;
        lemma_drawn_extend::<N, R>(R::next(state), rest, (j - 1) as nat, m);
        assert((len + m - N) as nat == rest + m);
        assert(drawn::<N, R>(state, len + m) == R::block(state) + drawn::<N, R>(
            R::next(state),
            rest + m,
        ));
        if rest == 0 {
            assert(drawn::<N, R>(R::next(state), 0) =~= Seq::<u8>::empty());
            assert(drawn::<N, R>(state, len) =~= R::block(state)) by {
                assert(R::block(state).take(N as int) =~= R::block(state));
            }
        }
        assert(R::block(state) + (drawn::<N, R>(R::next(state), rest) + R::block(
            advance::<N, R>(state, j),
        ).take(m as int)) =~= (R::block(state) + drawn::<N, R>(R::next(state), rest)) + R::block(
            advance::<N, R>(state, j),
        ).take(m as int));
    }
}

/// A count of whole blocks that has not reached `n` bytes, and does with one
/// block more, is one less than the number of blocks that `n` bytes take.
pub proof fn lemma_blocks_for(n: nat, size: nat, j: nat)
    requires
        size > 0,
        j * size < n <= (j + 1) * size,
    ensures
        blocks_for(n, size) == j + 1,
{
    assert(n / size == j && n % size != 0 || n / size == j + 1 && n % size == 0)
        by (nonlinear_arith)
        requires
            size > 0,
            j * size < n <= (j + 1) * size,
    ;
}

/// The blocks that `n` bytes take hold at least `n` bytes.
pub proof fn lemma_blocks_cover(n: nat, size: nat)
    requires
        size > 0,
    ensures
        n <= blocks_for(n, size) * size,
{
    assert(n <= (n / size) * size + n % size && n % size < size) by (nonlinear_arith)
        requires
            size > 0,
    ;
    assert((n / size + 1) * size == (n / size) * size + size) by (nonlinear_arith);
}

/// The first `n` bytes that the generator emits, for a generator whose blocks
/// are not empty.
///
/// The bytes are those of `drawn` where the steps before the last block are
/// steady, and the generator is left `blocks_for(n, N)` blocks on where the
/// last step is steady too.
pub fn draw_bytes<const N: usize, R: Rng<N>>(r: &mut R, n: usize) -> (out: Vec<u8>)
    requires
        N > 0,
    ensures
        out@.len() == n,
        steady::<N, R>(old(r)@, before(blocks_for(n as nat, N as nat))) ==> out@ == drawn::<N, R>(
            old(r)@,
            n as nat,
        ),
        steady::<N, R>(old(r)@, blocks_for(n as nat, N as nat)) ==> final(r)@ == advance::<N, R>(
            old(r)@,
            blocks_for(n as nat, N as nat),
        ),
{
    let mut out: Vec<u8> = Vec::new();
    let ghost mut j: nat = 0;
    proof {
        assert(drawn::<N, R>(r@, 0) =~= out@);
        assert(0 == j * N) by (nonlinear_arith)
            requires
                j == 0,
        ;
        lemma_blocks_cover(n as nat, N as nat);
    }
    while out.len() < n
        invariant
            N > 0,
            out@.len() <= n,
            out@.len() < n ==> out@.len() == j * N,
            out@.len() == n ==> j == blocks_for(n as nat, N as nat),
            out@.len() < n ==> j < blocks_for(n as nat, N as nat),
            steady::<N, R>(old(r)@, before(j)) ==> out@ == drawn::<N, R>(old(r)@, out@.len()),
            steady::<N, R>(old(r)@, j) ==> r@ == advance::<N, R>(old(r)@, j),
        decreases n - out@.len(),
    {
        let ghost start: Seq<u8> = out@;
        let ghost at: R::V = r@;
        let block: [u8; N] = r.rand();
        let mut i: usize = 0;
        while i < N && out.len() < n
            invariant
                i <= N,
                block@.len() == N,
                out@.len() <= n,
                start.len() + i <= n,
                out@ == start + block@.take(i as int),
            decreases N - i,
        {
            out.push(block[i]);
            proof {
                assert(out@ =~= start + block@.take(i + 1));
            }
            i += 1;
        }
        proof {
            let m: nat = i as nat;
            assert(j * N + N == (j + 1) * N) by (nonlinear_arith);
            if out@.len() == n {
                lemma_blocks_for(n as nat, N as nat, j);
            } else {
                assert(m == N);
                lemma_blocks_cover(n as nat, N as nat);
                let k: nat = blocks_for(n as nat, N as nat);
                if k <= j + 1 {
                    assert(k * N <= (j + 1) * N) by (nonlinear_arith)
                        requires
                            k <= j + 1,
                            N > 0,
                    ;
                }
            }
            lemma_steady_add::<N, R>(old(r)@, before(j), (j - before(j)) as nat);
            lemma_steady_add::<N, R>(old(r)@, j, 1);
            lemma_advance_add::<N, R>(old(r)@, j, 1);
            if steady::<N, R>(old(r)@, j) {
                assert(at == advance::<N, R>(old(r)@, j));
                lemma_drawn_extend::<N, R>(old(r)@, start.len(), j, m);
                assert(steady::<N, R>(at, 1) == R::determined(at)) by {
                    reveal_with_fuel(steady, 2);
                }
                assert(advance::<N, R>(at, 1) == R::next(at)) by {
                    reveal_with_fuel(advance, 2);
                }
            }
            j = j + 1;
        }
    }
    proof {
        if n == 0 {
            assert(blocks_for(0, N as nat) == 0);
        }
    }
    out
}

/// Whether the steps that decide a value of `width` bytes are steady: all
/// steps but the one that follows the last block.
pub open spec fn value_steady<const N: usize, R: Rng<N>>(state: R::V, width: nat) -> bool {
    steady::<N, R>(state, before(blocks_for(width, N as nat)))
}

/// Whether all steps of a draw of `width` bytes are steady.
pub open spec fn draw_steady<const N: usize, R: Rng<N>>(state: R::V, width: nat) -> bool {
    steady::<N, R>(state, blocks_for(width, N as nat))
}

/// The state after a draw of `width` bytes.
pub open spec fn after_draw<const N: usize, R: Rng<N>>(state: R::V, width: nat) -> R::V {
    advance::<N, R>(state, blocks_for(width, N as nat))
}

/// The integer that the unsigned number `v` stands for in two's complement
/// of `width` bytes.
pub open spec fn twos_complement(v: nat, width: nat) -> int {
    if 2 * v >= pow256(width) {
        v - pow256(width)
    } else {
        v as int
    }
}

/// A draw whose steps are all steady has the steps that decide its value
/// steady.
pub proof fn lemma_draw_steady_value<const N: usize, R: Rng<N>>(state: R::V, width: nat)
    requires
        draw_steady::<N, R>(state, width),
    ensures
        value_steady::<N, R>(state, width),
{
    let k: nat = blocks_for(width, N as nat);
    lemma_steady_add::<N, R>(state, before(k), (k - before(k)) as nat);
}

/// The unsigned number in the first `width` bytes that the generator emits.
pub fn draw_unsigned<const N: usize, R: Rng<N>>(r: &mut R, width: usize) -> (v: u128)
    requires
        N > 0,
        width <= 16,
    ensures
        v < pow256(width as nat),
        value_steady::<N, R>(old(r)@, width as nat) ==> v == from_le(
            drawn::<N, R>(old(r)@, width as nat),
        ),
        draw_steady::<N, R>(old(r)@, width as nat) ==> final(r)@ == after_draw::<N, R>(
            old(r)@,
            width as nat,
        ),
{
    let bytes: Vec<u8> = draw_bytes(r, width);
    proof {
        lemma_from_le_bound(bytes@);
    }
    decode_le(bytes.as_slice())
}

/// The integer that `v` stands for in two's complement of `width` bytes.
pub fn signed_of(v: u128, width: usize) -> (s: i128)
    requires
        1 <= width <= 8,
        v < pow256(width as nat),
    ensures
        s == twos_complement(v as nat, width as nat),
{
    proof {
        lemma_pow256_monotonic(width as nat, 8);
        lemma_pow256_values();
    }
    let modulus: u128 = modulus_of(width);
    if 2 * v >= modulus {
        v as i128 - modulus as i128
    } else {
        v as i128
    }
}

/// 256 to the power `width`.
pub fn modulus_of(width: usize) -> (modulus: u128)
    requires
        width <= 8,
    ensures
        modulus == pow256(width as nat),
{
    let mut modulus: u128 = 1;
    let mut i: usize = 0;
    while i < width
        invariant
            i <= width <= 8,
            modulus == pow256(i as nat),
        decreases width - i,
    {
        proof {
            lemma_pow256_monotonic(i as nat + 1, 8);
            lemma_pow256_values();
        }
        modulus = modulus * 256;
        i += 1;
    }
    modulus
}

/// A type whose values can be made from the blocks of a generator.
pub trait RandomGen<const OUTPUT: usize, R: Rng<OUTPUT>>: Sized {
    /// The number of bytes that a value is made from.
    spec fn width() -> nat;

    /// The value that `width()` bytes stand for.
    spec fn decode(bytes: Seq<u8>) -> Self;

    /// A value from the first `width()` bytes that the generator emits. The
    /// blocks of the generator must not be empty.
    fn random(r: &mut R) -> (value: Self)
        requires
            OUTPUT > 0,
        ensures
            value_steady::<OUTPUT, R>(old(r)@, Self::width()) ==> value == Self::decode(
                drawn::<OUTPUT, R>(old(r)@, Self::width()),
            ),
            draw_steady::<OUTPUT, R>(old(r)@, Self::width()) ==> final(r)@ == after_draw::<
                OUTPUT,
                R,
            >(old(r)@, Self::width()),
    ;
}

impl<const OUTPUT: usize, R: Rng<OUTPUT>> RandomGen<OUTPUT, R> for bool {
    open spec fn width() -> nat {
        1
    }

    /// A byte below 128 stands for `true`.
    open spec fn decode(bytes: Seq<u8>) -> bool {
        bytes[0] < 0x80
    }

    fn random(r: &mut R) -> (value: bool) {
        let bytes: Vec<u8> = draw_bytes(r, 1);
        bytes[0] < 0x80
    }
}

impl<const OUTPUT: usize, R: Rng<OUTPUT>> RandomGen<OUTPUT, R> for u8 {
    open spec fn width() -> nat {
        1
    }

    open spec fn decode(bytes: Seq<u8>) -> u8 {
        from_le(bytes) as u8
    }

    fn random(r: &mut R) -> (value: u8) {
        let v: u128 = draw_unsigned(r, 1);
        proof {
            lemma_pow256_values();
        }
        v as u8
    }
}

impl<const OUTPUT: usize, R: Rng<OUTPUT>> RandomGen<OUTPUT, R> for u16 {
    open spec fn width() -> nat {
        2
    }

    open spec fn decode(bytes: Seq<u8>) -> u16 {
        from_le(bytes) as u16
    }

    fn random(r: &mut R) -> (value: u16) {
        let v: u128 = draw_unsigned(r, 2);
        proof {
            lemma_pow256_values();
        }
        v as u16
    }
}

impl<const OUTPUT: usize, R: Rng<OUTPUT>> RandomGen<OUTPUT, R> for u32 {
    open spec fn width() -> nat {
        4
    }

    open spec fn decode(bytes: Seq<u8>) -> u32 {
        from_le(bytes) as u32
    }

    fn random(r: &mut R) -> (value: u32) {
        let v: u128 = draw_unsigned(r, 4);
        proof {
            lemma_pow256_values();
        }
        v as u32
    }
}

impl<const OUTPUT: usize, R: Rng<OUTPUT>> RandomGen<OUTPUT, R> for u64 {
    open spec fn width() -> nat {
        8
    }

    open spec fn decode(bytes: Seq<u8>) -> u64 {
        from_le(bytes) as u64
    }

    fn random(r: &mut R) -> (value: u64) {
        let v: u128 = draw_unsigned(r, 8);
        proof {
            lemma_pow256_values();
        }
        v as u64
    }
}

impl<const OUTPUT: usize, R: Rng<OUTPUT>> RandomGen<OUTPUT, R> for u128 {
    open spec fn width() -> nat {
        16
    }

    open spec fn decode(bytes: Seq<u8>) -> u128 {
        from_le(bytes) as u128
    }

    fn random(r: &mut R) -> (value: u128) {
        let v: u128 = draw_unsigned(r, 16);
        proof {
            lemma_pow256_values();
        }
        v as u128
    }
}

impl<const OUTPUT: usize, R: Rng<OUTPUT>> RandomGen<OUTPUT, R> for i8 {
    open spec fn width() -> nat {
        1
    }

    open spec fn decode(bytes: Seq<u8>) -> i8 {
        twos_complement(from_le(bytes), 1) as i8
    }

    fn random(r: &mut R) -> (value: i8) {
        let v: u128 = draw_unsigned(r, 1);
        proof {
            lemma_pow256_values();
        }
        signed_of(v, 1) as i8
    }
}

impl<const OUTPUT: usize, R: Rng<OUTPUT>> RandomGen<OUTPUT, R> for i16 {
    open spec fn width() -> nat {
        2
    }

    open spec fn decode(bytes: Seq<u8>) -> i16 {
        twos_complement(from_le(bytes), 2) as i16
    }

    fn random(r: &mut R) -> (value: i16) {
        let v: u128 = draw_unsigned(r, 2);
        proof {
            lemma_pow256_values();
        }
        signed_of(v, 2) as i16
    }
}

impl<const OUTPUT: usize, R: Rng<OUTPUT>> RandomGen<OUTPUT, R> for i32 {
    open spec fn width() -> nat {
        4
    }

    open spec fn decode(bytes: Seq<u8>) -> i32 {
        twos_complement(from_le(bytes), 4) as i32
    }

    fn random(r: &mut R) -> (value: i32) {
        let v: u128 = draw_unsigned(r, 4);
        proof {
            lemma_pow256_values();
        }
        signed_of(v, 4) as i32
    }
}

impl<const OUTPUT: usize, R: Rng<OUTPUT>> RandomGen<OUTPUT, R> for i64 {
    open spec fn width() -> nat {
        8
    }

    open spec fn decode(bytes: Seq<u8>) -> i64 {
        twos_complement(from_le(bytes), 8) as i64
    }

    fn random(r: &mut R) -> (value: i64) {
        let v: u128 = draw_unsigned(r, 8);
        proof {
            lemma_pow256_values();
        }
        signed_of(v, 8) as i64
    }
}

impl<const OUTPUT: usize, R: Rng<OUTPUT>> RandomGen<OUTPUT, R> for i128 {
    open spec fn width() -> nat {
        16
    }

    open spec fn decode(bytes: Seq<u8>) -> i128 {
        twos_complement(from_le(bytes), 16) as i128
    }

    fn random(r: &mut R) -> (value: i128) {
        let v: u128 = draw_unsigned(r, 16);
        proof {
            lemma_pow256_values();
        }
        if v >= 0x8000_0000_0000_0000_0000_0000_0000_0000 {
            ((v - 0x8000_0000_0000_0000_0000_0000_0000_0000) as i128) + i128::MIN
        } else {
            v as i128
        }
    }
}

/// The number of bytes of a pointer-sized integer.
pub fn pointer_width() -> (width: usize)
    ensures
        width == usize::BITS / 8,
        width == 4 || width == 8,
        pow256(width as nat) == usize::MAX + 1,
        pow256(width as nat) == 2 * (isize::MAX + 1),
        isize::MIN == -(isize::MAX + 1),
{
    proof {
        lemma_pow256_values();
    }
    (usize::BITS / 8) as usize
}

impl<const OUTPUT: usize, R: Rng<OUTPUT>> RandomGen<OUTPUT, R> for usize {
    open spec fn width() -> nat {
        (usize::BITS / 8) as nat
    }

    open spec fn decode(bytes: Seq<u8>) -> usize {
        from_le(bytes) as usize
    }

    fn random(r: &mut R) -> (value: usize) {
        let v: u128 = draw_unsigned(r, pointer_width());
        v as usize
    }
}

impl<const OUTPUT: usize, R: Rng<OUTPUT>> RandomGen<OUTPUT, R> for isize {
    open spec fn width() -> nat {
        (usize::BITS / 8) as nat
    }

    open spec fn decode(bytes: Seq<u8>) -> isize {
        twos_complement(from_le(bytes), (usize::BITS / 8) as nat) as isize
    }

    fn random(r: &mut R) -> (value: isize) {
        let width: usize = pointer_width();
        let v: u128 = draw_unsigned(r, width);
        signed_of(v, width) as isize
    }
}

} // verus!
