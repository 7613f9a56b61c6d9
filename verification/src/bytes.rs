//! Integers as byte strings.
//!
//! A byte string stands for the natural number whose base-256 digits it
//! holds. The generators emit their blocks least significant byte first, and
//! the typed layer reads integers back from blocks in the same order, on
//! every machine.
use vstd::arithmetic::div_mod::lemma_div_denominator;
use vstd::array::array_fill_for_copy_types;
use vstd::prelude::*;

verus! {

/// 256 to the power `n`.
pub open spec fn pow256(n: nat) -> nat
    decreases n,
{
    if n == 0 {
        1
    } else {
        256 * pow256((n - 1) as nat)
    }
}

/// The base-256 digit of `x` with weight `256^i`.
pub open spec fn le_byte(x: nat, i: nat) -> u8 {
    ((x / pow256(i)) % 256) as u8
}

/// The `n` lowest base-256 digits of `x`, least significant first.
pub open spec fn le_bytes(x: nat, n: nat) -> Seq<u8> {
    Seq::new(n, |i: int| le_byte(x, i as nat))
}

/// The `n` lowest base-256 digits of `x`, most significant first.
pub open spec fn be_bytes(x: nat, n: nat) -> Seq<u8> {
    Seq::new(n, |i: int| le_byte(x, (n - 1 - i) as nat))
}

/// The number whose base-256 digits are `b`, least significant first.
pub open spec fn from_le(b: Seq<u8>) -> nat
    decreases b.len(),
{
    if b.len() == 0 {
        0
    } else {
        b[0] as nat + 256 * from_le(b.skip(1))
    }
}

/// The powers of 256 that bound the machine integers.
pub proof fn lemma_pow256_values()
    ensures
        pow256(0) == 1,
        pow256(1) == 0x100,
        pow256(2) == 0x1_0000,
        pow256(4) == 0x1_0000_0000,
        pow256(8) == 0x1_0000_0000_0000_0000,
        pow256(16) == 0x1_0000_0000_0000_0000_0000_0000_0000_0000,
{
    reveal_with_fuel(pow256, 17);
}

/// Powers of 256 are positive and grow with the exponent.
pub proof fn lemma_pow256_monotonic(a: nat, b: nat)
    requires
        a <= b,
    ensures
        0 < pow256(a) <= pow256(b),
    decreases b,
{
    if b == 0 {
    } else if a == b {
        lemma_pow256_monotonic(0, (b - 1) as nat);
    } else {
        lemma_pow256_monotonic(a, (b - 1) as nat);
    }
}

/// A string of `n` bytes stands for a number below `256^n`.
pub proof fn lemma_from_le_bound(b: Seq<u8>)
    ensures
        from_le(b) < pow256(b.len()),
    decreases b.len(),
{
    if b.len() > 0 {
        lemma_from_le_bound(b.skip(1));
    }
}

/// Reading back the `n` lowest digits of `x` gives `x` modulo `256^n`.
pub proof fn lemma_from_le_of_le_bytes(x: nat, n: nat)
    ensures
        from_le(le_bytes(x, n)) == x % pow256(n),
    decreases n,
{
    let b = le_bytes(x, n);
    if n == 0 {
    } else {
        let m = (n - 1) as nat;
        let rest = le_bytes(x / 256, m);
        assert(b.skip(1) =~= rest) by {
            assert forall|i: int| 0 <= i < m implies b.skip(1)[i] == rest[i] by {
                lemma_pow256_monotonic(0, i as nat);
                lemma_div_denominator(x as int, 256, pow256(i as nat) as int);
                assert(pow256((i + 1) as nat) == 256 * pow256(i as nat));
            }
        }
        lemma_from_le_of_le_bytes(x / 256, m);
        lemma_pow256_monotonic(0, m);
        let p = pow256(m) as int;
        let q = (x / 256) as int;
        assert(x as int % (256 * p) == x as int % 256 + 256 * (q % p)) by (nonlinear_arith)
            requires
                p > 0,
                x >= 0,
                q == x as int / 256,
        ;
    }
}

/// The number that up to 16 bytes stand for, least significant byte first.
pub fn decode_le(bytes: &[u8]) -> (v: u128)
    requires
        bytes@.len() <= 16,
    ensures
        v == from_le(bytes@),
{
    let n: usize = bytes.len();
    let mut v: u128 = 0;
    let mut i: usize = n;
    proof {
        assert(bytes@.skip(n as int).len() == 0);
    }
    while i > 0
        invariant
            n == bytes@.len(),
            n <= 16,
            i <= n,
            v == from_le(bytes@.skip(i as int)),
        decreases i,
    {
        proof {
            let tail = bytes@.skip(i as int - 1);
            assert(tail.skip(1) =~= bytes@.skip(i as int));
            assert(tail[0] == bytes@[i as int - 1]);
            lemma_from_le_bound(bytes@.skip(i as int));
            lemma_from_le_bound(tail);
            lemma_pow256_monotonic(tail.len(), 16);
            lemma_pow256_values();
        }
        i -= 1;
        v = v * 256 + bytes[i] as u128;
    }
    proof {
        assert(bytes@.skip(0) =~= bytes@);
    }
    v
}

/// The `N` lowest bytes of `x`, least significant first.
pub fn to_le<const N: usize>(x: u128) -> (out: [u8; N])
    ensures
        out@ == le_bytes(x as nat, N as nat),
{
    let mut out: [u8; N] = array_fill_for_copy_types::<u8, N>(0);
    let mut rest: u128 = x;
    let mut i: usize = 0;
    proof {
        assert(pow256(0) == 1);
        assert(x as nat / 1 == x as nat);
    }
    while i < N
        invariant
            i <= N,
            out@.len() == N,
            rest == x as nat / pow256(i as nat),
            forall|j: int| 0 <= j < i ==> out@[j] == le_byte(x as nat, j as nat),
        decreases N - i,
    {
        proof {
            lemma_pow256_monotonic(0, i as nat);
            lemma_div_denominator(x as int, pow256(i as nat) as int, 256);
            assert(pow256((i + 1) as nat) == 256 * pow256(i as nat));
        }
        out[i] = (rest % 256) as u8;
        rest = rest / 256;
        i += 1;
    }
    proof {
        assert(out@ =~= le_bytes(x as nat, N as nat));
    }
    out
}

/// The `N` lowest bytes of `x`, most significant first.
pub fn to_be<const N: usize>(x: u128) -> (out: [u8; N])
    ensures
        out@ == be_bytes(x as nat, N as nat),
{
    let mut out: [u8; N] = array_fill_for_copy_types::<u8, N>(0);
    let mut rest: u128 = x;
    let mut i: usize = 0;
    proof {
        assert(pow256(0) == 1);
        assert(x as nat / 1 == x as nat);
    }
    while i < N
        invariant
            i <= N,
            out@.len() == N,
            rest == x as nat / pow256(i as nat),
            forall|j: int| N - i <= j < N ==> out@[j] == le_byte(x as nat, (N - 1 - j) as nat),
        decreases N - i,
    {
        proof {
            lemma_pow256_monotonic(0, i as nat);
            lemma_div_denominator(x as int, pow256(i as nat) as int, 256);
            assert(pow256((i + 1) as nat) == 256 * pow256(i as nat));
        }
        out[N - 1 - i] = (rest % 256) as u8;
        rest = rest / 256;
        i += 1;
    }
    proof {
        assert(out@ =~= be_bytes(x as nat, N as nat));
    }
    out
}

} // verus!
