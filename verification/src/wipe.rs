//! Wiping secrets from memory.
//!
//! An ordinary write of zeros to a value that is not read again may be
//! dropped by the compiler. The writes here go through the `zeroize` crate,
//! which makes them in a way that the compiler has to keep.
use vstd::prelude::*;
use zeroize::Zeroize;

verus! {

/// `Zeroize::zeroize` on a `u64`: a volatile write of the type's default
/// value, which is zero.
#[verifier::external_body]
pub(crate) fn wipe_u64(value: &mut u64)
    ensures
        *final(value) == 0,
    no_unwind
{
    value.zeroize()
}

/// `Zeroize::zeroize` on a `u128`: a volatile write of the type's default
/// value, which is zero.
#[verifier::external_body]
pub(crate) fn wipe_u128(value: &mut u128)
    ensures
        *final(value) == 0,
    no_unwind
{
    value.zeroize()
}

/// `Zeroize::zeroize` on an array of sixteen `u32`: a volatile write of zero
/// to each element in turn.
#[verifier::external_body]
pub(crate) fn wipe_words(words: &mut [u32; 16])
    ensures
        final(words)@ == Seq::new(16, |i: int| 0u32),
    no_unwind
{
    words.zeroize()
}

} // verus!
