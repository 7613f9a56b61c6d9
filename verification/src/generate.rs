//! What every generator offers on top of its blocks: typed values, values
//! in ranges, filling and shuffling.
use crate::gen::{after_draw, draw_steady, pointer_width, value_steady, RandomGen};
use crate::rand::{drawn, Rng};
use crate::range::{
    after_draws, closed_lower, closed_upper, draws_steady, lemma_draws_add, map_bound,
    sample_between, sample_steady, sampled, Bound, Bounds, RandomRange, RangeError,
};
use vstd::prelude::*;
use vstd::seq_lib::to_multiset_update;

verus! {

/// `<[T]>::swap` exchanges the elements at `a` and `b`, and panics where one
/// of the two is no index of the slice.
pub assume_specification<Elem>[ <[Elem]>::swap ](slice: &mut [Elem], a: usize, b: usize)
    requires
        a < old(slice)@.len(),
        b < old(slice)@.len(),
    ensures
        final(slice)@ == swapped(old(slice)@, a as int, b as int),
;

/// `s` with the elements at `a` and `b` exchanged.
pub open spec fn swapped<T>(s: Seq<T>, a: int, b: int) -> Seq<T> {
    s.update(a, s[b]).update(b, s[a])
}

/// Exchanging two elements keeps what a sequence holds.
pub proof fn lemma_swapped_permutes<T>(s: Seq<T>, a: int, b: int)
    requires
        0 <= a < s.len(),
        0 <= b < s.len(),
    ensures
        swapped(s, a, b).to_multiset() == s.to_multiset(),
        swapped(s, a, b).len() == s.len(),
{
    let first: Seq<T> = s.update(a, s[b]);
    to_multiset_update(s, a, s[b]);
    to_multiset_update(first, b, s[a]);
    vstd::seq_lib::to_multiset_contains(s, s[a]);
    vstd::seq_lib::to_multiset_contains(s, s[b]);
    vstd::seq_lib::to_multiset_contains(first, first[b]);
    assert(s.contains(s[a]));
    assert(s.contains(s[b]));
    assert(first.contains(first[b]));
    assert(swapped(s, a, b).to_multiset() =~= s.to_multiset());
}

/// The values that `n` draws in a row from a generator in `state` give.
pub open spec fn generated<const N: usize, R: Rng<N>, G: RandomGen<N, R>>(
    state: R::V,
    n: nat,
) -> Seq<G> {
    Seq::new(
        n,
        |i: int| G::decode(drawn::<N, R>(after_draws::<N, R>(state, G::width(), i as nat), G::width())),
    )
}

/// What shuffling the `len` elements of `s` from index `i` on leaves, for a
/// generator in `state`: the sequence, and the state of the generator
/// afterwards. The element at each index changes places with one at an index
/// sampled from zero up to its own.
pub open spec fn shuffled<const N: usize, R: Rng<N>, T>(
    s: Seq<T>,
    state: R::V,
    len: nat,
    i: nat,
) -> (Seq<T>, R::V)
    decreases len - i,
{
    if i >= len {
        (s, state)
    } else {
        let pick = sampled::<N, R>(state, 0, i as int, (usize::BITS / 8) as nat, false);
        shuffled::<N, R, T>(swapped(s, i as int, pick.0), pick.1, len, i + 1)
    }
}

/// Whether all steps of shuffling `len` elements from index `i` on are
/// steady.
pub open spec fn shuffle_steady<const N: usize, R: Rng<N>>(state: R::V, len: nat, i: nat) -> bool
    decreases len - i,
{
    i >= len || (sample_steady::<N, R>(state, 0, i as int, (usize::BITS / 8) as nat, false)
        && shuffle_steady::<N, R>(
        sampled::<N, R>(state, 0, i as int, (usize::BITS / 8) as nat, false).1,
        len,
        i + 1,
    ))
}

/// Typed values, values in ranges, filling and shuffling, for every
/// generator whose blocks are not empty.
pub trait Generate<const OUTPUT: usize>: Rng<OUTPUT> {
    /// A value of the type `G`, from the first bytes that the generator
    /// emits.
    fn generate<G: RandomGen<OUTPUT, Self>>(&mut self) -> (value: G)
        requires
            OUTPUT > 0,
        ensures
            value_steady::<OUTPUT, Self>(old(self)@, G::width()) ==> value == G::decode(
                drawn::<OUTPUT, Self>(old(self)@, G::width()),
            ),
            draw_steady::<OUTPUT, Self>(old(self)@, G::width()) ==> final(self)@ == after_draw::<
                OUTPUT,
                Self,
            >(old(self)@, G::width()),
    ;

    /// A value in the range `bounds`, each value of the range as likely as
    /// any other. Fails where the range holds no value. A range of one value
    /// yields that value and leaves the generator as it is. A draw that is
    /// rejected is made again, up to `MAX_REDRAWS` times; the draw after that
    /// is taken as it is.
    fn generate_range<G: RandomRange<OUTPUT, Self>>(&mut self, bounds: Bounds<G>) -> (out: Result<
        G,
        RangeError,
    >)
        requires
            OUTPUT > 0,
        ensures
            ({
                let lo = closed_lower(
                    map_bound(bounds.lower, |v: G| v.int_of()),
                    G::least(),
                    G::greatest(),
                );
                let hi = closed_upper(
                    map_bound(bounds.upper, |v: G| v.int_of()),
                    G::least(),
                    G::greatest(),
                );
                &&& out is Err <==> lo > hi
                &&& out matches Err(why) ==> why == RangeError::InvalidRange
                &&& out matches Ok(v) ==> lo <= v.int_of() <= hi
                &&& out matches Ok(v) ==> (lo == hi ==> final(self)@ == old(self)@)
                &&& out matches Ok(v) ==> (sample_steady::<OUTPUT, Self>(
                    old(self)@,
                    lo,
                    hi,
                    G::width(),
                    G::signed(),
                ) ==> (v.int_of(), final(self)@) == sampled::<OUTPUT, Self>(
                    old(self)@,
                    lo,
                    hi,
                    G::width(),
                    G::signed(),
                ))
            }),
    ;

    /// Replaces every element of `target` by a value of the type `G`, one
    /// draw after the other.
    fn fill<G: RandomGen<OUTPUT, Self>>(&mut self, target: &mut [G])
        requires
            OUTPUT > 0,
        ensures
            final(target)@.len() == old(target)@.len(),
            draws_steady::<OUTPUT, Self>(old(self)@, G::width(), old(target)@.len()) ==> {
                &&& final(target)@ == generated::<OUTPUT, Self, G>(old(self)@, old(target)@.len())
                &&& final(self)@ == after_draws::<OUTPUT, Self>(
                    old(self)@,
                    G::width(),
                    old(target)@.len(),
                )
            },
    ;

    /// Shuffles `target`: going forward, the element at each index changes
    /// places with one at an index sampled from zero up to its own.
    fn shuffle<T>(&mut self, target: &mut [T])
        requires
            OUTPUT > 0,
        ensures
            final(target)@.len() == old(target)@.len(),
            final(target)@.to_multiset() == old(target)@.to_multiset(),
            shuffle_steady::<OUTPUT, Self>(old(self)@, old(target)@.len(), 0) ==> (
                final(target)@,
                final(self)@,
            ) == shuffled::<OUTPUT, Self, T>(
                old(target)@,
                old(self)@,
                old(target)@.len(),
                0,
            ),
    ;
}

impl<const OUTPUT: usize, R: Rng<OUTPUT>> Generate<OUTPUT> for R {
    fn generate<G: RandomGen<OUTPUT, Self>>(&mut self) -> (value: G) {
        G::random(self)
    }

    fn generate_range<G: RandomRange<OUTPUT, Self>>(&mut self, bounds: Bounds<G>) -> (out: Result<
        G,
        RangeError,
    >) {
        G::random_range(self, bounds)
    }

    fn fill<G: RandomGen<OUTPUT, Self>>(&mut self, target: &mut [G]) {
        let len: usize = target.len();
        let mut i: usize = 0;
        while i < len
            invariant
                OUTPUT > 0,
                i <= len,
                target@.len() == len,
                len == old(target)@.len(),
                draws_steady::<OUTPUT, Self>(old(self)@, G::width(), len as nat) ==> self@
                    == after_draws::<OUTPUT, Self>(old(self)@, G::width(), i as nat),
                draws_steady::<OUTPUT, Self>(old(self)@, G::width(), len as nat) ==> forall|j: int|
                    0 <= j < i ==> target@[j] == generated::<OUTPUT, Self, G>(
                        old(self)@,
                        len as nat,
                    )[j],
            decreases len - i,
        {
            let ghost at: R::V = self@;
            let value: G = G::random(self);
            proof {
                if draws_steady::<OUTPUT, Self>(old(self)@, G::width(), len as nat) {
                    lemma_draws_add::<OUTPUT, Self>(
                        old(self)@,
                        G::width(),
                        i as nat,
                        (len - i) as nat,
                    );
                    lemma_draws_add::<OUTPUT, Self>(old(self)@, G::width(), i as nat, 1);
                    assert(draws_steady::<OUTPUT, Self>(at, G::width(), (len - i) as nat));
                    assert(draw_steady::<OUTPUT, Self>(at, G::width()));
                    crate::gen::lemma_draw_steady_value::<OUTPUT, Self>(at, G::width());
                    assert(after_draws::<OUTPUT, Self>(at, G::width(), 1) == after_draw::<
                        OUTPUT,
                        Self,
                    >(at, G::width())) by {
                        reveal_with_fuel(after_draws, 2);
                    }
                }
            }
            target[i] = value;
            i += 1;
        }
        proof {
            if draws_steady::<OUTPUT, Self>(old(self)@, G::width(), len as nat) {
                assert(target@ =~= generated::<OUTPUT, Self, G>(old(self)@, len as nat));
            }
        }
    }

    fn shuffle<T>(&mut self, target: &mut [T]) {
        let len: usize = target.len();
        let width: usize = pointer_width();
        let mut i: usize = 0;
        while i < len
            invariant
                OUTPUT > 0,
                i <= len,
                width == usize::BITS / 8,
                width == 4 || width == 8,
                crate::bytes::pow256(width as nat) == usize::MAX + 1,
                target@.len() == len,
                len == old(target)@.len(),
                target@.to_multiset() == old(target)@.to_multiset(),
                shuffle_steady::<OUTPUT, Self>(old(self)@, len as nat, 0) ==> shuffle_steady::<
                    OUTPUT,
                    Self,
                >(self@, len as nat, i as nat) && shuffled::<OUTPUT, Self, T>(
                    old(target)@,
                    old(self)@,
                    len as nat,
                    0,
                ) == shuffled::<OUTPUT, Self, T>(target@, self@, len as nat, i as nat),
            decreases len - i,
        {
            let ghost before: Seq<T> = target@;
            let picked: Result<i128, RangeError> = sample_between(
                self,
                Bound::Included(0),
                Bound::Included(i as i128),
                0,
                usize::MAX as i128,
                width,
                false,
            );
            match picked {
                Ok(index) => {
                    proof {
                        lemma_swapped_permutes(before, i as int, index as int);
                    }
                    target.swap(i, index as usize);
                },
                Err(_) => {
                    assert(false);
                },
            }
            i += 1;
        }
    }
}

} // verus!
