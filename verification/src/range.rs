//! Unbiased sampling in ranges.
//!
//! A value in a range of `span` values is made from a draw `x` of `w` bytes
//! by multiplication: the product `span * x` has `2w` bytes, its upper half is
//! the offset of the value in the range, and its lower half decides whether
//! the draw is kept. A draw whose lower half is below `(256^w - span) % span`
//! is rejected and made again: that leaves every offset with the same number
//! of draws.
use crate::bytes::{from_le, lemma_pow256_monotonic, lemma_pow256_values, pow256};
use crate::gen::{
    after_draw, draw_steady, draw_unsigned, lemma_draw_steady_value, modulus_of, pointer_width,
    twos_complement, RandomGen,
};
use crate::rand::{drawn, Rng};
use vstd::arithmetic::div_mod::lemma_fundamental_div_mod_converse;
use vstd::prelude::*;
use vstd::set_lib::{lemma_int_range, set_int_range};

verus! {

/// How often a rejected draw is made again before the last draw is taken as
/// it is.
pub const MAX_REDRAWS: u64 = 0xffff_ffff_ffff_ffff;

/// One end of a range.
#[derive(Clone, Copy, Debug)]
pub enum Bound<T> {
    /// The range reaches to this value, and holds it.
    Included(T),
    /// The range reaches to this value, and does not hold it.
    Excluded(T),
    /// The range reaches to the end of the type.
    Unbounded,
}

/// A range: its lower and its upper end.
#[derive(Clone, Copy, Debug)]
pub struct Bounds<T> {
    pub lower: Bound<T>,
    pub upper: Bound<T>,
}

/// Why no value could be sampled.
#[derive(Clone, Copy, Debug, PartialEq, Eq, Structural)]
pub enum RangeError {
    /// The range holds no value: its lower end lies above its upper end.
    InvalidRange,
}

impl RangeError {
    /// The error in words.
    pub fn message(&self) -> (text: &'static str)
        ensures
            text@ == "the range holds no value"@,
    {
        "the range holds no value"
    }
}

impl<T> Bounds<T> {
    /// The range between two ends.
    pub fn new(lower: Bound<T>, upper: Bound<T>) -> (bounds: Bounds<T>)
        ensures
            bounds == (Bounds { lower, upper }),
    {
        Bounds { lower, upper }
    }

    /// The range from `lower` to `upper`, both in it.
    pub fn inclusive(lower: T, upper: T) -> (bounds: Bounds<T>)
        ensures
            bounds == (Bounds { lower: Bound::Included(lower), upper: Bound::Included(upper) }),
    {
        Bounds { lower: Bound::Included(lower), upper: Bound::Included(upper) }
    }

    /// The range from `lower`, which is in it, to `upper`, which is not.
    pub fn exclusive(lower: T, upper: T) -> (bounds: Bounds<T>)
        ensures
            bounds == (Bounds { lower: Bound::Included(lower), upper: Bound::Excluded(upper) }),
    {
        Bounds { lower: Bound::Included(lower), upper: Bound::Excluded(upper) }
    }

    /// The range from `lower` upwards.
    pub fn at_least(lower: T) -> (bounds: Bounds<T>)
        ensures
            bounds == (Bounds { lower: Bound::Included(lower), upper: Bound::<T>::Unbounded }),
    {
        Bounds { lower: Bound::Included(lower), upper: Bound::Unbounded }
    }

    /// The range up to `upper`, which is in it.
    pub fn at_most(upper: T) -> (bounds: Bounds<T>)
        ensures
            bounds == (Bounds { lower: Bound::<T>::Unbounded, upper: Bound::Included(upper) }),
    {
        Bounds { lower: Bound::Unbounded, upper: Bound::Included(upper) }
    }

    /// The range up to `upper`, which is not in it.
    pub fn below(upper: T) -> (bounds: Bounds<T>)
        ensures
            bounds == (Bounds { lower: Bound::<T>::Unbounded, upper: Bound::Excluded(upper) }),
    {
        Bounds { lower: Bound::Unbounded, upper: Bound::Excluded(upper) }
    }

    /// The range of all values.
    pub fn full() -> (bounds: Bounds<T>)
        ensures
            bounds == (Bounds { lower: Bound::<T>::Unbounded, upper: Bound::<T>::Unbounded }),
    {
        Bounds { lower: Bound::Unbounded, upper: Bound::Unbounded }
    }
}

/// An end of a range of `T` as an end of a range of integers.
pub open spec fn map_bound<T>(bound: Bound<T>, int_of: spec_fn(T) -> int) -> Bound<int> {
    match bound {
        Bound::Included(v) => Bound::Included(int_of(v)),
        Bound::Excluded(v) => Bound::Excluded(int_of(v)),
        Bound::Unbounded => Bound::Unbounded,
    }
}

/// The least value of a range with the lower end `lower`, in a type whose
/// values reach from `least` to `greatest`. An excluded end moves up by one,
/// but not past `greatest`.
pub open spec fn closed_lower(lower: Bound<int>, least: int, greatest: int) -> int {
    match lower {
        Bound::Included(v) => v,
        Bound::Excluded(v) => if v < greatest {
            v + 1
        } else {
            greatest
        },
        Bound::Unbounded => least,
    }
}

/// The greatest value of a range with the upper end `upper`, in a type whose
/// values reach from `least` to `greatest`. An excluded end moves down by
/// one, but not past `least`.
pub open spec fn closed_upper(upper: Bound<int>, least: int, greatest: int) -> int {
    match upper {
        Bound::Included(v) => v,
        Bound::Excluded(v) => if v > least {
            v - 1
        } else {
            least
        },
        Bound::Unbounded => greatest,
    }
}

/// The number of values from `lower` to `upper` that sampling tells apart:
/// all of them, but at most `modulus - 1`.
pub open spec fn span_of(lower: int, upper: int, modulus: int) -> int {
    if upper - lower + 1 >= modulus {
        modulus - 1
    } else {
        upper - lower + 1
    }
}

/// Below this, the lower half of a product rejects the draw.
pub open spec fn threshold(span: int, modulus: int) -> int {
    (modulus - span) % span
}

/// Whether the draw `x` is kept for a range of `span` values.
pub open spec fn accepted(span: int, x: int, modulus: int) -> bool {
    (span * x) % modulus >= threshold(span, modulus)
}

/// The offset in a range of `span` values that the draw `x` stands for.
pub open spec fn offset(span: int, x: int, modulus: int) -> int {
    (span * x) / modulus
}

/// The place of a draw among the draws of `width` bytes, counted from the
/// least value of the type: the number itself for an unsigned type, and the
/// number moved by half the modulus for a signed one.
pub open spec fn ordinal(v: nat, width: nat, signed: bool) -> int {
    if signed {
        ((v + pow256(width) / 2) % pow256(width)) as int
    } else {
        v as int
    }
}

/// The offset of a draw lies in the range.
pub proof fn lemma_offset_in_span(span: int, x: int, modulus: int)
    requires
        0 < span,
        0 <= x < modulus,
    ensures
        0 <= offset(span, x, modulus) < span,
{
    assert(0 <= (span * x) / modulus < span) by (nonlinear_arith)
        requires
            0 < span,
            0 <= x < modulus,
    ;
}

/// A range of one value keeps every draw, at offset zero.
pub proof fn lemma_single_value(x: int, modulus: int)
    requires
        0 <= x < modulus,
    ensures
        accepted(1, x, modulus),
        offset(1, x, modulus) == 0,
{
    assert((modulus - 1) % 1 == 0);
    assert((1 * x) % modulus >= 0);
    assert(1 * x == x);
    assert(x / modulus == 0) by (nonlinear_arith)
        requires
            0 <= x < modulus,
    ;
}

/// Sampling leaves no value out: every offset of a range is the offset of
/// some draw that is kept. The draw that the proof names is the least one.
pub proof fn lemma_every_offset_is_drawn(span: int, modulus: int, v: int) -> (x: int)
    requires
        0 < span <= modulus,
        0 <= v < span,
    ensures
        0 <= x < modulus,
        accepted(span, x, modulus),
        offset(span, x, modulus) == v,
        x == (v * modulus + threshold(span, modulus) + span - 1) / span,
{
    let least: int = threshold(span, modulus);
    assert(0 <= least < span && least <= modulus - span) by (nonlinear_arith)
        requires
            0 < span <= modulus,
            least == (modulus - span) % span,
    ;
    let target: int = v * modulus + least;
    let x: int = (target + span - 1) / span;
    assert(0 <= v * modulus && (v + 1) * modulus == v * modulus + modulus && (v + 1) * modulus
        <= span * modulus) by (nonlinear_arith)
        requires
            0 <= v < span,
            0 < modulus,
    ;
    assert(target <= span * x < target + span && x >= 0) by (nonlinear_arith)
        requires
            span > 0,
            target >= 0,
            x == (target + span - 1) / span,
    ;
    let product: int = span * x;
    assert(v * modulus + least <= product < (v + 1) * modulus);
    lemma_fundamental_div_mod_converse(product, modulus, v, product - v * modulus);
    assert(x < modulus) by (nonlinear_arith)
        requires
            span * x < span * modulus,
            span > 0,
    ;
    x
}

/// The draws below `modulus` that are kept for a range of `span` values and
/// stand for the offset `v`.
pub open spec fn kept_draws(span: int, modulus: int, v: int) -> Set<int> {
    Set::new(
        |x: int| 0 <= x < modulus && accepted(span, x, modulus) && offset(span, x, modulus) == v,
    )
}

/// Sampling is unbiased: every offset of a range is the offset of the same
/// number of kept draws, the draws that are not rejected shared out evenly
/// among the `span` values.
pub proof fn lemma_every_offset_is_drawn_equally_often(span: int, modulus: int, v: int)
    requires
        0 < span <= modulus,
        0 <= v < span,
    ensures
        kept_draws(span, modulus, v).finite(),
        kept_draws(span, modulus, v).len() == (modulus - threshold(span, modulus)) / span,
        (modulus - threshold(span, modulus)) / span >= 1,
{
    let least: int = threshold(span, modulus);
    let share: int = (modulus - least) / span;
    assert(0 <= least < span && least <= modulus - span && share * span == modulus - least
        && share >= 1) by (nonlinear_arith)
        requires
            0 < span <= modulus,
            least == (modulus - span) % span,
            share == (modulus - least) / span,
    ;
    let first: int = lemma_every_offset_is_drawn(span, modulus, v);
    let target: int = v * modulus + least;
    assert(0 <= v * modulus && (v + 1) * modulus == v * modulus + modulus && (v + 1) * modulus
        <= span * modulus) by (nonlinear_arith)
        requires
            0 <= v < span,
            0 < modulus,
    ;
    assert forall|x: int| kept_draws(span, modulus, v).contains(x) <==> set_int_range(
        first,
        first + share,
    ).contains(x) by {
        let product: int = span * x;
        if first <= x < first + share {
            assert(span * first <= product <= span * first + (share - 1) * span)
                by (nonlinear_arith)
                requires
                    span > 0,
                    first <= x <= first + share - 1,
                    product == span * x,
            ;
            assert((share - 1) * span == share * span - span) by (nonlinear_arith);
            lemma_first_kept_is_low(span, modulus, v, first);
            assert(target <= product < (v + 1) * modulus);
            lemma_fundamental_div_mod_converse(product, modulus, v, product - v * modulus);
            assert(0 <= x < modulus) by (nonlinear_arith)
                requires
                    0 <= span * first <= span * x < span * modulus,
                    span > 0,
                    first >= 0,
            ;
        }
        if kept_draws(span, modulus, v).contains(x) {
            let part: int = (span * x) % modulus;
            assert(span * x == v * modulus + part && 0 <= part < modulus) by (nonlinear_arith)
                requires
                    modulus > 0,
                    v == (span * x) / modulus,
                    part == (span * x) % modulus,
            ;
            lemma_first_kept_is_low(span, modulus, v, first);
            assert(x >= first) by (nonlinear_arith)
                requires
                    span * x >= target,
                    span * first < target + span,
                    span > 0,
            ;
            assert(x < first + share) by (nonlinear_arith)
                requires
                    span * x < target + share * span,
                    span * first >= target,
                    span > 0,
            ;
        }
    }
    assert(kept_draws(span, modulus, v) =~= set_int_range(first, first + share));
    lemma_int_range(first, first + share);
}

/// The least kept draw of an offset has a product less than `span` above the
/// least product that is kept.
proof fn lemma_first_kept_is_low(span: int, modulus: int, v: int, first: int)
    requires
        0 < span <= modulus,
        0 <= v < span,
        first == (v * modulus + threshold(span, modulus) + span - 1) / span,
    ensures
        v * modulus + threshold(span, modulus) <= span * first < v * modulus + threshold(
            span,
            modulus,
        ) + span,
{
    let target: int = v * modulus + threshold(span, modulus);
    assert(0 <= threshold(span, modulus)) by (nonlinear_arith)
        requires
            0 < span <= modulus,
    ;
    assert(0 <= v * modulus) by (nonlinear_arith)
        requires
            0 <= v,
            0 < modulus,
    ;
    assert(target <= span * first < target + span) by (nonlinear_arith)
        requires
            span > 0,
            target >= 0,
            first == (target + span - 1) / span,
    ;
}

/// For a signed type, the place of a draw is the drawn value less the least
/// value of the type.
pub proof fn lemma_ordinal_signed(v: nat, width: nat)
    requires
        v < pow256(width),
        width >= 1,
    ensures
        ordinal(v, width, true) == twos_complement(v, width) + pow256(width) / 2,
        0 <= ordinal(v, width, true) < pow256(width),
{
    let m: int = pow256(width) as int;
    assert(m == 256 * pow256((width - 1) as nat));
    lemma_pow256_monotonic(0, (width - 1) as nat);
    let half: int = m / 2;
    assert(2 * half == m);
    if 2 * v >= m {
        assert((v + half) % m == v + half - m) by (nonlinear_arith)
            requires
                m <= v + half < 2 * m,
        ;
    } else {
        assert((v + half) % m == v + half) by (nonlinear_arith)
            requires
                0 <= v + half < m,
        ;
    }
}

/// The offset that the draw `x` stands for in a range of `span` values.
pub fn offset_of(span: u64, x: u64, width: usize) -> (off: u64)
    requires
        1 <= width <= 8,
        0 < span < pow256(width as nat),
        x < pow256(width as nat),
    ensures
        off == offset(span as int, x as int, pow256(width as nat) as int),
        off < span,
{
    let modulus: u128 = modulus_of(width);
    proof {
        lemma_offset_in_span(span as int, x as int, modulus as int);
        assert(0 <= span as int * x as int <= 0xffff_ffff_ffff_ffff * 0xffff_ffff_ffff_ffff)
            by (nonlinear_arith)
            requires
                0 <= span <= 0xffff_ffff_ffff_ffff,
                0 <= x <= 0xffff_ffff_ffff_ffff,
        ;
    }
    let product: u128 = (span as u128) * (x as u128);
    (product / modulus) as u64
}

/// The offset that the draw `x` stands for in a range of `span` values, or
/// nothing where the draw is rejected.
pub fn debias(span: u64, x: u64, width: usize) -> (kept: Option<u64>)
    requires
        1 <= width <= 8,
        0 < span < pow256(width as nat),
        x < pow256(width as nat),
    ensures
        kept == if accepted(span as int, x as int, pow256(width as nat) as int) {
            Some(offset(span as int, x as int, pow256(width as nat) as int) as u64)
        } else {
            None
        },
        kept matches Some(off) ==> off < span,
{
    let modulus: u128 = modulus_of(width);
    proof {
        assert(0 <= span as int * x as int <= 0xffff_ffff_ffff_ffff * 0xffff_ffff_ffff_ffff)
            by (nonlinear_arith)
            requires
                0 <= span <= 0xffff_ffff_ffff_ffff,
                0 <= x <= 0xffff_ffff_ffff_ffff,
        ;
    }
    let product: u128 = (span as u128) * (x as u128);
    let low: u128 = product % modulus;
    let least: u128 = (modulus - span as u128) % (span as u128);
    if low >= least {
        Some(offset_of(span, x, width))
    } else {
        None
    }
}

/// The place of the draw `v` among the draws of `width` bytes.
pub fn to_ordinal(v: u128, width: usize, signed: bool) -> (x: u64)
    requires
        1 <= width <= 8,
        v < pow256(width as nat),
    ensures
        x == ordinal(v as nat, width as nat, signed),
        x < pow256(width as nat),
{
    proof {
        lemma_pow256_monotonic(width as nat, 8);
        lemma_pow256_values();
    }
    if signed {
        let modulus: u128 = modulus_of(width);
        ((v + modulus / 2) % modulus) as u64
    } else {
        v as u64
    }
}

/// The place of the next draw of a generator in `state`.
pub open spec fn draw_ordinal<const N: usize, R: Rng<N>>(
    state: R::V,
    width: nat,
    signed: bool,
) -> int {
    ordinal(from_le(drawn::<N, R>(state, width)), width, signed)
}

/// The state after `j` draws of `width` bytes.
pub open spec fn after_draws<const N: usize, R: Rng<N>>(state: R::V, width: nat, j: nat) -> R::V
    decreases j,
{
    if j == 0 {
        state
    } else {
        after_draws::<N, R>(after_draw::<N, R>(state, width), width, (j - 1) as nat)
    }
}

/// Whether all steps of the next `j` draws of `width` bytes are steady.
pub open spec fn draws_steady<const N: usize, R: Rng<N>>(state: R::V, width: nat, j: nat) -> bool
    decreases j,
{
    j == 0 || (draw_steady::<N, R>(state, width) && draws_steady::<N, R>(
        after_draw::<N, R>(state, width),
        width,
        (j - 1) as nat,
    ))
}

/// The number of draws that a generator in `state` has rejected before one
/// is taken, where `fuel` draws may be made again.
pub open spec fn rejections<const N: usize, R: Rng<N>>(
    state: R::V,
    span: int,
    width: nat,
    signed: bool,
    fuel: nat,
) -> nat
    decreases fuel,
{
    if fuel == 0 || accepted(span, draw_ordinal::<N, R>(state, width, signed), pow256(width) as int) {
        0
    } else {
        1 + rejections::<N, R>(
            after_draw::<N, R>(state, width),
            span,
            width,
            signed,
            (fuel - 1) as nat,
        )
    }
}

/// The state after `a + b` draws is the state `b` draws after the state
/// after `a` draws, and the steps are steady for `a + b` draws exactly when
/// they are for `a` draws and then for `b` more.
pub proof fn lemma_draws_add<const N: usize, R: Rng<N>>(state: R::V, width: nat, a: nat, b: nat)
    ensures
        after_draws::<N, R>(after_draws::<N, R>(state, width, a), width, b) == after_draws::<N, R>(
            state,
            width,
            a + b,
        ),
        draws_steady::<N, R>(state, width, a + b) <==> draws_steady::<N, R>(state, width, a)
            && draws_steady::<N, R>(after_draws::<N, R>(state, width, a), width, b),
    decreases a,
{
    if a > 0 {
        lemma_draws_add::<N, R>(after_draw::<N, R>(state, width), width, (a - 1) as nat, b);
    }
}

/// What sampling from `lower` to `upper` yields from a generator in `state`:
/// the value, and the state of the generator afterwards. A range of one value
/// yields that value and draws nothing.
pub open spec fn sampled<const N: usize, R: Rng<N>>(
    state: R::V,
    lower: int,
    upper: int,
    width: nat,
    signed: bool,
) -> (int, R::V) {
    if lower == upper {
        (lower, state)
    } else {
        let span = span_of(lower, upper, pow256(width) as int);
        let k = rejections::<N, R>(state, span, width, signed, MAX_REDRAWS as nat);
        (
            lower + offset(
                span,
                draw_ordinal::<N, R>(after_draws::<N, R>(state, width, k), width, signed),
                pow256(width) as int,
            ),
            after_draws::<N, R>(state, width, k + 1),
        )
    }
}

/// Whether all steps of sampling from `lower` to `upper` are steady.
pub open spec fn sample_steady<const N: usize, R: Rng<N>>(
    state: R::V,
    lower: int,
    upper: int,
    width: nat,
    signed: bool,
) -> bool {
    lower == upper || draws_steady::<N, R>(
        state,
        width,
        rejections::<N, R>(
            state,
            span_of(lower, upper, pow256(width) as int),
            width,
            signed,
            MAX_REDRAWS as nat,
        ) + 1,
    )
}

/// An offset in a range of `span` values: that of the first draw that is
/// kept, and that of the last draw where `MAX_REDRAWS` draws were made again
/// and none was kept.
pub fn sample_offset<const N: usize, R: Rng<N>>(
    r: &mut R,
    span: u64,
    width: usize,
    signed: bool,
) -> (off: u64)
    requires
        N > 0,
        1 <= width <= 8,
        0 < span < pow256(width as nat),
    ensures
        off < span,
        ({
            let k = rejections::<N, R>(
                old(r)@,
                span as int,
                width as nat,
                signed,
                MAX_REDRAWS as nat,
            );
            draws_steady::<N, R>(old(r)@, width as nat, k + 1) ==> off == offset(
                span as int,
                draw_ordinal::<N, R>(
                    after_draws::<N, R>(old(r)@, width as nat, k),
                    width as nat,
                    signed,
                ),
                pow256(width as nat) as int,
            ) && final(r)@ == after_draws::<N, R>(old(r)@, width as nat, k + 1)
        }),
{
    let ghost k: nat = rejections::<N, R>(
        r@,
        span as int,
        width as nat,
        signed,
        MAX_REDRAWS as nat,
    );
    let ghost whole: bool = draws_steady::<N, R>(r@, width as nat, k + 1);
    let ghost mut j: nat = 0;
    let mut left: u64 = MAX_REDRAWS;
    loop
        invariant
            N > 0,
            1 <= width <= 8,
            0 < span < pow256(width as nat),
            k == rejections::<N, R>(old(r)@, span as int, width as nat, signed, MAX_REDRAWS as nat),
            whole == draws_steady::<N, R>(old(r)@, width as nat, k + 1),
            j + left == MAX_REDRAWS,
            whole ==> j <= k && r@ == after_draws::<N, R>(old(r)@, width as nat, j) && k == j
                + rejections::<N, R>(r@, span as int, width as nat, signed, left as nat),
        decreases left,
    {
        let ghost at: R::V = r@;
        let v: u128 = draw_unsigned(r, width);
        let x: u64 = to_ordinal(v, width, signed);
        let kept: Option<u64> = debias(span, x, width);
        proof {
            lemma_offset_in_span(span as int, x as int, pow256(width as nat) as int);
            if whole {
                lemma_draws_add::<N, R>(old(r)@, width as nat, j, (k + 1 - j) as nat);
                lemma_draws_add::<N, R>(old(r)@, width as nat, j, 1);
                assert(draws_steady::<N, R>(at, width as nat, 1) == draw_steady::<N, R>(
                    at,
                    width as nat,
                )) by {
                    reveal_with_fuel(draws_steady, 2);
                }
                assert(after_draws::<N, R>(at, width as nat, 1) == after_draw::<N, R>(
                    at,
                    width as nat,
                )) by {
                    reveal_with_fuel(after_draws, 2);
                }
                assert(draw_steady::<N, R>(at, width as nat));
                lemma_draw_steady_value::<N, R>(at, width as nat);
                assert(x == draw_ordinal::<N, R>(at, width as nat, signed));
            }
        }
        match kept {
            Some(off) => {
                return off;
            },
            None => {},
        }
        if left == 0 {
            return offset_of(span, x, width);
        }
        left = left - 1;
        proof {
            j = j + 1;
        }
    }
}

/// A value from `lower` to `upper` in a type of `width` bytes whose values
/// reach from `least` to `greatest`.
///
/// Fails where the range holds no value. A range of one value yields that
/// value without a draw.
pub fn sample_between<const N: usize, R: Rng<N>>(
    r: &mut R,
    lower: Bound<i128>,
    upper: Bound<i128>,
    least: i128,
    greatest: i128,
    width: usize,
    signed: bool,
) -> (out: Result<i128, RangeError>)
    requires
        N > 0,
        1 <= width <= 8,
        greatest - least == pow256(width as nat) - 1,
        lower matches Bound::Included(v) ==> least <= v <= greatest,
        lower matches Bound::Excluded(v) ==> least <= v <= greatest,
        upper matches Bound::Included(v) ==> least <= v <= greatest,
        upper matches Bound::Excluded(v) ==> least <= v <= greatest,
    ensures
        ({
            let lo = closed_lower(map_bound(lower, |v: i128| v as int), least as int, greatest as int);
            let hi = closed_upper(map_bound(upper, |v: i128| v as int), least as int, greatest as int);
            &&& out is Err <==> lo > hi
            &&& out matches Err(why) ==> why == RangeError::InvalidRange
            &&& out matches Ok(v) ==> lo <= v <= hi
            &&& out matches Ok(v) ==> (lo == hi ==> final(r)@ == old(r)@)
            &&& out matches Ok(v) ==> (sample_steady::<N, R>(
                old(r)@,
                lo,
                hi,
                width as nat,
                signed,
            ) ==> (v as int, final(r)@) == sampled::<N, R>(old(r)@, lo, hi, width as nat, signed))
        }),
{
    proof {
        lemma_pow256_monotonic(width as nat, 8);
        lemma_pow256_monotonic(1, width as nat);
        lemma_pow256_values();
    }
    let lo: i128 = match lower {
        Bound::Included(v) => v,
        Bound::Excluded(v) => if v < greatest {
            v + 1
        } else {
            greatest
        },
        Bound::Unbounded => least,
    };
    let hi: i128 = match upper {
        Bound::Included(v) => v,
        Bound::Excluded(v) => if v > least {
            v - 1
        } else {
            least
        },
        Bound::Unbounded => greatest,
    };
    if lo > hi {
        return Err(RangeError::InvalidRange);
    }
    if lo == hi {
        return Ok(lo);
    }
    let modulus: u128 = modulus_of(width);
    let count: u128 = (hi - lo) as u128 + 1;
    let span: u64 = if count >= modulus {
        (modulus - 1) as u64
    } else {
        count as u64
    };
    let off: u64 = sample_offset(r, span, width, signed);
    Ok(lo + off as i128)
}

/// A type of integers that can be sampled in a range.
pub trait RandomRange<const OUTPUT: usize, R: Rng<OUTPUT>>: RandomGen<OUTPUT, R> {
    /// The integer that a value stands for.
    spec fn int_of(self) -> int;

    /// The least integer of the type.
    spec fn least() -> int;

    /// The greatest integer of the type.
    spec fn greatest() -> int;

    /// Whether the type has negative values.
    spec fn signed() -> bool;

    /// A value in the range `bounds`, each value of the range as likely as
    /// any other. The blocks of the generator must not be empty.
    ///
    /// Fails where the range holds no value. A range of one value yields
    /// that value and leaves the generator as it is. A draw that is rejected
    /// is made again, up to `MAX_REDRAWS` times; the draw after that is taken
    /// as it is.
    fn random_range(r: &mut R, bounds: Bounds<Self>) -> (out: Result<Self, RangeError>)
        requires
            OUTPUT > 0,
        ensures
            ({
                let lo = closed_lower(
                    map_bound(bounds.lower, |v: Self| v.int_of()),
                    Self::least(),
                    Self::greatest(),
                );
                let hi = closed_upper(
                    map_bound(bounds.upper, |v: Self| v.int_of()),
                    Self::least(),
                    Self::greatest(),
                );
                &&& out is Err <==> lo > hi
                &&& out matches Err(why) ==> why == RangeError::InvalidRange
                &&& out matches Ok(v) ==> lo <= v.int_of() <= hi
                &&& out matches Ok(v) ==> (lo == hi ==> final(r)@ == old(r)@)
                &&& out matches Ok(v) ==> (sample_steady::<OUTPUT, R>(
                    old(r)@,
                    lo,
                    hi,
                    Self::width(),
                    Self::signed(),
                ) ==> (v.int_of(), final(r)@) == sampled::<OUTPUT, R>(
                    old(r)@,
                    lo,
                    hi,
                    Self::width(),
                    Self::signed(),
                ))
            }),
    ;
}

impl<const OUTPUT: usize, R: Rng<OUTPUT>> RandomRange<OUTPUT, R> for u8 {
    open spec fn int_of(self) -> int {
        self as int
    }

    open spec fn least() -> int {
        u8::MIN as int
    }

    open spec fn greatest() -> int {
        u8::MAX as int
    }

    open spec fn signed() -> bool {
        false
    }

    fn random_range(r: &mut R, bounds: Bounds<u8>) -> (out: Result<u8, RangeError>) {
        let lower: Bound<i128> = match bounds.lower {
            Bound::Included(v) => Bound::Included(v as i128),
            Bound::Excluded(v) => Bound::Excluded(v as i128),
            Bound::Unbounded => Bound::Unbounded,
        };
        let upper: Bound<i128> = match bounds.upper {
            Bound::Included(v) => Bound::Included(v as i128),
            Bound::Excluded(v) => Bound::Excluded(v as i128),
            Bound::Unbounded => Bound::Unbounded,
        };
        proof {
            lemma_pow256_values();
        }
        match sample_between(r, lower, upper, u8::MIN as i128, u8::MAX as i128, 1, false) {
            Ok(v) => Ok(v as u8),
            Err(why) => Err(why),
        }
    }
}

impl<const OUTPUT: usize, R: Rng<OUTPUT>> RandomRange<OUTPUT, R> for u16 {
    open spec fn int_of(self) -> int {
        self as int
    }

    open spec fn least() -> int {
        u16::MIN as int
    }

    open spec fn greatest() -> int {
        u16::MAX as int
    }

    open spec fn signed() -> bool {
        false
    }

    fn random_range(r: &mut R, bounds: Bounds<u16>) -> (out: Result<u16, RangeError>) {
        let lower: Bound<i128> = match bounds.lower {
            Bound::Included(v) => Bound::Included(v as i128),
            Bound::Excluded(v) => Bound::Excluded(v as i128),
            Bound::Unbounded => Bound::Unbounded,
        };
        let upper: Bound<i128> = match bounds.upper {
            Bound::Included(v) => Bound::Included(v as i128),
            Bound::Excluded(v) => Bound::Excluded(v as i128),
            Bound::Unbounded => Bound::Unbounded,
        };
        proof {
            lemma_pow256_values();
        }
        match sample_between(r, lower, upper, u16::MIN as i128, u16::MAX as i128, 2, false) {
            Ok(v) => Ok(v as u16),
            Err(why) => Err(why),
        }
    }
}

impl<const OUTPUT: usize, R: Rng<OUTPUT>> RandomRange<OUTPUT, R> for u32 {
    open spec fn int_of(self) -> int {
        self as int
    }

    open spec fn least() -> int {
        u32::MIN as int
    }

    open spec fn greatest() -> int {
        u32::MAX as int
    }

    open spec fn signed() -> bool {
        false
    }

    fn random_range(r: &mut R, bounds: Bounds<u32>) -> (out: Result<u32, RangeError>) {
        let lower: Bound<i128> = match bounds.lower {
            Bound::Included(v) => Bound::Included(v as i128),
            Bound::Excluded(v) => Bound::Excluded(v as i128),
            Bound::Unbounded => Bound::Unbounded,
        };
        let upper: Bound<i128> = match bounds.upper {
            Bound::Included(v) => Bound::Included(v as i128),
            Bound::Excluded(v) => Bound::Excluded(v as i128),
            Bound::Unbounded => Bound::Unbounded,
        };
        proof {
            lemma_pow256_values();
        }
        match sample_between(r, lower, upper, u32::MIN as i128, u32::MAX as i128, 4, false) {
            Ok(v) => Ok(v as u32),
            Err(why) => Err(why),
        }
    }
}

impl<const OUTPUT: usize, R: Rng<OUTPUT>> RandomRange<OUTPUT, R> for u64 {
    open spec fn int_of(self) -> int {
        self as int
    }

    open spec fn least() -> int {
        u64::MIN as int
    }

    open spec fn greatest() -> int {
        u64::MAX as int
    }

    open spec fn signed() -> bool {
        false
    }

    fn random_range(r: &mut R, bounds: Bounds<u64>) -> (out: Result<u64, RangeError>) {
        let lower: Bound<i128> = match bounds.lower {
            Bound::Included(v) => Bound::Included(v as i128),
            Bound::Excluded(v) => Bound::Excluded(v as i128),
            Bound::Unbounded => Bound::Unbounded,
        };
        let upper: Bound<i128> = match bounds.upper {
            Bound::Included(v) => Bound::Included(v as i128),
            Bound::Excluded(v) => Bound::Excluded(v as i128),
            Bound::Unbounded => Bound::Unbounded,
        };
        proof {
            lemma_pow256_values();
        }
        match sample_between(r, lower, upper, u64::MIN as i128, u64::MAX as i128, 8, false) {
            Ok(v) => Ok(v as u64),
            Err(why) => Err(why),
        }
    }
}

impl<const OUTPUT: usize, R: Rng<OUTPUT>> RandomRange<OUTPUT, R> for i8 {
    open spec fn int_of(self) -> int {
        self as int
    }

    open spec fn least() -> int {
        i8::MIN as int
    }

    open spec fn greatest() -> int {
        i8::MAX as int
    }

    open spec fn signed() -> bool {
        true
    }

    fn random_range(r: &mut R, bounds: Bounds<i8>) -> (out: Result<i8, RangeError>) {
        let lower: Bound<i128> = match bounds.lower {
            Bound::Included(v) => Bound::Included(v as i128),
            Bound::Excluded(v) => Bound::Excluded(v as i128),
            Bound::Unbounded => Bound::Unbounded,
        };
        let upper: Bound<i128> = match bounds.upper {
            Bound::Included(v) => Bound::Included(v as i128),
            Bound::Excluded(v) => Bound::Excluded(v as i128),
            Bound::Unbounded => Bound::Unbounded,
        };
        proof {
            lemma_pow256_values();
        }
        match sample_between(r, lower, upper, i8::MIN as i128, i8::MAX as i128, 1, true) {
            Ok(v) => Ok(v as i8),
            Err(why) => Err(why),
        }
    }
}

impl<const OUTPUT: usize, R: Rng<OUTPUT>> RandomRange<OUTPUT, R> for i16 {
    open spec fn int_of(self) -> int {
        self as int
    }

    open spec fn least() -> int {
        i16::MIN as int
    }

    open spec fn greatest() -> int {
        i16::MAX as int
    }

    open spec fn signed() -> bool {
        true
    }

    fn random_range(r: &mut R, bounds: Bounds<i16>) -> (out: Result<i16, RangeError>) {
        let lower: Bound<i128> = match bounds.lower {
            Bound::Included(v) => Bound::Included(v as i128),
            Bound::Excluded(v) => Bound::Excluded(v as i128),
            Bound::Unbounded => Bound::Unbounded,
        };
        let upper: Bound<i128> = match bounds.upper {
            Bound::Included(v) => Bound::Included(v as i128),
            Bound::Excluded(v) => Bound::Excluded(v as i128),
            Bound::Unbounded => Bound::Unbounded,
        };
        proof {
            lemma_pow256_values();
        }
        match sample_between(r, lower, upper, i16::MIN as i128, i16::MAX as i128, 2, true) {
            Ok(v) => Ok(v as i16),
            Err(why) => Err(why),
        }
    }
}

impl<const OUTPUT: usize, R: Rng<OUTPUT>> RandomRange<OUTPUT, R> for i32 {
    open spec fn int_of(self) -> int {
        self as int
    }

    open spec fn least() -> int {
        i32::MIN as int
    }

    open spec fn greatest() -> int {
        i32::MAX as int
    }

    open spec fn signed() -> bool {
        true
    }

    fn random_range(r: &mut R, bounds: Bounds<i32>) -> (out: Result<i32, RangeError>) {
        let lower: Bound<i128> = match bounds.lower {
            Bound::Included(v) => Bound::Included(v as i128),
            Bound::Excluded(v) => Bound::Excluded(v as i128),
            Bound::Unbounded => Bound::Unbounded,
        };
        let upper: Bound<i128> = match bounds.upper {
            Bound::Included(v) => Bound::Included(v as i128),
            Bound::Excluded(v) => Bound::Excluded(v as i128),
            Bound::Unbounded => Bound::Unbounded,
        };
        proof {
            lemma_pow256_values();
        }
        match sample_between(r, lower, upper, i32::MIN as i128, i32::MAX as i128, 4, true) {
            Ok(v) => Ok(v as i32),
            Err(why) => Err(why),
        }
    }
}

impl<const OUTPUT: usize, R: Rng<OUTPUT>> RandomRange<OUTPUT, R> for i64 {
    open spec fn int_of(self) -> int {
        self as int
    }

    open spec fn least() -> int {
        i64::MIN as int
    }

    open spec fn greatest() -> int {
        i64::MAX as int
    }

    open spec fn signed() -> bool {
        true
    }

    fn random_range(r: &mut R, bounds: Bounds<i64>) -> (out: Result<i64, RangeError>) {
        let lower: Bound<i128> = match bounds.lower {
            Bound::Included(v) => Bound::Included(v as i128),
            Bound::Excluded(v) => Bound::Excluded(v as i128),
            Bound::Unbounded => Bound::Unbounded,
        };
        let upper: Bound<i128> = match bounds.upper {
            Bound::Included(v) => Bound::Included(v as i128),
            Bound::Excluded(v) => Bound::Excluded(v as i128),
            Bound::Unbounded => Bound::Unbounded,
        };
        proof {
            lemma_pow256_values();
        }
        match sample_between(r, lower, upper, i64::MIN as i128, i64::MAX as i128, 8, true) {
            Ok(v) => Ok(v as i64),
            Err(why) => Err(why),
        }
    }
}

impl<const OUTPUT: usize, R: Rng<OUTPUT>> RandomRange<OUTPUT, R> for usize {
    open spec fn int_of(self) -> int {
        self as int
    }

    open spec fn least() -> int {
        usize::MIN as int
    }

    open spec fn greatest() -> int {
        usize::MAX as int
    }

    open spec fn signed() -> bool {
        false
    }

    fn random_range(r: &mut R, bounds: Bounds<usize>) -> (out: Result<usize, RangeError>) {
        let lower: Bound<i128> = match bounds.lower {
            Bound::Included(v) => Bound::Included(v as i128),
            Bound::Excluded(v) => Bound::Excluded(v as i128),
            Bound::Unbounded => Bound::Unbounded,
        };
        let upper: Bound<i128> = match bounds.upper {
            Bound::Included(v) => Bound::Included(v as i128),
            Bound::Excluded(v) => Bound::Excluded(v as i128),
            Bound::Unbounded => Bound::Unbounded,
        };
        let width: usize = pointer_width();
        match sample_between(r, lower, upper, usize::MIN as i128, usize::MAX as i128, width, false) {
            Ok(v) => Ok(v as usize),
            Err(why) => Err(why),
        }
    }
}

impl<const OUTPUT: usize, R: Rng<OUTPUT>> RandomRange<OUTPUT, R> for isize {
    open spec fn int_of(self) -> int {
        self as int
    }

    open spec fn least() -> int {
        isize::MIN as int
    }

    open spec fn greatest() -> int {
        isize::MAX as int
    }

    open spec fn signed() -> bool {
        true
    }

    fn random_range(r: &mut R, bounds: Bounds<isize>) -> (out: Result<isize, RangeError>) {
        let lower: Bound<i128> = match bounds.lower {
            Bound::Included(v) => Bound::Included(v as i128),
            Bound::Excluded(v) => Bound::Excluded(v as i128),
            Bound::Unbounded => Bound::Unbounded,
        };
        let upper: Bound<i128> = match bounds.upper {
            Bound::Included(v) => Bound::Included(v as i128),
            Bound::Excluded(v) => Bound::Excluded(v as i128),
            Bound::Unbounded => Bound::Unbounded,
        };
        let width: usize = pointer_width();
        match sample_between(r, lower, upper, isize::MIN as i128, isize::MAX as i128, width, true) {
            Ok(v) => Ok(v as isize),
            Err(why) => Err(why),
        }
    }
}

} // verus!
