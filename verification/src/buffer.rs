//! A generator behind a queue of leftover bytes.
//!
//! A generator emits whole blocks. Where fewer bytes are asked for than a
//! block holds, the rest of the block is kept and handed out first at the
//! next request: no byte that the generator emits is dropped, and none is
//! handed out twice.
use crate::gen::{before, draw_bytes, lemma_blocks_for, lemma_drawn_extend};
use crate::rand::{
    advance, blocks_for, drawn, lemma_advance_add, lemma_drawn_len, lemma_steady_add, steady, Rng,
};
use vstd::prelude::*;

verus! {

/// The state of a buffered generator.
pub struct BufferedView<V> {
    /// The state of the generator.
    pub rng: V,
    /// The bytes that the generator has emitted and nobody has fetched yet.
    pub buffer: Seq<u8>,
}

/// The number of blocks that a request for `n` bytes draws from the
/// generator, with `buffered` bytes in the queue.
pub open spec fn fetched(buffered: nat, n: nat, size: nat) -> nat {
    if n <= buffered {
        0
    } else {
        blocks_for((n - buffered) as nat, size)
    }
}

/// The bytes in hand once `k` blocks are drawn: the queue, and after it the
/// blocks.
pub open spec fn pending<const N: usize, R: Rng<N>>(state: BufferedView<R::V>, k: nat) -> Seq<u8> {
    state.buffer + drawn::<N, R>(state.rng, k * (N as nat))
}

/// The counts of a sequence of requests, each for so many bytes, that starts
/// with an empty queue: the bytes handed out, the bytes that the generator
/// has emitted, and the bytes left in the queue.
pub open spec fn totals(requests: Seq<nat>, size: nat) -> (nat, nat, nat)
    decreases requests.len(),
{
    if requests.len() == 0 {
        (0, 0, 0)
    } else {
        let so_far = totals(requests.drop_last(), size);
        let n = requests.last();
        let blocks = fetched(so_far.2, n, size);
        (so_far.0 + n, so_far.1 + blocks * size, (so_far.2 + blocks * size - n) as nat)
    }
}

/// Nothing is lost and nothing is made up: after any sequence of requests,
/// the bytes handed out and the bytes left in the queue are together the
/// bytes that the generator has emitted.
pub proof fn lemma_conservation(requests: Seq<nat>, size: nat)
    requires
        size > 0,
    ensures
        totals(requests, size).0 + totals(requests, size).2 == totals(requests, size).1,
    decreases requests.len(),
{
    if requests.len() > 0 {
        lemma_conservation(requests.drop_last(), size);
        let so_far = totals(requests.drop_last(), size);
        let n: nat = requests.last();
        lemma_fetched_covers(so_far.2, n, size);
    }
}

/// The blocks that a request draws, with the queue, hold the bytes asked
/// for, and less than a block more where any block is drawn.
pub proof fn lemma_fetched_covers(buffered: nat, n: nat, size: nat)
    requires
        size > 0,
    ensures
        n <= buffered + fetched(buffered, n, size) * size,
        n > buffered ==> buffered + fetched(buffered, n, size) * size < n + size,
{
    if n > buffered {
        let need: nat = (n - buffered) as nat;
        assert(need <= (need / size) * size + need % size && need % size < size && need == (need
            / size) * size + need % size) by (nonlinear_arith)
            requires
                size > 0,
        ;
        assert((need / size + 1) * size == (need / size) * size + size) by (nonlinear_arith);
    } else {
        assert(0 * size == 0);
    }
}

/// A generator behind a queue of leftover bytes.
pub struct BufferedRng<const OUTPUT: usize, R: Rng<OUTPUT>> {
    rng: R,
    buffer: Vec<u8>,
}

impl<const OUTPUT: usize, R: Rng<OUTPUT>> View for BufferedRng<OUTPUT, R> {
    type V = BufferedView<R::V>;

    closed spec fn view(&self) -> BufferedView<R::V> {
        BufferedView { rng: self.rng@, buffer: self.buffer@ }
    }
}

impl<const OUTPUT: usize, R: Rng<OUTPUT> + Default> Default for BufferedRng<OUTPUT, R> {
    /// An empty queue before the generator that `R::default()` makes.
    fn default() -> (buffered: Self)
        ensures
            buffered@.buffer == Seq::<u8>::empty(),
    {
        BufferedRng::new(R::default())
    }
}

impl<const OUTPUT: usize, R: Rng<OUTPUT>> BufferedRng<OUTPUT, R> {
    /// Puts an empty queue before the generator `rng`.
    pub fn new(rng: R) -> (buffered: Self)
        ensures
            buffered@ == (BufferedView { rng: rng@, buffer: Seq::<u8>::empty() }),
    {
        BufferedRng { rng, buffer: Vec::new() }
    }

    /// The generator behind the queue.
    pub fn inner(&self) -> (rng: &R)
        ensures
            rng@ == self@.rng,
    {
        &self.rng
    }

    /// Takes the adapter apart: the generator, and the bytes that were left
    /// in the queue.
    pub fn into_inner(self) -> (parts: (R, Vec<u8>))
        ensures
            parts.0@ == self@.rng,
            parts.1@ == self@.buffer,
    {
        (self.rng, self.buffer)
    }

    /// The number of bytes in the queue.
    pub fn buffered(&self) -> (count: usize)
        ensures
            count == self@.buffer.len(),
    {
        self.buffer.len()
    }

    /// Moves the bytes of the queue to the end of `sink`, and returns how many
    /// they were. The generator is not asked for more.
    pub fn read_to_end(&mut self, sink: &mut Vec<u8>) -> (count: usize)
        ensures
            count == old(self)@.buffer.len(),
            final(sink)@ == old(sink)@ + old(self)@.buffer,
            final(self)@ == (BufferedView { rng: old(self)@.rng, buffer: Seq::<u8>::empty() }),
    {
        let count: usize = self.buffer.len();
        let mut i: usize = 0;
        while i < count
            invariant
                i <= count,
                count == self.buffer@.len(),
                *self == *old(self),
                sink@ == old(sink)@ + self.buffer@.take(i as int),
            decreases count - i,
        {
            sink.push(self.buffer[i]);
            proof {
                assert(sink@ =~= old(sink)@ + self.buffer@.take(i + 1));
            }
            i += 1;
        }
        proof {
            assert(self.buffer@.take(count as int) =~= self.buffer@);
        }
        self.buffer = Vec::new();
        count
    }

    /// Fills `output`: from the queue first, and from as many blocks of the
    /// generator as it takes after that. What is left of the last block
    /// becomes the queue. The blocks of the generator must not be empty.
    pub fn fill(&mut self, output: &mut [u8])
        requires
            OUTPUT > 0,
        ensures
            final(output)@.len() == old(output)@.len(),
            final(self)@.buffer.len() + old(output)@.len() == old(self)@.buffer.len() + fetched(
                old(self)@.buffer.len(),
                old(output)@.len(),
                OUTPUT as nat,
            ) * OUTPUT,
            ({
                let n = old(output)@.len();
                let k = fetched(old(self)@.buffer.len(), n, OUTPUT as nat);
                &&& steady::<OUTPUT, R>(old(self)@.rng, before(k)) ==> {
                    &&& final(output)@ == pending::<OUTPUT, R>(old(self)@, k).take(n as int)
                    &&& final(self)@.buffer == pending::<OUTPUT, R>(old(self)@, k).skip(n as int)
                }
                &&& steady::<OUTPUT, R>(old(self)@.rng, k) ==> final(self)@.rng == advance::<
                    OUTPUT,
                    R,
                >(old(self)@.rng, k)
            }),
    {
        let n: usize = output.len();
        let held: usize = self.buffer.len();
        let ghost start: R::V = self.rng@;
        let ghost queue: Seq<u8> = self.buffer@;
        let from_queue: usize = if n < held {
            n
        } else {
            held
        };
        let mut i: usize = 0;
        while i < from_queue
            invariant
                i <= from_queue <= held,
                from_queue <= n,
                output@.len() == n,
                self.buffer@ == queue,
                self.rng@ == start,
                held == queue.len(),
                forall|j: int| 0 <= j < i ==> output@[j] == queue[j],
            decreases from_queue - i,
        {
            output[i] = self.buffer[i];
            i += 1;
        }
        let mut rest: Vec<u8> = Vec::new();
        let mut at: usize = from_queue;
        while at < held
            invariant
                from_queue <= at <= held,
                self.buffer@ == queue,
                held == queue.len(),
                rest@ == queue.subrange(from_queue as int, at as int),
            decreases held - at,
        {
            rest.push(self.buffer[at]);
            proof {
                assert(rest@ =~= queue.subrange(from_queue as int, at + 1));
            }
            at += 1;
        }
        self.buffer = rest;
        if n <= held {
            proof {
                assert(0 * OUTPUT == 0);
                assert(drawn::<OUTPUT, R>(start, 0) =~= Seq::<u8>::empty());
                assert(pending::<OUTPUT, R>(old(self)@, 0) =~= queue);
                assert(output@ =~= queue.take(n as int));
                assert(self.buffer@ =~= queue.skip(n as int));
            }
            return ;
        }
        let need: usize = n - held;
        let whole: usize = need / OUTPUT;
        let part: usize = need % OUTPUT;
        proof {
            assert(need == whole * OUTPUT + part && whole * OUTPUT <= need) by (nonlinear_arith)
                requires
                    OUTPUT > 0,
                    whole == need / OUTPUT,
                    part == need % OUTPUT,
            ;
            if whole > 0 {
                assert((whole - 1) * OUTPUT < whole * OUTPUT <= ((whole - 1) + 1) * OUTPUT)
                    by (nonlinear_arith)
                    requires
                        OUTPUT > 0,
                        whole > 0,
                ;
                lemma_blocks_for((whole * OUTPUT) as nat, OUTPUT as nat, (whole - 1) as nat);
            } else {
                assert(whole * OUTPUT == 0);
                let size: int = OUTPUT as int;
                assert(0int / size == 0 && 0int % size == 0) by (nonlinear_arith)
                    requires
                        size > 0,
                ;
            }
            assert(blocks_for((whole * OUTPUT) as nat, OUTPUT as nat) == whole);
        }
        let blocks: Vec<u8> = draw_bytes(&mut self.rng, whole * OUTPUT);
        let ghost middle: R::V = self.rng@;
        let mut j: usize = 0;
        while j < whole * OUTPUT
            invariant
                j <= whole * OUTPUT,
                held + whole * OUTPUT <= n,
                output@.len() == n,
                blocks@.len() == whole * OUTPUT,
                held == queue.len(),
                forall|t: int| 0 <= t < held ==> output@[t] == queue[t],
                forall|t: int| 0 <= t < j ==> output@[held + t] == blocks@[t],
            decreases whole * OUTPUT - j,
        {
            output[held + j] = blocks[j];
            j += 1;
        }
        let ghost k: nat = fetched(held as nat, n as nat, OUTPUT as nat);
        if part == 0 {
            proof {
                assert(k == whole);
                lemma_steady_add::<OUTPUT, R>(start, before(whole as nat), (whole - before(
                    whole as nat,
                )) as nat);
                lemma_drawn_len::<OUTPUT, R>(start, (whole * OUTPUT) as nat);
                if steady::<OUTPUT, R>(start, before(k)) {
                    assert(output@ =~= pending::<OUTPUT, R>(old(self)@, k).take(n as int));
                    assert(self.buffer@ =~= pending::<OUTPUT, R>(old(self)@, k).skip(n as int));
                }
            }
            return ;
        }
        let block: [u8; OUTPUT] = self.rng.rand();
        let mut t: usize = 0;
        while t < part
            invariant
                t <= part < OUTPUT,
                held + whole * OUTPUT + part == n,
                output@.len() == n,
                block@.len() == OUTPUT,
                blocks@.len() == whole * OUTPUT,
                held == queue.len(),
                forall|s: int| 0 <= s < held ==> output@[s] == queue[s],
                forall|s: int| 0 <= s < whole * OUTPUT ==> output@[held + s] == blocks@[s],
                forall|s: int| 0 <= s < t ==> output@[held + whole * OUTPUT + s] == block@[s],
            decreases part - t,
        {
            output[held + whole * OUTPUT + t] = block[t];
            t += 1;
        }
        let mut left: Vec<u8> = Vec::new();
        let mut u: usize = part;
        while u < OUTPUT
            invariant
                part <= u <= OUTPUT,
                block@.len() == OUTPUT,
                left@ == block@.subrange(part as int, u as int),
            decreases OUTPUT - u,
        {
            left.push(block[u]);
            proof {
                assert(left@ =~= block@.subrange(part as int, u + 1));
            }
            u += 1;
        }
        self.buffer = left;
        proof {
            assert(whole * OUTPUT < need <= (whole + 1) * OUTPUT) by (nonlinear_arith)
                requires
                    need == whole * OUTPUT + part,
                    0 < part < OUTPUT,
            ;
            lemma_blocks_for(need as nat, OUTPUT as nat, whole as nat);
            assert(k == whole + 1);
            assert((whole + 1) * OUTPUT == whole * OUTPUT + OUTPUT) by (nonlinear_arith);
            lemma_steady_add::<OUTPUT, R>(start, before(whole as nat), (whole - before(
                whole as nat,
            )) as nat);
            lemma_steady_add::<OUTPUT, R>(start, whole as nat, 1);
            lemma_advance_add::<OUTPUT, R>(start, whole as nat, 1);
            if steady::<OUTPUT, R>(start, before(k)) {
                assert(middle == advance::<OUTPUT, R>(start, whole as nat));
                R::lemma_block_len(middle);
                lemma_drawn_extend::<OUTPUT, R>(
                    start,
                    (whole * OUTPUT) as nat,
                    whole as nat,
                    OUTPUT as nat,
                );
                lemma_drawn_len::<OUTPUT, R>(start, (whole * OUTPUT) as nat);
                assert(block@.take(OUTPUT as int) =~= block@);
                let all: Seq<u8> = pending::<OUTPUT, R>(old(self)@, k);
                assert(all =~= queue + blocks@ + block@);
                assert(output@ =~= all.take(n as int));
                assert(self.buffer@ =~= all.skip(n as int));
                assert(steady::<OUTPUT, R>(middle, 1) == R::determined(middle)) by {
                    reveal_with_fuel(steady, 2);
                }
                assert(advance::<OUTPUT, R>(middle, 1) == R::next(middle)) by {
                    reveal_with_fuel(advance, 2);
                }
            }
        }
    }
}

} // verus!
