//! Sources of entropy for seeding.
//!
//! A request for `n` bytes is met in full by the first of three tiers that
//! can meet it: the operating system's random source, a hardware seed
//! instruction, and, when all else fails, a mix of clock readings. The last
//! tier is weak but always there, so a request never fails.
use crate::bytes::{be_bytes, le_bytes, to_be, to_le};
use std::time::{Duration, SystemTime, SystemTimeError};
use vstd::prelude::*;

verus! {

/// How often the seed instruction is tried for one word.
pub const SEED_ATTEMPTS: usize = 10;

/// A hardware instruction that yields 64 bits of entropy, or nothing, each
/// time it is tried.
pub trait HardwareSeed: Sized {
    /// Whether the machine is known to have no seed instruction. Of a
    /// machine that does not say so, nothing is known.
    open spec fn absent(&self) -> bool {
        false
    }

    /// One attempt at the instruction: 64 bits, or nothing where it failed.
    /// A machine without the instruction gives nothing, and is none the
    /// wiser for the attempt.
    fn seed64(&mut self) -> (word: Option<u64>)
        ensures
            old(self).absent() ==> word is None && *final(self) == *old(self),
    ;
}

/// A machine with no seed instruction: every attempt fails.
pub struct NoHardwareSeed;

impl HardwareSeed for NoHardwareSeed {
    open spec fn absent(&self) -> bool {
        true
    }

    fn seed64(&mut self) -> (word: Option<u64>) {
        None
    }
}

/// What follows an attempt at the seed instruction.
#[derive(Clone, Copy, Debug, PartialEq, Eq, Structural)]
pub enum Attempt {
    /// The attempt gave a word: the word is the answer.
    Word(u64),
    /// The attempt gave nothing, and so many attempts are made by now:
    /// another is due.
    Again(usize),
    /// The attempt gave nothing, and it was the last.
    GiveUp,
}

/// What follows the attempt `attempt`, with `tried` attempts made before it.
pub open spec fn next_attempt(tried: nat, attempt: Option<u64>) -> Attempt {
    match attempt {
        Some(word) => Attempt::Word(word),
        None => if tried + 1 < SEED_ATTEMPTS {
            Attempt::Again((tried + 1) as usize)
        } else {
            Attempt::GiveUp
        },
    }
}

/// What follows the attempt `attempt`, with `tried` attempts made before it:
/// the first word that comes is taken, and the attempt with the number
/// `SEED_ATTEMPTS` is the last.
pub fn after_attempt(tried: usize, attempt: Option<u64>) -> (next: Attempt)
    requires
        tried < SEED_ATTEMPTS,
    ensures
        next == next_attempt(tried as nat, attempt),
{
    match attempt {
        Some(word) => Attempt::Word(word),
        None => if tried + 1 < SEED_ATTEMPTS {
            Attempt::Again(tried + 1)
        } else {
            Attempt::GiveUp
        },
    }
}

/// `std::time::SystemTime`, a reading of the system clock: nothing is known
/// of what is in it.
#[verifier::external_type_specification]
#[verifier::external_body]
pub struct ExSystemTime(SystemTime);

/// `std::time::SystemTimeError`, the error of a clock that stands before the
/// time it is compared with: nothing is known of what is in it.
#[verifier::external_type_specification]
#[verifier::external_body]
pub struct ExSystemTimeError(SystemTimeError);

/// `SystemTime::now` reads the system clock: nothing is known of the reading.
pub assume_specification[ SystemTime::now ]() -> SystemTime;

/// `SystemTime::duration_since` gives the time from `earlier` to `time`, or an
/// error where `earlier` is the later of the two.
pub assume_specification[ SystemTime::duration_since ](
    time: &SystemTime,
    earlier: SystemTime,
) -> Result<Duration, SystemTimeError>;

/// `Duration::as_nanos` gives a duration in nanoseconds.
pub assume_specification[ Duration::as_nanos ](duration: &Duration) -> u128;

/// The start of 1970 in UTC, `std::time::UNIX_EPOCH`.
#[verifier::external_body]
fn unix_epoch() -> SystemTime {
    std::time::UNIX_EPOCH
}

/// Fills `dest` from the operating system's random source with
/// `getrandom::getrandom`, which writes into the bytes it is handed and
/// reports whether it could fill them all. After a failure nothing is known of
/// what `dest` holds; its length is the same either way.
#[verifier::external_body]
fn os_fill(dest: &mut Vec<u8>) -> (filled: bool)
    ensures
        final(dest)@.len() == old(dest)@.len(),
{
    getrandom::getrandom(dest.as_mut_slice()).is_ok()
}

/// The number of `size`-byte words that hold `n` bytes.
pub open spec fn words_for(n: nat, size: nat) -> nat {
    if n % size == 0 {
        n / size
    } else {
        n / size + 1
    }
}

/// The sixteen bytes of a clock reading, least significant first where
/// `little` holds and most significant first where it does not.
pub open spec fn reading_bytes(reading: u128, little: bool) -> Seq<u8> {
    if little {
        le_bytes(reading as nat, 16)
    } else {
        be_bytes(reading as nat, 16)
    }
}

/// Byte `k` of the mix of two passes of clock readings. Reading `k / 16` of
/// the first pass is laid out least significant byte first at even places and
/// most significant first at odd ones; the second pass takes the opposite
/// order, and the two are combined by exclusive or.
pub open spec fn mixed_byte(first: Seq<u128>, second: Seq<u128>, k: int) -> u8 {
    let i = k / 16;
    let j = k % 16;
    reading_bytes(first[i], i % 2 == 0)[j] ^ reading_bytes(second[i], i % 2 != 0)[j]
}

/// The `n` bytes that two passes of clock readings mix to.
pub open spec fn mixed_readings(first: Seq<u128>, second: Seq<u128>, n: nat) -> Seq<u8> {
    Seq::new(n, |k: int| mixed_byte(first, second, k))
}

/// The eight bytes of a hardware word, least significant first where
/// `little` holds and most significant first where it does not.
pub open spec fn word_bytes(word: u64, little: bool) -> Seq<u8> {
    if little {
        le_bytes(word as nat, 8)
    } else {
        be_bytes(word as nat, 8)
    }
}

/// The `n` bytes that hardware words are laid out to: word `k / 8` least
/// significant byte first at even places, most significant first at odd ones.
pub open spec fn laid_out_words(words: Seq<u64>, n: nat) -> Seq<u8> {
    Seq::new(n, |k: int| word_bytes(words[k / 8], (k / 8) % 2 == 0)[k % 8])
}

/// The number of `size`-byte words that hold `n` bytes, for a `size` of 8 or
/// 16.
fn word_count(n: usize, size: usize) -> (count: usize)
    requires
        size == 8 || size == 16,
    ensures
        count == words_for(n as nat, size as nat),
        n <= count * size < n + size,
{
    if n % size == 0 {
        n / size
    } else {
        n / size + 1
    }
}

/// The clock in nanoseconds since the start of 1970, and zero where the clock
/// stands before that.
pub fn clock_nanos() -> u128 {
    let now: SystemTime = SystemTime::now();
    match now.duration_since(unix_epoch()) {
        Ok(elapsed) => elapsed.as_nanos(),
        Err(_) => 0,
    }
}

/// `count` readings of the clock, one after the other.
fn clock_readings(count: usize) -> (readings: Vec<u128>)
    ensures
        readings@.len() == count,
{
    let mut readings: Vec<u128> = Vec::new();
    while readings.len() < count
        invariant
            readings@.len() <= count,
        decreases count - readings@.len(),
    {
        readings.push(clock_nanos());
    }
    readings
}

/// Mixes two passes of clock readings into `n` bytes.
pub fn mix_readings(first: &Vec<u128>, second: &Vec<u128>, n: usize) -> (out: Vec<u8>)
    requires
        first@.len() == words_for(n as nat, 16),
        second@.len() == words_for(n as nat, 16),
    ensures
        out@ == mixed_readings(first@, second@, n as nat),
{
    let mut out: Vec<u8> = Vec::new();
    let mut i: usize = 0;
    while out.len() < n
        invariant
            first@.len() == words_for(n as nat, 16),
            second@.len() == words_for(n as nat, 16),
            out@.len() <= n,
            out@.len() == if 16 * i <= n {
                16 * i
            } else {
                n as int
            },
            forall|k: int| 0 <= k < out@.len() ==> out@[k] == mixed_byte(first@, second@, k),
        decreases n - out@.len(),
    {
        let little: bool = i % 2 == 0;
        let a: [u8; 16] = if little {
            to_le::<16>(first[i])
        } else {
            to_be::<16>(first[i])
        };
        let b: [u8; 16] = if little {
            to_be::<16>(second[i])
        } else {
            to_le::<16>(second[i])
        };
        let mut j: usize = 0;
        while j < 16 && out.len() < n
            invariant
                j <= 16,
                out@.len() <= n,
                16 * i < n,
                out@.len() == 16 * i + j,
                a@ == reading_bytes(first@[i as int], i % 2 == 0),
                b@ == reading_bytes(second@[i as int], i % 2 != 0),
                forall|k: int| 0 <= k < out@.len() ==> out@[k] == mixed_byte(first@, second@, k),
            decreases 16 - j,
        {
            out.push(a[j] ^ b[j]);
            j += 1;
        }
        i += 1;
    }
    proof {
        assert(out@ =~= mixed_readings(first@, second@, n as nat));
    }
    out
}

/// The emergency source: `n` bytes mixed from two passes over the clock.
///
/// The bytes are `mixed_readings` of the readings that the two passes took;
/// which readings those were, nothing here can say.
pub fn emergency_system_time_entropy(n: usize) -> (out: Vec<u8>)
    ensures
        out@.len() == n,
{
    let count: usize = word_count(n, 16);
    let first: Vec<u128> = clock_readings(count);
    let second: Vec<u128> = clock_readings(count);
    mix_readings(&first, &second, n)
}

/// Lays out hardware words as `n` bytes.
pub fn lay_out_words(words: &Vec<u64>, n: usize) -> (out: Vec<u8>)
    requires
        words@.len() == words_for(n as nat, 8),
    ensures
        out@ == laid_out_words(words@, n as nat),
{
    let mut out: Vec<u8> = Vec::new();
    let mut i: usize = 0;
    while out.len() < n
        invariant
            words@.len() == words_for(n as nat, 8),
            out@.len() <= n,
            out@.len() == if 8 * i <= n {
                8 * i
            } else {
                n as int
            },
            forall|k: int|
                0 <= k < out@.len() ==> out@[k] == word_bytes(
                    words@[k / 8],
                    (k / 8) % 2 == 0,
                )[k % 8],
        decreases n - out@.len(),
    {
        let a: [u8; 8] = if i % 2 == 0 {
            to_le::<8>(words[i] as u128)
        } else {
            to_be::<8>(words[i] as u128)
        };
        let mut j: usize = 0;
        while j < 8 && out.len() < n
            invariant
                j <= 8,
                out@.len() <= n,
                8 * i < n,
                out@.len() == 8 * i + j,
                a@ == word_bytes(words@[i as int], i % 2 == 0),
                forall|k: int|
                    0 <= k < out@.len() ==> out@[k] == word_bytes(
                        words@[k / 8],
                        (k / 8) % 2 == 0,
                    )[k % 8],
            decreases 8 - j,
        {
            out.push(a[j]);
            j += 1;
        }
        i += 1;
    }
    proof {
        assert(out@ =~= laid_out_words(words@, n as nat));
    }
    out
}

/// One word from the seed instruction, tried up to `SEED_ATTEMPTS` times:
/// the first word that comes, or nothing where every attempt failed. What
/// follows each attempt is `after_attempt` of it.
///
/// Which attempts fail, only the machine knows. A machine without the
/// instruction gives nothing, and is left as it was.
pub fn rdseed_word<H: HardwareSeed>(hw: &mut H) -> (word: Option<u64>)
    ensures
        old(hw).absent() ==> word is None && *final(hw) == *old(hw),
{
    let mut tried: usize = 0;
    loop
        invariant
            tried < SEED_ATTEMPTS,
            old(hw).absent() ==> *hw == *old(hw),
        decreases SEED_ATTEMPTS - tried,
    {
        let attempt: Option<u64> = hw.seed64();
        match after_attempt(tried, attempt) {
            Attempt::Word(word) => {
                return Some(word);
            },
            Attempt::Again(made) => {
                tried = made;
            },
            Attempt::GiveUp => {
                return None;
            },
        }
    }
}

/// The hardware source: `n` bytes from the seed instruction, or nothing where
/// the instruction gives out before the bytes are gathered. A request for no
/// bytes asks nothing of the hardware and succeeds; a request for more gets
/// nothing from a machine without the instruction.
pub fn rdseed_entropy<H: HardwareSeed>(hw: &mut H, n: usize) -> (out: Option<Vec<u8>>)
    ensures
        out matches Some(bytes) ==> bytes@.len() == n,
        n == 0 ==> out is Some && *final(hw) == *old(hw),
        old(hw).absent() ==> (out is Some <==> n == 0) && *final(hw) == *old(hw),
{
    let count: usize = word_count(n, 8);
    let mut words: Vec<u64> = Vec::new();
    while words.len() < count
        invariant
            words@.len() <= count,
            count == words_for(n as nat, 8),
            count == 0 ==> *hw == *old(hw),
            old(hw).absent() ==> *hw == *old(hw) && words@.len() == 0,
        decreases count - words@.len(),
    {
        match rdseed_word(hw) {
            Some(word) => {
                words.push(word);
            },
            None => {
                return None;
            },
        }
    }
    Some(lay_out_words(&words, n))
}

/// The fallback for a machine whose operating system gave nothing: the
/// hardware source, and after it the clock.
pub fn backup_entropy<H: HardwareSeed>(hw: &mut H, n: usize) -> (out: Vec<u8>)
    ensures
        out@.len() == n,
{
    match rdseed_entropy(hw, n) {
        Some(bytes) => bytes,
        None => emergency_system_time_entropy(n),
    }
}

/// The ladder below the operating system: `os` is what the operating system
/// gave, if anything. Its bytes are the answer where they are `n` bytes;
/// anything else counts as a failure of that tier, and the fallback answers.
pub fn acquire_from<H: HardwareSeed>(os: Option<Vec<u8>>, hw: &mut H, n: usize) -> (out: Vec<u8>)
    ensures
        out@.len() == n,
        os matches Some(bytes) ==> (bytes@.len() == n ==> out@ == bytes@ && *final(hw) == *old(hw)),
{
    match os {
        Some(bytes) => {
            if bytes.len() == n {
                bytes
            } else {
                backup_entropy(hw, n)
            }
        },
        None => backup_entropy(hw, n),
    }
}

/// What the operating system's random source gives for a request of `n`
/// bytes: the bytes, or nothing where it failed. A request for no bytes asks
/// nothing of the operating system and succeeds. What becomes of the answer
/// is `acquire_from` of it.
pub fn os_entropy(n: usize) -> (out: Option<Vec<u8>>)
    ensures
        out matches Some(bytes) ==> bytes@.len() == n,
        n == 0 ==> out is Some,
{
    if n == 0 {
        return Some(Vec::new());
    }
    let mut dest: Vec<u8> = Vec::new();
    while dest.len() < n
        invariant
            dest@.len() <= n,
        decreases n - dest@.len(),
    {
        dest.push(0);
    }
    if os_fill(&mut dest) {
        Some(dest)
    } else {
        None
    }
}

/// `n` bytes of entropy from the best tier that can give them, on a machine
/// with the seed instruction `hw`.
pub fn acquire<H: HardwareSeed>(hw: &mut H, n: usize) -> (out: Vec<u8>)
    ensures
        out@.len() == n,
{
    let os: Option<Vec<u8>> = os_entropy(n);
    acquire_from(os, hw, n)
}

/// `n` bytes of entropy from the operating system, and from the clock where
/// the operating system gives none.
pub fn entropy_from_system(n: usize) -> (out: Vec<u8>)
    ensures
        out@.len() == n,
{
    let mut hw: NoHardwareSeed = NoHardwareSeed;
    acquire(&mut hw, n)
}

} // verus!
