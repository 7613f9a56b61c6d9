//! Pseudorandom number generation: generators that emit blocks of bytes,
//! typed values and unbiased ranges on top of them, and the entropy to seed
//! them with.
pub mod buffer;
pub mod bytes;
pub mod crypto;
pub mod entropy;
pub mod gen;
pub mod generate;
pub mod rand;
pub mod range;
mod wipe;

pub use crate::buffer::BufferedRng;
pub use crate::gen::RandomGen;
pub use crate::generate::Generate;
pub use crate::rand::{ChaCha, ChaChaError, Pcg64, Rng, SeedableRng, WyRand};
pub use crate::range::{Bound, Bounds, RandomRange, RangeError};
