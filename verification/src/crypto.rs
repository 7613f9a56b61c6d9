//! The cipher cores behind the cryptographic generators.
pub mod chacha;
