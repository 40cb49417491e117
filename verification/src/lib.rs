//! MurmurHash2, the 32-bit non-cryptographic hash, with its seed fixed at 1.
//!
//! [`murmurhash2`] hashes a buffer in one call. [`Murmur2Digest`] takes the
//! same input in pieces of any size and gives the same hash, however the
//! input was cut: it is told the length of the whole input when it is
//! started, and keeps the up to three bytes that do not yet fill a word.
//!
//! - `model` says what the hash is, and what a digest holds between calls.
//! - `digest` is the executable code, each function with its contract.
//! - `laws` proves that cutting the input never changes the hash.
//! - `sensitivity` proves that changing one byte always does.

pub mod digest;
pub mod laws;
pub mod model;
pub mod sensitivity;

pub use digest::murmurhash2;
pub use digest::Murmur2Digest;
