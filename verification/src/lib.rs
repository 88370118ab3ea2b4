//! Small Fast Counting (SFC) pseudo-random number generators.
//!
//! This crate implements the sfc32 and sfc64 algorithms: fast,
//! non-cryptographic generators with a fixed-size internal state of four
//! native-width words `{a, b, c, counter}`. Every operation is a pure,
//! deterministic function of that state, so identically seeded engines
//! produce identical streams on every platform.
//!
//! Each engine offers the same surface: construction from three raw words
//! with a warm-up round count, from a 64-bit scalar, from a little-endian
//! seed-byte block, or from operating-system entropy; production of native
//! words, derived-width words, and arbitrary-length byte buffers; and a flat
//! serialization of the four state words for persistence.
//!
//! The contracts in this crate pin the exact state transition of every
//! round, the warm-up protocol of every seeding path, and the little-endian
//! byte-extraction rule, so the published test vectors of the algorithm
//! family are provable consequences of the specifications.

mod entropy;
mod error;
mod pcg;
mod sfc32;
mod sfc64;
mod words;

pub use crate::error::SfcError;
pub use crate::sfc32::Sfc32;
pub use crate::sfc64::Sfc64;
