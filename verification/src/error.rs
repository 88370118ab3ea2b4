//! The error conditions of the crate.

use vstd::prelude::*;

verus! {

/// What can go wrong while constructing an engine.
///
/// Seeding from explicit bytes or scalars and producing output are total
/// operations and cannot fail; the only fallible paths are pulling fresh
/// entropy from the operating system and decoding a persisted state payload.
#[derive(Clone, Copy, Debug, PartialEq, Eq, Structural)]
pub enum SfcError {
    /// The operating-system entropy source could not supply the requested
    /// seed bytes.
    EntropyUnavailable,
    /// A persisted state payload does not have the exact shape of the four
    /// state words.
    MalformedState,
}

} // verus!
