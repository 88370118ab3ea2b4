//! The operating-system entropy source, behind a trusted boundary.
//!
//! Entropy collection is the one capability the generators need that cannot
//! be computed: the rest of the crate only ever sees the returned bytes.

use vstd::prelude::*;

verus! {

/// The error type of `rand_core::os::OsRng`, opaque to this crate.
#[verifier::external_type_specification]
#[verifier::external_body]
pub struct ExOsError(rand_core::OsError);

/// Overwrites `buf` with fresh entropy from the operating system.
///
/// Relies on `rand_core::os::OsRng::try_fill_bytes` (backed by the
/// `getrandom` crate): on success the whole slice has been filled with
/// entropy; on failure nothing is promised about its contents. Either way a
/// slice cannot change length. No promise is made about the byte values:
/// they are random.
#[verifier::external_body]
pub(crate) fn fill_from_os(buf: &mut Vec<u8>) -> (r: Result<(), rand_core::OsError>)
    ensures
        final(buf)@.len() == old(buf)@.len(),
{
    rand_core::TryRngCore::try_fill_bytes(&mut rand_core::OsRng, buf.as_mut_slice())
}

} // verus!
