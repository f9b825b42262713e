//! The source of fresh keys: the operating system's random number generator.

use vstd::prelude::*;

verus! {

/// The error with which `rand` reports that a generator could not deliver.
#[verifier::external_type_specification]
#[verifier::external_body]
pub struct ExRandError(rand::Error);

/// `RngCore::try_fill_bytes` on `rand::rngs::OsRng`. Trusted: the call keeps
/// the buffer's length. Nothing is claimed of the bytes written, nor of
/// whether the call succeeds.
#[verifier::external_body]
pub(crate) fn os_random_fill(dest: &mut [u8]) -> (res: Result<(), rand::Error>)
    ensures
        final(dest)@.len() == old(dest)@.len(),
{
    rand::RngCore::try_fill_bytes(&mut rand::rngs::OsRng, dest)
}

} // verus!
