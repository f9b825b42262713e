//! The block hash of the transform: SHA-1, whose digest length is the block length.

use sha1::Digest;
use vstd::prelude::*;

verus! {

/// Length in bytes of a block: the length of a SHA-1 digest.
pub const BLOCK_LEN: usize = 20;

/// The SHA-1 digest of `data`. The algorithm is not restated here: the
/// transform relies only on the digest being a function of the bytes hashed.
pub uninterp spec fn sha1_of(data: Seq<u8>) -> Seq<u8>;

/// `Sha1::digest` of the `sha1` crate, copied into a vector. Trusted: the
/// result is the SHA-1 digest of `data`, and it is `BLOCK_LEN` bytes long,
/// the crate's declared output size for this hash.
#[verifier::external_body]
pub(crate) fn sha1_digest(data: &[u8]) -> (out: Vec<u8>)
    ensures
        out@ == sha1_of(data@),
        out@.len() == BLOCK_LEN,
{
    sha1::Sha1::digest(data).to_vec()
}

/// `Sha1::output_size` of the `sha1` crate. Trusted: it reports `BLOCK_LEN`,
/// the output size that the crate declares for SHA-1.
#[verifier::external_body]
pub(crate) fn sha1_output_size() -> (size: usize)
    ensures
        size == BLOCK_LEN,
{
    sha1::Sha1::output_size()
}

} // verus!
