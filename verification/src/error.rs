//! Why an encoding or a decoding was refused.

use vstd::prelude::*;

verus! {

/// The ways in which the transform rejects a call.
#[derive(Debug, Clone, Copy, PartialEq, Eq, Structural)]
pub enum AontError {
    /// The public parameter, or a supplied key, is not exactly one block long.
    InvalidParameterLength,
    /// The buffer is not a whole number of blocks, lacks the trailing key
    /// block that decoding needs, holds more blocks than the 32-bit block
    /// counter can number, or leaves no room in memory for the block that
    /// encoding adds.
    InvalidMessageLength,
    /// The operating system could not supply random bytes for a fresh key.
    RandomSourceFailure,
}

} // verus!
