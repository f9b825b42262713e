//! Rivest's all-or-nothing transform over SHA-1.
//!
//! A message of whole blocks is masked with a keystream derived from a fresh
//! random key, and the key itself is appended, masked by a checksum of the
//! masked blocks. Anyone holding every block and the public parameter can
//! undo the transform; anyone missing a block cannot recover the key.

pub mod buffer;
pub mod codec;
pub mod error;
pub mod hash;
pub mod model;
pub mod random;
pub mod theorems;
pub mod xor;

pub use crate::codec::{decode_sha1, encode_sha1, encode_with_key};
pub use crate::error::AontError;
pub use crate::xor::xor_slice;
