//! The transform as mathematics: what encoding and decoding compute, over byte sequences.

use crate::hash::sha1_of;
use crate::xor::{xor_bytes, zeros};
use vstd::prelude::*;

verus! {

/// The block length as a mathematical integer: the twenty bytes of a SHA-1 digest.
pub open spec fn block_len() -> int {
    20
}

/// The four bytes of `i` in big-endian (network) order.
pub open spec fn be32(i: int) -> Seq<u8> {
    seq![
        ((i / 0x100_0000) % 0x100) as u8,
        ((i / 0x1_0000) % 0x100) as u8,
        ((i / 0x100) % 0x100) as u8,
        (i % 0x100) as u8,
    ]
}

/// Block number `k` of `data`, counting from zero.
pub open spec fn block_at(data: Seq<u8>, k: int) -> Seq<u8> {
    data.subrange(k * block_len(), k * block_len() + block_len())
}

/// The keystream block with counter `i`: the digest of the key followed by the counter.
pub open spec fn keystream_block(key: Seq<u8>, i: int) -> Seq<u8> {
    sha1_of(key + be32(i))
}

/// `data` with each block masked by its keystream block; counters start at one.
/// Masking twice with one key gives the data back, so this is also the unmasking.
pub open spec fn mask_blocks(key: Seq<u8>, data: Seq<u8>) -> Seq<u8> {
    Seq::new(
        data.len(),
        |j: int| data[j] ^ keystream_block(key, j / block_len() + 1)[j % block_len()],
    )
}

/// What block `k` of `data` adds to the checksum: the digest of the public
/// parameter, the block, and the block's counter `k + 1`.
pub open spec fn contribution(public: Seq<u8>, data: Seq<u8>, k: int) -> Seq<u8> {
    sha1_of(public + block_at(data, k) + be32(k + 1))
}

/// The contributions of all whole blocks of `data`, in block order.
pub open spec fn contributions(public: Seq<u8>, data: Seq<u8>) -> Seq<Seq<u8>> {
    Seq::new((data.len() as int / block_len()) as nat, |k: int| contribution(public, data, k))
}

/// The step of the checksum fold: exclusive or of the accumulator with one block.
pub open spec fn xor_step() -> spec_fn(Seq<u8>, Seq<u8>) -> Seq<u8> {
    |acc: Seq<u8>, block: Seq<u8>| xor_bytes(acc, block)
}

/// Exclusive or of all `blocks`, folded from a zero block.
pub open spec fn xor_fold(blocks: Seq<Seq<u8>>) -> Seq<u8> {
    blocks.fold_left(zeros(block_len() as nat), xor_step())
}

/// The checksum of `data` under `public`.
pub open spec fn checksum(public: Seq<u8>, data: Seq<u8>) -> Seq<u8> {
    xor_fold(contributions(public, data))
}

/// The transformed message: the masked blocks, then the key masked by their checksum.
pub open spec fn encoded(message: Seq<u8>, public: Seq<u8>, key: Seq<u8>) -> Seq<u8> {
    let body = mask_blocks(key, message);
    body + xor_bytes(checksum(public, body), key)
}

/// The blocks of `transformed` before its trailing block.
pub open spec fn body_of(transformed: Seq<u8>) -> Seq<u8> {
    transformed.subrange(0, transformed.len() - block_len())
}

/// The trailing block of `transformed`.
pub open spec fn trailer_of(transformed: Seq<u8>) -> Seq<u8> {
    transformed.subrange(transformed.len() - block_len(), transformed.len() as int)
}

/// The key that `transformed` carries: its trailing block unmasked by the checksum of the rest.
pub open spec fn recovered_key(transformed: Seq<u8>, public: Seq<u8>) -> Seq<u8> {
    xor_bytes(checksum(public, body_of(transformed)), trailer_of(transformed))
}

/// The message that `transformed` decodes to.
pub open spec fn decoded(transformed: Seq<u8>, public: Seq<u8>) -> Seq<u8> {
    mask_blocks(recovered_key(transformed, public), body_of(transformed))
}

/// Folding one more block in is one more exclusive or.
pub proof fn lemma_xor_fold_push(blocks: Seq<Seq<u8>>, block: Seq<u8>)
    ensures
        xor_fold(blocks.push(block)) == xor_bytes(xor_fold(blocks), block),
{
    assert(blocks.push(block).drop_last() =~= blocks);
}

/// A fold is one block long, whatever was folded.
pub proof fn lemma_xor_fold_len(blocks: Seq<Seq<u8>>)
    ensures
        xor_fold(blocks).len() == block_len(),
    decreases blocks.len(),
{
    if blocks.len() > 0 {
        lemma_xor_fold_len(blocks.drop_last());
    }
}

} // verus!
