//! Encoding and decoding of whole buffers.

use crate::buffer::{write_at, write_counter, xor_at};
use crate::error::AontError;
use crate::hash::{sha1_digest, sha1_of, sha1_output_size, BLOCK_LEN};
use crate::model::{
    be32, block_at, block_len, checksum, contribution, contributions, decoded, encoded,
    keystream_block, lemma_xor_fold_len, lemma_xor_fold_push, mask_blocks, recovered_key,
    xor_fold,
};
use crate::random::os_random_fill;
use crate::theorems::lemma_round_trip;
use crate::xor::{xor_bytes, xor_slice};
use vstd::prelude::*;
use vstd::slice::{slice_subrange, slice_to_vec};

verus! {

/// Length in bytes of a block counter as it is hashed.
pub const COUNTER_LEN: usize = 4;

/// Whether `len` bytes are whole blocks, no more of them than a 32-bit
/// counter that starts at one can number.
pub open spec fn whole_blocks(len: int) -> bool {
    &&& len >= 0
    &&& len % block_len() == 0
    &&& len / block_len() <= u32::MAX
}

/// Whether a message of `len` bytes can be encoded: whole blocks that can be
/// numbered, and room in memory for one block more.
pub open spec fn encodable_len(len: int) -> bool {
    &&& whole_blocks(len)
    &&& len + block_len() <= usize::MAX
}

/// Whether a buffer of `len` bytes can be decoded: a trailing block, and
/// before it whole blocks that can be numbered.
pub open spec fn decodable_len(len: int) -> bool {
    &&& len >= block_len()
    &&& whole_blocks(len - block_len())
}

/// The error that encoding answers lengths with, if any. The message is
/// judged first, then the public parameter and the key.
pub open spec fn encode_rejection(message_len: int, public_len: int, key_len: int) -> Option<
    AontError,
> {
    if !encodable_len(message_len) {
        Some(AontError::InvalidMessageLength)
    } else if public_len != block_len() || key_len != block_len() {
        Some(AontError::InvalidParameterLength)
    } else {
        None
    }
}

/// The error that decoding answers lengths with, if any. The buffer is judged
/// first, then the public parameter.
pub open spec fn decode_rejection(transformed_len: int, public_len: int) -> Option<AontError> {
    if !decodable_len(transformed_len) {
        Some(AontError::InvalidMessageLength)
    } else if public_len != block_len() {
        Some(AontError::InvalidParameterLength)
    } else {
        None
    }
}

/// Whether `out` is an encoding of `message` under `public` with some key of one block.
pub open spec fn is_encoding_of(out: Seq<u8>, message: Seq<u8>, public: Seq<u8>) -> bool {
    exists|key: Seq<u8>| key.len() == block_len() && out == #[trigger] encoded(message, public, key)
}

/// Judges the lengths handed to an encoding.
pub fn check_encode_lengths(message_len: usize, public_len: usize, key_len: usize) -> (res: Option<
    AontError,
>)
    ensures
        res == encode_rejection(message_len as int, public_len as int, key_len as int),
{
    let blocksize: usize = sha1_output_size();
    if message_len % blocksize != 0 || message_len / blocksize > u32::MAX as usize || message_len
        > usize::MAX - blocksize {
        Some(AontError::InvalidMessageLength)
    } else if public_len != blocksize || key_len != blocksize {
        Some(AontError::InvalidParameterLength)
    } else {
        None
    }
}

/// Judges the lengths handed to a decoding.
pub fn check_decode_lengths(transformed_len: usize, public_len: usize) -> (res: Option<AontError>)
    ensures
        res == decode_rejection(transformed_len as int, public_len as int),
{
    let blocksize: usize = sha1_output_size();
    if transformed_len % blocksize != 0 || transformed_len < blocksize || transformed_len
        / blocksize - 1 > u32::MAX as usize {
        Some(AontError::InvalidMessageLength)
    } else if public_len != blocksize {
        Some(AontError::InvalidParameterLength)
    } else {
        None
    }
}

/// A zeroed hash input of `len` bytes that starts with `prefix`.
fn hash_input(prefix: &[u8], len: usize) -> (buf: Vec<u8>)
    requires
        prefix@.len() <= len,
    ensures
        buf@.len() == len,
        buf@.subrange(0, prefix@.len() as int) == prefix@,
{
    let mut buf: Vec<u8> = vec![0u8; len];
    write_at(&mut buf, 0, prefix);
    assert(buf@.subrange(0, prefix@.len() as int) =~= prefix@);
    buf
}

/// The keystream block with counter `counter`, for the key at the front of
/// `r_in`. The counter is left behind the key.
fn keystream(r_in: &mut Vec<u8>, counter: u32) -> (mask: Vec<u8>)
    requires
        old(r_in)@.len() == BLOCK_LEN + COUNTER_LEN,
    ensures
        final(r_in)@.len() == old(r_in)@.len(),
        final(r_in)@.subrange(0, block_len()) == old(r_in)@.subrange(0, block_len()),
        mask@ == keystream_block(old(r_in)@.subrange(0, block_len()), counter as int),
        mask@.len() == BLOCK_LEN,
{
    write_counter(r_in, BLOCK_LEN, counter);
    assert(r_in@ =~= old(r_in)@.subrange(0, block_len()) + be32(counter as int));
    assert(r_in@.subrange(0, block_len()) =~= old(r_in)@.subrange(0, block_len()));
    sha1_digest(r_in.as_slice())
}

/// Folds into `sum` what `block`, numbered `counter`, adds to the checksum
/// under the public parameter at the front of `p_in`. The block and its
/// counter are left behind the parameter.
fn absorb(sum: &mut Vec<u8>, p_in: &mut Vec<u8>, block: &[u8], counter: u32)
    requires
        old(sum)@.len() == BLOCK_LEN,
        old(p_in)@.len() == 2 * BLOCK_LEN + COUNTER_LEN,
        block@.len() == BLOCK_LEN,
    ensures
        final(p_in)@.len() == old(p_in)@.len(),
        final(p_in)@.subrange(0, block_len()) == old(p_in)@.subrange(0, block_len()),
        final(sum)@ == xor_bytes(
            old(sum)@,
            sha1_of(old(p_in)@.subrange(0, block_len()) + block@ + be32(counter as int)),
        ),
{
    write_at(p_in, BLOCK_LEN, block);
    write_counter(p_in, 2 * BLOCK_LEN, counter);
    assert(p_in@ =~= old(p_in)@.subrange(0, block_len()) + block@ + be32(counter as int));
    assert(p_in@.subrange(0, block_len()) =~= old(p_in)@.subrange(0, block_len()));
    let digest: Vec<u8> = sha1_digest(p_in.as_slice());
    xor_slice(sum.as_mut_slice(), digest.as_slice());
}

/// Within block `k`, byte `j` of a buffer is byte `j - 20 k` of that block.
proof fn lemma_block_index(k: int, j: int)
    requires
        k * block_len() <= j < k * block_len() + block_len(),
    ensures
        j / block_len() == k,
        j % block_len() == j - k * block_len(),
{
}

/// Encodes `message` under `public` with the given key.
///
/// Each block is masked with its keystream block under `key`; the checksum of
/// the masked blocks under `public`, exclusive-or `key`, follows as one more
/// block. Lengths that cannot be encoded are refused, the message's first.
pub fn encode_with_key(message: &[u8], public: &[u8], key: &[u8]) -> (res: Result<
    Vec<u8>,
    AontError,
>)
    ensures
        match res {
            Ok(out) => {
                &&& encode_rejection(
                    message@.len() as int,
                    public@.len() as int,
                    key@.len() as int,
                ) is None
                &&& out@ == encoded(message@, public@, key@)
                &&& out@.len() == message@.len() + BLOCK_LEN
            },
            Err(e) => encode_rejection(
                message@.len() as int,
                public@.len() as int,
                key@.len() as int,
            ) == Some(e),
        },
{
    if let Some(e) = check_encode_lengths(message.len(), public.len(), key.len()) {
        return Err(e);
    }
    let blocksize: usize = sha1_output_size();
    let blocks: usize = message.len() / blocksize;
    let mut buffer: Vec<u8> = vec![0u8; message.len() + blocksize];
    let mut r_in: Vec<u8> = hash_input(key, blocksize + COUNTER_LEN);
    let mut p_in: Vec<u8> = hash_input(public, blocksize * 2 + COUNTER_LEN);
    let mut sum: Vec<u8> = vec![0u8; blocksize];
    let ghost body = mask_blocks(key@, message@);
    assert(sum@ =~= xor_fold(contributions(public@, body).take(0))) by {
        assert(contributions(public@, body).take(0) =~= Seq::<Seq<u8>>::empty());
    }
    let mut k: usize = 0;
    let mut offset: usize = 0;
    while k < blocks
        invariant
            blocksize == BLOCK_LEN,
            message@.len() == blocks * block_len(),
            message@.len() + block_len() <= usize::MAX,
            blocks <= u32::MAX,
            key@.len() == block_len(),
            public@.len() == block_len(),
            body == mask_blocks(key@, message@),
            k <= blocks,
            offset == k * block_len(),
            buffer@.len() == message@.len() + block_len(),
            buffer@.subrange(0, offset as int) == body.subrange(0, offset as int),
            r_in@.len() == BLOCK_LEN + COUNTER_LEN,
            r_in@.subrange(0, block_len()) == key@,
            p_in@.len() == 2 * BLOCK_LEN + COUNTER_LEN,
            p_in@.subrange(0, block_len()) == public@,
            sum@ == xor_fold(contributions(public@, body).take(k as int)),
        decreases blocks - k,
    {
        let counter: u32 = (k + 1) as u32;
        let ghost before = buffer@;
        write_at(&mut buffer, offset, slice_subrange(message, offset, offset + blocksize));
        let mask: Vec<u8> = keystream(&mut r_in, counter);
        xor_at(&mut buffer, offset, mask.as_slice());
        proof {
            let next = offset + block_len();
            assert forall|j: int| 0 <= j < next implies buffer@[j] == body[j] by {
                if j < offset {
                    assert(before.subrange(0, offset as int)[j] == body.subrange(
                        0,
                        offset as int,
                    )[j]);
                } else {
                    lemma_block_index(k as int, j);
                }
            }
            assert(buffer@.subrange(0, next) =~= body.subrange(0, next));
            assert(buffer@.subrange(offset as int, next) =~= block_at(body, k as int));
        }
        proof {
            lemma_xor_fold_len(contributions(public@, body).take(k as int));
        }
        absorb(
            &mut sum,
            &mut p_in,
            slice_subrange(buffer.as_slice(), offset, offset + blocksize),
            counter,
        );
        proof {
            let all = contributions(public@, body);
            assert(all.take(k + 1) =~= all.take(k as int).push(contribution(public@, body, k as int)));
            lemma_xor_fold_push(all.take(k as int), contribution(public@, body, k as int));
        }
        k += 1;
        offset += blocksize;
    }
    proof {
        let all = contributions(public@, body);
        assert(all.take(blocks as int) =~= all);
        lemma_xor_fold_len(all);
    }
    xor_slice(sum.as_mut_slice(), key);
    write_at(&mut buffer, offset, sum.as_slice());
    assert(buffer@ =~= encoded(message@, public@, key@));
    Ok(buffer)
}

/// Encodes `message` under `public` with a fresh key from the operating system.
///
/// The lengths are judged before any randomness is drawn. An encoding made
/// here decodes, under the same `public`, to `message`.
pub fn encode_sha1(message: &[u8], public: &[u8]) -> (res: Result<Vec<u8>, AontError>)
    ensures
        match res {
            Ok(out) => {
                &&& encode_rejection(message@.len() as int, public@.len() as int, block_len())
                    is None
                &&& is_encoding_of(out@, message@, public@)
                &&& out@.len() == message@.len() + BLOCK_LEN
                &&& decode_rejection(out@.len() as int, public@.len() as int) is None
                &&& decoded(out@, public@) == message@
            },
            Err(e) => match encode_rejection(
                message@.len() as int,
                public@.len() as int,
                block_len(),
            ) {
                Some(rejection) => e == rejection,
                None => e == AontError::RandomSourceFailure,
            },
        },
{
    let blocksize: usize = sha1_output_size();
    if let Some(e) = check_encode_lengths(message.len(), public.len(), blocksize) {
        return Err(e);
    }
    let mut key: Vec<u8> = vec![0u8; blocksize];
    match os_random_fill(key.as_mut_slice()) {
        Ok(()) => {
            proof {
                lemma_round_trip(message@, public@, key@);
            }
            encode_with_key(message, public, key.as_slice())
        },
        Err(_) => Err(AontError::RandomSourceFailure),
    }
}

/// The checksum under `public` of `data`, a buffer of whole blocks.
fn fold_checksum(data: &[u8], public: &[u8]) -> (sum: Vec<u8>)
    requires
        whole_blocks(data@.len() as int),
        public@.len() == block_len(),
    ensures
        sum@ == checksum(public@, data@),
        sum@.len() == BLOCK_LEN,
{
    let blocksize: usize = sha1_output_size();
    let total: usize = data.len();
    let blocks: usize = total / blocksize;
    let mut p_in: Vec<u8> = hash_input(public, blocksize * 2 + COUNTER_LEN);
    let mut sum: Vec<u8> = vec![0u8; blocksize];
    assert(sum@ =~= xor_fold(contributions(public@, data@).take(0))) by {
        assert(contributions(public@, data@).take(0) =~= Seq::<Seq<u8>>::empty());
    }
    let mut k: usize = 0;
    let mut offset: usize = 0;
    while k < blocks
        invariant
            blocksize == BLOCK_LEN,
            data@.len() == total,
            total == blocks * block_len(),
            blocks <= u32::MAX,
            k <= blocks,
            offset == k * block_len(),
            p_in@.len() == 2 * BLOCK_LEN + COUNTER_LEN,
            p_in@.subrange(0, block_len()) == public@,
            sum@ == xor_fold(contributions(public@, data@).take(k as int)),
        decreases blocks - k,
    {
        proof {
            lemma_xor_fold_len(contributions(public@, data@).take(k as int));
        }
        absorb(
            &mut sum,
            &mut p_in,
            slice_subrange(data, offset, offset + blocksize),
            (k + 1) as u32,
        );
        proof {
            let all = contributions(public@, data@);
            let added = contribution(public@, data@, k as int);
            assert(all.take(k + 1) =~= all.take(k as int).push(added));
            lemma_xor_fold_push(all.take(k as int), added);
        }
        k += 1;
        offset += blocksize;
    }
    proof {
        let all = contributions(public@, data@);
        assert(all.take(blocks as int) =~= all);
        lemma_xor_fold_len(all);
    }
    sum
}

/// `data`, a buffer of whole blocks, masked with the keystream of the key at
/// the front of `r_in`.
fn apply_keystream(data: &[u8], r_in: &mut Vec<u8>) -> (out: Vec<u8>)
    requires
        whole_blocks(data@.len() as int),
        old(r_in)@.len() == BLOCK_LEN + COUNTER_LEN,
    ensures
        out@ == mask_blocks(old(r_in)@.subrange(0, block_len()), data@),
        final(r_in)@.len() == old(r_in)@.len(),
        final(r_in)@.subrange(0, block_len()) == old(r_in)@.subrange(0, block_len()),
{
    let blocksize: usize = sha1_output_size();
    let total: usize = data.len();
    let blocks: usize = total / blocksize;
    let mut buffer: Vec<u8> = slice_to_vec(data);
    let ghost key = r_in@.subrange(0, block_len());
    let ghost masked = mask_blocks(key, data@);
    let mut k: usize = 0;
    let mut offset: usize = 0;
    while k < blocks
        invariant
            blocksize == BLOCK_LEN,
            data@.len() == total,
            total == blocks * block_len(),
            blocks <= u32::MAX,
            masked == mask_blocks(key, data@),
            k <= blocks,
            offset == k * block_len(),
            buffer@.len() == total,
            forall|j: int| 0 <= j < offset ==> buffer@[j] == masked[j],
            forall|j: int| offset <= j < total ==> buffer@[j] == data@[j],
            r_in@.len() == BLOCK_LEN + COUNTER_LEN,
            r_in@.subrange(0, block_len()) == key,
        decreases blocks - k,
    {
        let mask: Vec<u8> = keystream(r_in, (k + 1) as u32);
        xor_at(&mut buffer, offset, mask.as_slice());
        proof {
            assert forall|j: int| offset <= j < offset + block_len() implies buffer@[j]
                == masked[j] by {
                lemma_block_index(k as int, j);
            }
        }
        k += 1;
        offset += blocksize;
    }
    assert(buffer@ =~= masked);
    buffer
}

/// Decodes `message`, a transformed buffer, under `public`.
///
/// The checksum of all blocks but the last, exclusive-or the last block, is
/// the key; unmasking those blocks with it gives the result. Nothing tells a
/// genuine buffer from a damaged one: any buffer of acceptable length decodes.
/// Lengths that cannot be decoded are refused, the buffer's first.
pub fn decode_sha1(message: &[u8], public: &[u8]) -> (res: Result<Vec<u8>, AontError>)
    ensures
        match res {
            Ok(out) => {
                &&& decode_rejection(message@.len() as int, public@.len() as int) is None
                &&& out@ == decoded(message@, public@)
                &&& out@.len() == message@.len() - BLOCK_LEN
            },
            Err(e) => decode_rejection(message@.len() as int, public@.len() as int) == Some(e),
        },
{
    if let Some(e) = check_decode_lengths(message.len(), public.len()) {
        return Err(e);
    }
    let blocksize: usize = sha1_output_size();
    let body_len: usize = message.len() - blocksize;
    let body: &[u8] = slice_subrange(message, 0, body_len);
    let trailer: &[u8] = slice_subrange(message, body_len, message.len());

    // First pass: the checksum of the masked blocks recovers the key.
    let sum: Vec<u8> = fold_checksum(body, public);
    let mut r_in: Vec<u8> = hash_input(trailer, blocksize + COUNTER_LEN);
    xor_at(&mut r_in, 0, sum.as_slice());
    proof {
        let key = recovered_key(message@, public@);
        assert forall|j: int| 0 <= j < block_len() implies r_in@[j] == key[j] by {
            let s = sum@[j];
            let t = trailer@[j];
            assert(r_in@[j] == t ^ s);
            assert(t ^ s == s ^ t) by (bit_vector);
        }
        assert(r_in@.subrange(0, block_len()) =~= key);
    }

    // Second pass: the keystream of the recovered key unmasks the blocks.
    let out: Vec<u8> = apply_keystream(body, &mut r_in);
    Ok(out)
}

} // verus!
