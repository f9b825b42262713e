//! What holds of the transform as a whole, proved from the model.

use crate::codec::{decode_rejection, encode_rejection};
use crate::model::{
    block_len, body_of, checksum, contributions, decoded, encoded, keystream_block,
    lemma_xor_fold_len, mask_blocks, recovered_key, trailer_of, xor_fold, xor_step,
};
use crate::xor::{xor_bytes, zeros};
use vstd::prelude::*;
use vstd::seq_lib::{commutative_foldl, lemma_fold_left_permutation};

verus! {

/// Masking twice with one key gives the data back: masking is its own inverse.
pub proof fn lemma_mask_twice(key: Seq<u8>, data: Seq<u8>)
    ensures
        mask_blocks(key, mask_blocks(key, data)) == data,
{
    let once = mask_blocks(key, data);
    assert forall|j: int| 0 <= j < data.len() implies mask_blocks(key, once)[j] == data[j] by {
        let x = data[j];
        let y = keystream_block(key, j / block_len() + 1)[j % block_len()];
        assert((x ^ y) ^ y == x) by (bit_vector);
    }
    assert(mask_blocks(key, once) =~= data);
}

/// An encoding is one block longer than its message.
pub proof fn lemma_encoded_len(message: Seq<u8>, public: Seq<u8>, key: Seq<u8>)
    ensures
        encoded(message, public, key).len() == message.len() + block_len(),
{
    lemma_xor_fold_len(contributions(public, mask_blocks(key, message)));
}

/// A decoding is one block shorter than the buffer it was made from.
pub proof fn lemma_decoded_len(transformed: Seq<u8>, public: Seq<u8>)
    requires
        transformed.len() >= block_len(),
    ensures
        decoded(transformed, public).len() == transformed.len() - block_len(),
{
}

/// The trailing block of an encoding hands the key back to whoever can
/// compute the checksum of the blocks before it.
pub proof fn lemma_key_recovered(message: Seq<u8>, public: Seq<u8>, key: Seq<u8>)
    requires
        key.len() == block_len(),
    ensures
        body_of(encoded(message, public, key)) == mask_blocks(key, message),
        recovered_key(encoded(message, public, key), public) == key,
{
    let body = mask_blocks(key, message);
    let sum = checksum(public, body);
    let out = encoded(message, public, key);
    lemma_xor_fold_len(contributions(public, body));
    assert(body_of(out) =~= body);
    assert(trailer_of(out) =~= xor_bytes(sum, key));
    assert forall|i: int| 0 <= i < block_len() implies recovered_key(out, public)[i] == key[i] by {
        let s = sum[i];
        let r = key[i];
        assert(s ^ (s ^ r) == r) by (bit_vector);
    }
    assert(recovered_key(out, public) =~= key);
}

/// Round trip: decoding an encoding under the same public parameter gives
/// the message back, whatever key the encoding was made with; and where the
/// encoder accepts the lengths, the decoder accepts the encoding's.
pub proof fn lemma_round_trip(message: Seq<u8>, public: Seq<u8>, key: Seq<u8>)
    requires
        key.len() == block_len(),
    ensures
        decoded(encoded(message, public, key), public) == message,
        encode_rejection(message.len() as int, public.len() as int, key.len() as int) is None
            ==> decode_rejection(
            encoded(message, public, key).len() as int,
            public.len() as int,
        ) is None,
{
    lemma_key_recovered(message, public, key);
    lemma_mask_twice(key, message);
    lemma_encoded_len(message, public, key);
}

/// An encoding never equals its message, and its first bytes equal the
/// message exactly when every keystream byte that masked them is zero.
pub proof fn lemma_encoding_differs(message: Seq<u8>, public: Seq<u8>, key: Seq<u8>)
    ensures
        encoded(message, public, key) != message,
        encoded(message, public, key).subrange(0, message.len() as int) == message <==> forall|
            j: int,
        |
            0 <= j < message.len() ==> #[trigger] keystream_block(key, j / block_len() + 1)[j
                % block_len()] == 0,
{
    lemma_encoded_len(message, public, key);
    let out = encoded(message, public, key);
    let prefix = out.subrange(0, message.len() as int);
    assert(prefix =~= mask_blocks(key, message));
    if prefix == message {
        assert forall|j: int| 0 <= j < message.len() implies #[trigger] keystream_block(
            key,
            j / block_len() + 1,
        )[j % block_len()] == 0 by {
            let x = message[j];
            let y = keystream_block(key, j / block_len() + 1)[j % block_len()];
            assert(prefix[j] == x ^ y);
            assert(x ^ y == x ==> y == 0) by (bit_vector);
        }
    }
    if forall|j: int|
        0 <= j < message.len() ==> #[trigger] keystream_block(key, j / block_len() + 1)[j
            % block_len()] == 0 {
        assert forall|j: int| 0 <= j < message.len() implies prefix[j] == message[j] by {
            let x = message[j];
            let y = keystream_block(key, j / block_len() + 1)[j % block_len()];
            assert(y == 0);
            assert(x ^ 0 == x) by (bit_vector);
        }
        assert(prefix =~= message);
    }
}

/// Two blocks may be folded into an accumulator in either order.
pub proof fn lemma_xor_step_commutes()
    ensures
        commutative_foldl(xor_step()),
{
    assert forall|x: Seq<u8>, y: Seq<u8>, v: Seq<u8>| #[trigger]
        xor_step()(xor_step()(v, x), y) == xor_step()(xor_step()(v, y), x) by {
        let left = xor_bytes(xor_bytes(v, x), y);
        let right = xor_bytes(xor_bytes(v, y), x);
        assert forall|i: int| 0 <= i < v.len() implies left[i] == right[i] by {
            let a = v[i];
            let b = x[i];
            let c = y[i];
            assert((a ^ b) ^ c == (a ^ c) ^ b) by (bit_vector);
        }
        assert(left =~= right);
    }
}

/// The checksum does not depend on the order in which the blocks'
/// contributions are folded: two sequences that hold the same blocks, each
/// as often as the other, fold to the same block.
pub proof fn lemma_fold_order_independent(first: Seq<Seq<u8>>, second: Seq<Seq<u8>>)
    requires
        first.to_multiset() == second.to_multiset(),
    ensures
        xor_fold(first) == xor_fold(second),
{
    lemma_xor_step_commutes();
    lemma_fold_left_permutation(first, second, xor_step(), zeros(block_len() as nat));
}

/// The checksum of a buffer is the fold of its blocks' contributions taken in any order.
pub proof fn lemma_checksum_any_order(public: Seq<u8>, data: Seq<u8>, order: Seq<Seq<u8>>)
    requires
        order.to_multiset() == contributions(public, data).to_multiset(),
    ensures
        xor_fold(order) == checksum(public, data),
{
    lemma_fold_order_independent(order, contributions(public, data));
}

} // verus!
