use aont::{decode_sha1, encode_sha1, encode_with_key, xor_slice, AontError};
use sha1::{Digest, Sha1};

const MESSAGE: &str = "0123456789abcdef0123";
const PUBLIC: &str = "abcdeabcdeabcdeabcde";

fn counted_key() -> Vec<u8> {
    (1u8..=20).collect()
}

/// The digest of the parts laid end to end.
fn digest_of(parts: &[&[u8]]) -> Vec<u8> {
    let mut input = Vec::new();
    for part in parts {
        input.extend_from_slice(part);
    }
    Sha1::digest(&input).to_vec()
}

/// The contribution of each block of `body` to the checksum, in block order.
fn contributions(body: &[u8], public: &[u8]) -> Vec<Vec<u8>> {
    body.chunks(20)
        .enumerate()
        .map(|(k, block)| digest_of(&[public, block, &(k as u32 + 1).to_be_bytes()]))
        .collect()
}

/// The transform written out block by block, straight from its definition.
fn encode_by_hand(message: &[u8], public: &[u8], key: &[u8]) -> Vec<u8> {
    let mut out = Vec::new();
    for (k, block) in message.chunks(20).enumerate() {
        let mask = digest_of(&[key, &(k as u32 + 1).to_be_bytes()]);
        out.extend(block.iter().zip(mask.iter()).map(|(b, m)| b ^ m));
    }
    let mut sum = vec![0u8; 20];
    for part in contributions(&out, public) {
        xor_slice(&mut sum, &part);
    }
    xor_slice(&mut sum, key);
    out.extend_from_slice(&sum);
    out
}

#[test]
#[should_panic]
fn pass_in_str_19_as_bytes() {
    // refused because 19 % 20 != 0
    let nineteen = "0123456789abcdef012";
    let slice = nineteen.as_bytes();
    let _boxed = encode_sha1(slice, slice).unwrap();
}

#[test]
fn pass_in_str_20_as_bytes() {
    let twenty = "0123456789abcdef0123";
    let slice = twenty.as_bytes();
    let boxed = encode_sha1(slice, slice).unwrap();
    assert_ne!(*slice, *boxed);
}

#[test]
fn same_20_bytes_back() {
    let twenty = "0123456789abcdef0123";
    let slice = twenty.as_bytes();
    // also use twenty as public key
    let boxed = encode_sha1(slice, slice).unwrap();
    assert_ne!(*slice, *boxed);
    let back = decode_sha1(&*boxed, slice).unwrap();
    assert_eq!(slice, &*back);
}

#[test]
fn same_40_bytes_back() {
    let forty = "0123456789abcdef01230123456789abcdef0123";
    let slice = forty.as_bytes();
    // slice is now too long to be used as a key
    let boxed = encode_sha1(slice, &slice[0..20]).unwrap();
    assert_ne!(*slice, *boxed);
    let back = decode_sha1(&*boxed, &slice[0..20]).unwrap();
    assert_eq!(slice, &*back);
}

#[test]
#[should_panic]
fn public_encode_parameter() {
    let forty = "0123456789abcdef01230123456789abcdef0123";
    let slice = forty.as_bytes();
    // slice is now too long to be used as a key
    let _oxed = encode_sha1(slice, slice).unwrap();
}

#[test]
#[should_panic]
fn public_decode_parameter() {
    let forty = "0123456789abcdef01230123456789abcdef0123";
    let slice = forty.as_bytes();
    // slice is now too long to be used as a key
    let _boxed = decode_sha1(slice, slice).unwrap();
}

#[test]
fn misaligned_message_is_refused_by_name() {
    let nineteen = &MESSAGE.as_bytes()[..19];
    assert_eq!(
        encode_sha1(nineteen, PUBLIC.as_bytes()),
        Err(AontError::InvalidMessageLength)
    );
    assert_eq!(
        encode_with_key(nineteen, PUBLIC.as_bytes(), &counted_key()),
        Err(AontError::InvalidMessageLength)
    );
    assert_eq!(
        decode_sha1(nineteen, PUBLIC.as_bytes()),
        Err(AontError::InvalidMessageLength)
    );
    assert_eq!(
        decode_sha1(&[0u8; 41], PUBLIC.as_bytes()),
        Err(AontError::InvalidMessageLength)
    );
}

#[test]
fn message_is_judged_before_public() {
    let nineteen = &MESSAGE.as_bytes()[..19];
    assert_eq!(
        encode_sha1(nineteen, nineteen),
        Err(AontError::InvalidMessageLength)
    );
    assert_eq!(
        decode_sha1(nineteen, nineteen),
        Err(AontError::InvalidMessageLength)
    );
}

#[test]
fn wrong_public_length_is_refused_by_name() {
    let forty = "0123456789abcdef01230123456789abcdef0123".as_bytes();
    assert_eq!(
        encode_sha1(forty, forty),
        Err(AontError::InvalidParameterLength)
    );
    assert_eq!(
        decode_sha1(forty, forty),
        Err(AontError::InvalidParameterLength)
    );
    assert_eq!(
        encode_sha1(forty, &forty[..19]),
        Err(AontError::InvalidParameterLength)
    );
    assert_eq!(
        decode_sha1(forty, &[]),
        Err(AontError::InvalidParameterLength)
    );
}

#[test]
fn wrong_key_length_is_refused() {
    let message = MESSAGE.as_bytes();
    let public = PUBLIC.as_bytes();
    assert_eq!(
        encode_with_key(message, public, &[7u8; 19]),
        Err(AontError::InvalidParameterLength)
    );
    assert_eq!(
        encode_with_key(message, public, &[7u8; 21]),
        Err(AontError::InvalidParameterLength)
    );
}

#[test]
fn decode_needs_the_trailing_block() {
    assert_eq!(
        decode_sha1(&[], PUBLIC.as_bytes()),
        Err(AontError::InvalidMessageLength)
    );
}

#[test]
fn trailer_alone_decodes_to_nothing() {
    let back = decode_sha1(&[9u8; 20], PUBLIC.as_bytes()).unwrap();
    assert!(back.is_empty());
}

#[test]
fn empty_message_encodes_to_the_key() {
    let key = counted_key();
    let out = encode_with_key(&[], PUBLIC.as_bytes(), &key).unwrap();
    assert_eq!(out, key);
    assert_eq!(encode_sha1(&[], PUBLIC.as_bytes()).unwrap().len(), 20);
}

#[test]
fn one_block_with_a_given_key() {
    let out = encode_with_key(MESSAGE.as_bytes(), PUBLIC.as_bytes(), &counted_key()).unwrap();
    let expected: [u8; 40] = [
        17, 188, 52, 198, 67, 32, 114, 177, 194, 180, 81, 97, 146, 28, 57, 110, 198, 90, 240, 4,
        221, 129, 185, 131, 9, 189, 67, 13, 65, 35, 111, 205, 29, 169, 103, 47, 57, 157, 11, 191,
    ];
    assert_eq!(out, expected);
    assert_eq!(
        decode_sha1(&expected, PUBLIC.as_bytes()).unwrap(),
        MESSAGE.as_bytes()
    );
}

#[test]
fn two_blocks_with_a_given_key() {
    let forty = "0123456789abcdef01230123456789abcdef0123".as_bytes();
    let out = encode_with_key(forty, &forty[..20], &[0xa5u8; 20]).unwrap();
    let expected: [u8; 60] = [
        191, 50, 33, 84, 39, 5, 22, 119, 230, 114, 59, 254, 244, 34, 253, 117, 243, 59, 206, 154,
        159, 172, 97, 239, 47, 241, 62, 4, 58, 235, 18, 53, 156, 163, 95, 132, 124, 248, 177, 61,
        48, 96, 124, 158, 21, 191, 163, 31, 28, 74, 252, 139, 99, 233, 159, 61, 99, 241, 81, 182,
    ];
    assert_eq!(out, expected);
    assert_eq!(decode_sha1(&expected, &forty[..20]).unwrap(), forty);
}

#[test]
fn any_aligned_buffer_decodes() {
    let buffer: Vec<u8> = (0u8..60).collect();
    let out = decode_sha1(&buffer, PUBLIC.as_bytes()).unwrap();
    let expected: [u8; 40] = [
        152, 147, 44, 16, 173, 201, 63, 110, 50, 208, 4, 85, 191, 35, 234, 59, 129, 113, 132, 184,
        213, 216, 172, 6, 56, 133, 237, 107, 236, 181, 217, 206, 248, 116, 171, 62, 249, 35, 54,
        45,
    ];
    assert_eq!(out, expected);
}

#[test]
fn end_to_end_example() {
    let message = MESSAGE.as_bytes();
    let public = PUBLIC.as_bytes();
    let encoded = encode_sha1(message, public).unwrap();
    assert_eq!(encoded.len(), 40);
    assert_ne!(&encoded[..20], message);
    let recovered = decode_sha1(&encoded, public).unwrap();
    assert_eq!(recovered, message);
}

#[test]
fn lengths_grow_and_shrink_by_one_block() {
    let public = PUBLIC.as_bytes();
    for blocks in 0usize..6 {
        let message = vec![0x3cu8; blocks * 20];
        let encoded = encode_sha1(&message, public).unwrap();
        assert_eq!(encoded.len(), message.len() + 20);
        let decoded = decode_sha1(&encoded, public).unwrap();
        assert_eq!(decoded.len(), encoded.len() - 20);
    }
}

#[test]
fn round_trip_with_given_keys() {
    let public = PUBLIC.as_bytes();
    for blocks in 0usize..8 {
        let message: Vec<u8> = (0..blocks * 20).map(|j| (j * 7 + blocks) as u8).collect();
        let key: Vec<u8> = (0..20).map(|j| (j * 13 + blocks * 5) as u8).collect();
        let encoded = encode_with_key(&message, public, &key).unwrap();
        assert_eq!(decode_sha1(&encoded, public).unwrap(), message);
    }
}

#[test]
fn agrees_with_the_definition_block_by_block() {
    let public = PUBLIC.as_bytes();
    let key = counted_key();
    for blocks in [0usize, 1, 2, 3, 17] {
        let message: Vec<u8> = (0..blocks * 20).map(|j| (j % 251) as u8).collect();
        assert_eq!(
            encode_with_key(&message, public, &key).unwrap(),
            encode_by_hand(&message, public, &key)
        );
    }
}

#[test]
fn counter_runs_past_one_byte() {
    let public = PUBLIC.as_bytes();
    let key = counted_key();
    let message: Vec<u8> = (0..300 * 20).map(|j| (j % 253) as u8).collect();
    let encoded = encode_with_key(&message, public, &key).unwrap();
    assert_eq!(encoded, encode_by_hand(&message, public, &key));
    // block 256 is masked under the counter 0x00000100, block 1 under 0x00000001
    let mask = digest_of(&[&key, &[0, 0, 1, 0]]);
    for j in 0..20 {
        assert_eq!(encoded[255 * 20 + j], message[255 * 20 + j] ^ mask[j]);
    }
    assert_eq!(decode_sha1(&encoded, public).unwrap(), message);
}

#[test]
fn trailer_is_checksum_xor_key() {
    let public = PUBLIC.as_bytes();
    let key = counted_key();
    let message: Vec<u8> = (0..5 * 20).map(|j| (j * 3) as u8).collect();
    let encoded = encode_with_key(&message, public, &key).unwrap();
    let mut recovered = encoded[100..].to_vec();
    for part in contributions(&encoded[..100], public) {
        xor_slice(&mut recovered, &part);
    }
    assert_eq!(recovered, key);
}

#[test]
fn checksum_ignores_folding_order() {
    let public = PUBLIC.as_bytes();
    let key = counted_key();
    let message: Vec<u8> = (0..5 * 20).map(|j| (j * 11 + 1) as u8).collect();
    let encoded = encode_with_key(&message, public, &key).unwrap();
    let parts = contributions(&encoded[..100], public);
    let mut expected = encoded[100..].to_vec();
    xor_slice(&mut expected, &key);
    for order in [[0usize, 1, 2, 3, 4], [4, 3, 2, 1, 0], [2, 0, 4, 1, 3], [1, 4, 0, 3, 2]] {
        let mut sum = vec![0u8; 20];
        for k in order {
            xor_slice(&mut sum, &parts[k]);
        }
        assert_eq!(sum, expected);
    }
}

#[test]
fn wrong_public_gives_other_bytes() {
    let message = MESSAGE.as_bytes();
    let encoded = encode_with_key(message, PUBLIC.as_bytes(), &counted_key()).unwrap();
    let other = decode_sha1(&encoded, MESSAGE.as_bytes()).unwrap();
    assert_eq!(other.len(), 20);
    assert_ne!(other, message);
}

#[test]
fn damaged_block_still_decodes_to_something() {
    let forty = "0123456789abcdef01230123456789abcdef0123".as_bytes();
    let mut encoded = encode_with_key(forty, PUBLIC.as_bytes(), &counted_key()).unwrap();
    encoded[3] ^= 1;
    let other = decode_sha1(&encoded, PUBLIC.as_bytes()).unwrap();
    assert_eq!(other.len(), 40);
    assert_ne!(other, forty);
}

#[test]
fn fresh_keys_differ_between_calls() {
    let message = MESSAGE.as_bytes();
    let public = PUBLIC.as_bytes();
    let first = encode_sha1(message, public).unwrap();
    let second = encode_sha1(message, public).unwrap();
    assert_ne!(first, second);
    let with_zero_key = encode_with_key(message, public, &[0u8; 20]).unwrap();
    assert_ne!(first, with_zero_key);
    assert_ne!(second, with_zero_key);
}
