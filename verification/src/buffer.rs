//! Updates of part of a byte buffer, in place.

use crate::model::be32;
use crate::xor::{xor_bytes, xor_slice};
use vstd::prelude::*;

verus! {

/// `buf` with the bytes from `offset` on replaced by `patch`.
pub open spec fn patched(buf: Seq<u8>, offset: int, patch: Seq<u8>) -> Seq<u8> {
    buf.subrange(0, offset) + patch + buf.subrange(offset + patch.len(), buf.len() as int)
}

/// Copies `src` over the bytes of `buf` that start at `offset`.
pub fn write_at(buf: &mut Vec<u8>, offset: usize, src: &[u8])
    requires
        offset + src@.len() <= old(buf)@.len(),
    ensures
        final(buf)@ == patched(old(buf)@, offset as int, src@),
{
    let total: usize = buf.len();
    let n: usize = src.len();
    let mut i: usize = 0;
    while i < n
        invariant
            n == src@.len(),
            offset + n <= total,
            buf@.len() == total,
            total == old(buf)@.len(),
            i <= n,
            forall|j: int|
                0 <= j < buf@.len() ==> buf@[j] == if offset <= j < offset + i {
                    src@[j - offset]
                } else {
                    old(buf)@[j]
                },
        decreases n - i,
    {
        buf[offset + i] = src[i];
        i += 1;
    }
    assert(buf@ =~= patched(old(buf)@, offset as int, src@));
}

/// Replaces the bytes of `buf` that start at `offset`, as many as `src` has,
/// by their exclusive or with `src`.
pub fn xor_at(buf: &mut Vec<u8>, offset: usize, src: &[u8])
    requires
        offset + src@.len() <= old(buf)@.len(),
    ensures
        final(buf)@ == patched(
            old(buf)@,
            offset as int,
            xor_bytes(old(buf)@.subrange(offset as int, offset + src@.len()), src@),
        ),
{
    let (_, tail) = buf.as_mut_slice().split_at_mut(offset);
    let (block, _) = tail.split_at_mut(src.len());
    xor_slice(block, src);
}

/// Writes `counter` over the four bytes of `buf` that start at `offset`, most
/// significant byte first.
pub fn write_counter(buf: &mut Vec<u8>, offset: usize, counter: u32)
    requires
        offset + 4 <= old(buf)@.len(),
    ensures
        final(buf)@ == patched(old(buf)@, offset as int, be32(counter as int)),
{
    let total: usize = buf.len();
    assert(offset + 4 <= total);
    buf[offset] = (counter / 0x100_0000) as u8;
    buf[offset + 1] = ((counter / 0x1_0000) % 0x100) as u8;
    buf[offset + 2] = ((counter / 0x100) % 0x100) as u8;
    buf[offset + 3] = (counter % 0x100) as u8;
    assert(buf@ =~= patched(old(buf)@, offset as int, be32(counter as int)));
}

} // verus!
