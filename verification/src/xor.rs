//! Byte-wise exclusive or of two buffers, and the algebra the transform needs of it.

use vstd::prelude::*;

verus! {

/// Element-wise exclusive or of `a` with `b`, as long as `a`.
pub open spec fn xor_bytes(a: Seq<u8>, b: Seq<u8>) -> Seq<u8> {
    Seq::new(a.len(), |i: int| a[i] ^ b[i])
}

/// A buffer of `len` zero bytes.
pub open spec fn zeros(len: nat) -> Seq<u8> {
    Seq::new(len, |i: int| 0u8)
}

/// Overwrites `dst` with `dst ^ src`, byte by byte, and hands `dst` back.
pub fn xor_slice<'a>(dst: &'a mut [u8], src: &[u8]) -> (out: &'a mut [u8])
    requires
        old(dst)@.len() == src@.len(),
    ensures
        out@ == xor_bytes(old(dst)@, src@),
        final(dst)@ == final(out)@,
{
    let n: usize = dst.len();
    let mut i: usize = 0;
    while i < n
        invariant
            n == src@.len(),
            dst@.len() == n,
            i <= n,
            forall|j: int| 0 <= j < i ==> dst@[j] == old(dst)@[j] ^ src@[j],
            forall|j: int| i <= j < n ==> dst@[j] == old(dst)@[j],
        decreases n - i,
    {
        dst[i] = dst[i] ^ src[i];
        i += 1;
    }
    assert(dst@ =~= xor_bytes(old(dst)@, src@));
    dst
}

} // verus!
