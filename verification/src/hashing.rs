use vstd::prelude::*;
use sha2::{Digest, Sha256};

verus! {

/// The SHA-256 digest of a byte string.
pub uninterp spec fn spec_sha256(data: Seq<u8>) -> Seq<u8>;

/// Calls `sha2::Sha256::digest`. The contract says only that the 32 bytes it
/// returns are the SHA-256 digest of `data`, named `spec_sha256`; nothing is
/// stated of SHA-256 itself (such as its resistance to collisions).
#[verifier::external_body]
pub fn sha256(data: &[u8]) -> (r: [u8; 32])
    ensures
        r@ == spec_sha256(data@),
{
    Sha256::digest(data).into()
}

/// Whether two 32-byte hashes hold the same bytes.
pub fn hash_eq(a: &[u8; 32], b: &[u8; 32]) -> (r: bool)
    ensures
        r == (a@ == b@),
{
    let mut i: usize = 0;
    while i < 32
        invariant
            0 <= i <= 32,
            forall|j: int| 0 <= j < i ==> a@[j] == b@[j],
        decreases 32 - i,
    {
        if a[i] != b[i] {
            return false;
        }
        i = i + 1;
    }
    assert(a@ =~= b@);
    true
}

/// The 64 bytes of `a` followed by `b`.
pub fn concat_hashes(a: &[u8; 32], b: &[u8; 32]) -> (r: Vec<u8>)
    ensures
        r@ == a@ + b@,
{
    let mut out: Vec<u8> = Vec::with_capacity(64);
    let mut i: usize = 0;
    while i < 32
        invariant
            0 <= i <= 32,
            out@ == a@.take(i as int),
        decreases 32 - i,
    {
        out.push(a[i]);
        i = i + 1;
        assert(out@ =~= a@.take(i as int));
    }
    let mut k: usize = 0;
    while k < 32
        invariant
            0 <= k <= 32,
            out@ == a@ + b@.take(k as int),
        decreases 32 - k,
    {
        out.push(b[k]);
        k = k + 1;
        assert(out@ =~= a@ + b@.take(k as int));
    }
    assert(b@.take(32) =~= b@);
    out
}

/// SHA-256 of two hashes written one after the other: the hash of an inner
/// Merkle node.
pub fn hash_pair(a: &[u8; 32], b: &[u8; 32]) -> (r: [u8; 32])
    ensures
        r@ == spec_sha256(a@ + b@),
{
    let buf = concat_hashes(a, b);
    sha256(buf.as_slice())
}

} // verus!
