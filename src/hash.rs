use vstd::prelude::*;
use sha2::Digest;

verus! {

/// A SHA-256 digest.
pub type HashOutput = [u8; 32];

/// The SHA-256 digest of a byte string.
pub uninterp spec fn sha256_of(data: Seq<u8>) -> Seq<u8>;

/// Relies on sha2::Sha256::digest: the digest of the bytes, 32 bytes long.
#[verifier::external_body]
pub(crate) fn sha256(data: &[u8]) -> (r: HashOutput)
    ensures
        r@ == sha256_of(data@),
{
    sha2::Sha256::digest(data).into()
}

/// The hash of the concatenation of two digests.
pub open spec fn hash_pair(a: Seq<u8>, b: Seq<u8>) -> Seq<u8> {
    sha256_of(a + b)
}

/// Hashes `a ‖ b`.
pub fn hash_concat(a: &[u8], b: &[u8]) -> (r: HashOutput)
    requires
        a@.len() + b@.len() <= usize::MAX,
    ensures
        r@ == sha256_of(a@ + b@),
{
    let mut buf: Vec<u8> = Vec::with_capacity(a.len() + b.len());
    let mut i: usize = 0;
    while i < a.len()
        invariant
            i <= a@.len(),
            buf@ == a@.subrange(0, i as int),
        decreases a@.len() - i,
    {
        buf.push(a[i]);
        i += 1;
    }
    let mut j: usize = 0;
    while j < b.len()
        invariant
            j <= b@.len(),
            buf@ == a@ + b@.subrange(0, j as int),
        decreases b@.len() - j,
    {
        buf.push(b[j]);
        j += 1;
    }
    proof {
        assert(a@.subrange(0, a@.len() as int) == a@);
        assert(b@.subrange(0, b@.len() as int) == b@);
    }
    sha256(buf.as_slice())
}

} // verus!
