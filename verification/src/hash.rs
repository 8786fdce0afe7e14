use sha2::{Digest, Sha256};
use vstd::prelude::*;

verus! {

/// A 32-byte digest.
pub type Hashed = [u8; 32];

/// The SHA-256 digest of a byte string.
pub uninterp spec fn sha256_digest(data: Seq<u8>) -> Seq<u8>;

/// Calls `sha2::Sha256::digest` on `data`. Claimed: the result is the
/// SHA-256 digest of the bytes, a function of them alone.
#[verifier::external_body]
pub(crate) fn hash(data: &[u8]) -> (r: Hashed)
    ensures
        r@ == sha256_digest(data@),
{
    Sha256::digest(data).into()
}

/// Compares two digests byte by byte.
pub fn hashes_equal(a: &Hashed, b: &Hashed) -> (r: bool)
    ensures
        r == (*a == *b),
{
    let mut i: usize = 0;
    while i < 32
        invariant
            0 <= i <= 32,
            forall|j: int| 0 <= j < i ==> a@[j] == b@[j],
        decreases 32 - i,
    {
        if a[i] != b[i] {
            proof {
                assert(a@[i as int] != b@[i as int]);
            }
            return false;
        }
        i = i + 1;
    }
    proof {
        assert(a@ =~= b@);
        vstd::array::axiom_array_ext_equal(*a, *b);
    }
    true
}

} // verus!
