//! Grid commitment: a collision-resistant 256-bit hash over the row-major
//! flattened canonical grid bytes.
//!
//! The digest itself is computed by an outside SHA-256 implementation and is
//! only named here ([`sha256_of`]): everything the verified code needs is
//! that it is a pure function of the input bytes and is 32 bytes long.
//! Equality of commitments is byte-exact.

use vstd::prelude::*;

use risc0_zkvm::sha::Sha256;

verus! {

/// The SHA-256 digest of a byte string, as a sequence of 32 bytes.  The
/// digest depends on the input bytes alone.
pub uninterp spec fn sha256_of(bytes: Seq<u8>) -> Seq<u8>;

/// Relies on `risc0_zkvm::sha::Impl::hash_bytes`, the host/guest-portable
/// SHA-256 of the proving stack (`sha2::Sha256::digest` on the host): the
/// digest is a pure function of the input bytes, 32 bytes long.
#[verifier::external_body]
fn sha256_digest(bytes: &Vec<u8>) -> (h: Vec<u8>)
    ensures
        h@ == sha256_of(bytes@),
        h@.len() == 32,
{
    risc0_zkvm::sha::Impl::hash_bytes(bytes.as_slice()).as_bytes().to_vec()
}

/// The commitment to a canonical grid: the SHA-256 hash of its bytes.
pub fn grid_commitment(grid_bytes: &Vec<u8>) -> (h: Vec<u8>)
    ensures
        h@ == sha256_of(grid_bytes@),
        h@.len() == 32,
{
    sha256_digest(grid_bytes)
}

/// Byte-exact comparison of two byte strings.
pub fn bytes_equal(a: &Vec<u8>, b: &Vec<u8>) -> (r: bool)
    ensures
        r == (a@ == b@),
{
    if a.len() != b.len() {
        return false;
    }
    let mut i: usize = 0;
    while i < a.len()
        invariant
            a@.len() == b@.len(),
            i <= a@.len(),
            forall|j: int| 0 <= j < i ==> a@[j] == b@[j],
        decreases a@.len() - i,
    {
        if a[i] != b[i] {
            return false;
        }
        i = i + 1;
    }
    proof {
        assert(a@ =~= b@);
    }
    true
}

/// Commitment stability: hashing the same grid bytes twice yields the same
/// 32-byte output.
pub proof fn lemma_commitment_stable(b1: Seq<u8>, b2: Seq<u8>)
    requires
        b1 == b2,
    ensures
        sha256_of(b1) == sha256_of(b2),
{
}

} // verus!
