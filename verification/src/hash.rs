//! The domain hash function, taken from an outside crate.

use vstd::prelude::*;
use tiny_keccak::Hasher;

verus! {

/// The 32-byte Keccak-256 digest of a byte sequence. What the digest is on
/// given bytes is not stated here; it depends on the bytes alone.
pub uninterp spec fn keccak_of(data: Seq<u8>) -> Seq<u8>;

/// Relies on tiny_keccak's `Keccak::v256`: a 32-byte digest computed from the
/// input bytes alone.
#[verifier::external_body]
pub fn keccak256(data: &[u8]) -> (r: Vec<u8>)
    ensures
        r@ == keccak_of(data@),
        r@.len() == 32,
{
    let mut k = tiny_keccak::Keccak::v256();
    k.update(data);
    let mut out = [0u8; 32];
    k.finalize(&mut out);
    out.to_vec()
}

} // verus!
