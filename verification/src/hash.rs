//! BLAKE3 digests.

use vstd::prelude::*;

use crate::bytes::{array_of, lemma_array_of};

verus! {

/// The 32-byte BLAKE3 digest of `data`.
pub uninterp spec fn blake3_digest(data: Seq<u8>) -> Seq<u8>;

/// The BLAKE3 digest of `data` as an array.
pub open spec fn digest_of(data: Seq<u8>) -> [u8; 32] {
    array_of::<32>(blake3_digest(data))
}

/// Calls `blake3::hash`, the default (unkeyed, 32-byte) BLAKE3 hash, and copies
/// the raw bytes of the result. The contract names that result as a function of
/// the input bytes; nothing else is claimed of it.
#[verifier::external_body]
pub(crate) fn blake3_hash(data: &[u8]) -> (digest: [u8; 32])
    ensures
        digest@ == blake3_digest(data@),
{
    *blake3::hash(data).as_bytes()
}

/// The BLAKE3 digest of `data`.
pub fn digest(data: &[u8]) -> (d: [u8; 32])
    ensures
        d == digest_of(data@),
        d@ == blake3_digest(data@),
{
    let d = blake3_hash(data);
    proof {
        lemma_array_of(d);
    }
    d
}

} // verus!
