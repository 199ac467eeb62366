//! The hash functions by which verifying keys are identified.

use sha2::Digest as _;
use vstd::prelude::*;

verus! {

/// The BLAKE2b hash of `data` with the given length and personalization.
pub uninterp spec fn blake2b(hash_length: nat, personal: Seq<u8>, data: Seq<u8>) -> Seq<u8>;

/// Hashes `data` with `blake2b_simd::Params`, where the hash length and the personalization
/// are set and nothing else is. The hash has the length that was asked for, and depends on
/// the three arguments alone. A hash has 1 to 64 bytes, and a personalization at most 16.
#[verifier::external_body]
pub(crate) fn blake2b_hash(hash_length: usize, personal: &[u8], data: &[u8]) -> (hash: Vec<u8>)
    requires
        1 <= hash_length <= 64,
        personal@.len() <= 16,
    ensures
        hash@.len() == hash_length,
        hash@ == blake2b(hash_length as nat, personal@, data@),
{
    let mut params = blake2b_simd::Params::new();
    let mut state = params.hash_length(hash_length).personal(personal).to_state();
    state.update(data).finalize().as_bytes().to_vec()
}

/// The SHA-256 hash of `data`.
pub uninterp spec fn sha256(data: Seq<u8>) -> Seq<u8>;

/// Calls `digest` of `sha2::Sha256`: 32 bytes that depend on `data` alone.
#[verifier::external_body]
pub(crate) fn sha256_digest(data: &[u8]) -> (hash: Vec<u8>)
    ensures
        hash@.len() == 32,
        hash@ == sha256(data@),
{
    sha2::Sha256::digest(data).to_vec()
}

/// Copies 64 bytes into an array.
pub(crate) fn array_64(bytes: &[u8]) -> (array: [u8; 64])
    requires
        bytes@.len() == 64,
    ensures
        array@ == bytes@,
{
    let mut array: [u8; 64] = [0u8; 64];
    let mut i: usize = 0;
    while i < 64
        invariant
            i <= 64,
            bytes@.len() == 64,
            forall|j: int| 0 <= j < i ==> array@[j] == bytes@[j],
        decreases 64 - i,
    {
        array[i] = bytes[i];
        i = i + 1;
    }
    assert(array@ =~= bytes@);
    array
}

} // verus!
