//! Digests: a fixed-length fingerprint of a byte buffer, used to notice
//! corruption of handshake artifacts and of sealed payloads.

use sha3::{Digest, Sha3_256};
use vstd::prelude::*;
use crate::bytes::{equal, take_array};

verus! {

/// Length in bytes of a digest.
pub const DIGEST_LEN: usize = 32;

/// The SHA3-256 digest of `data`, as the `sha3` crate computes it.
pub uninterp spec fn sha3_256_digest(data: Seq<u8>) -> Seq<u8>;

/// Hashes `data` with one `Sha3_256` hasher (`new`, `update`, `finalize`).
///
/// Trusted: the result is the digest named `sha3_256_digest`, a function of
/// the input bytes alone, and it is 32 bytes long.
#[verifier::external_body]
pub fn sha3_256(data: &[u8]) -> (out: Vec<u8>)
    ensures
        out@ == sha3_256_digest(data@),
        out.len() == DIGEST_LEN,
{
    let mut hasher = Sha3_256::new();
    hasher.update(data);
    hasher.finalize().to_vec()
}

/// The digest of `bytes` as a fixed-length value.
pub fn digest(bytes: &[u8]) -> (d: [u8; 32])
    ensures
        d@ == sha3_256_digest(bytes@),
{
    let hashed = sha3_256(bytes);
    take_array::<32>(hashed.as_slice(), 0)
}

/// Whether `claimed_digest` is the digest of `bytes`.
pub fn verify(bytes: &[u8], claimed_digest: &[u8]) -> (ok: bool)
    ensures
        ok <==> claimed_digest@ == sha3_256_digest(bytes@),
{
    let hashed = sha3_256(bytes);
    equal(hashed.as_slice(), claimed_digest)
}

} // verus!
