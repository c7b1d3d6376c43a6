//! Sealing without a channel: AES-256 in Galois/Counter Mode under a key
//! taken from the shared secret, and under an initialization vector of
//! twelve bytes that is drawn at random for each message and travels with
//! it. What is decrypted has passed authentication.

use rand::{thread_rng, Rng};
use vstd::prelude::*;
use crate::bytes::take_array;
use crate::channel::{
    aes256_gcm_seal, gcm_open, gcm_seal, opening, MAX_PLAINTEXT_LEN, MAX_SEALED_LEN, TAG_LEN,
};
use crate::errors::{DecryptError, EncryptError};

verus! {

/// Length in bytes of the key.
pub const AES_KEY_LEN: usize = 32;

/// Length in bytes of the initialization vector.
pub const IV_LEN: usize = 12;

/// Twelve bytes from `rand::thread_rng`.
///
/// Trusted: only the length of the result; its bytes differ from call to call.
#[verifier::external_body]
fn random_iv() -> (iv: Vec<u8>)
    ensures
        iv.len() == IV_LEN,
{
    let mut iv = vec![0u8; 12];
    thread_rng().fill(&mut iv[..]);
    iv
}

/// Whether `plaintext_len` bytes can be sealed under a key of `key_len`
/// bytes and a vector of `iv_len` bytes.
pub open spec fn can_encrypt(key_len: int, iv_len: int, plaintext_len: int) -> bool {
    &&& key_len == AES_KEY_LEN
    &&& iv_len == IV_LEN
    &&& plaintext_len <= MAX_PLAINTEXT_LEN
    &&& plaintext_len + TAG_LEN <= usize::MAX
}

/// What decrypting `ciphertext` under `key` and `iv` yields: a key or a
/// vector of the wrong length cannot decrypt anything; else the plaintext
/// comes out exactly where authentication passes.
pub open spec fn decrypted(key: Seq<u8>, iv: Seq<u8>, ciphertext: Seq<u8>) -> Result<
    Seq<u8>,
    DecryptError,
> {
    if key.len() != AES_KEY_LEN || iv.len() != IV_LEN {
        Err(DecryptError::DecryptionError)
    } else {
        match opening(key, iv, ciphertext) {
            Some(plaintext) => Ok(plaintext),
            None => Err(DecryptError::AuthenticationFailed),
        }
    }
}

/// Seals `plaintext` under `aes_key` and the given `iv`. A vector must
/// never serve twice under one key.
///
/// Fails when key or vector have the wrong length, or the plaintext is too
/// long. What succeeds decrypts under the same key and vector to
/// `plaintext`.
pub fn encrypt_with_iv(aes_key: &[u8], iv: &[u8], plaintext: &[u8]) -> (r: Result<
    Vec<u8>,
    EncryptError,
>)
    ensures
        r is Ok <==> can_encrypt(aes_key.len() as int, iv.len() as int, plaintext.len() as int),
        r matches Ok(ciphertext) ==> {
            &&& ciphertext@ == aes256_gcm_seal(aes_key@, iv@, plaintext@)
            &&& ciphertext.len() == plaintext.len() + TAG_LEN
            &&& decrypted(aes_key@, iv@, ciphertext@) == Ok::<Seq<u8>, DecryptError>(plaintext@)
        },
{
    if aes_key.len() != AES_KEY_LEN || iv.len() != IV_LEN || plaintext.len() as u64
        > MAX_PLAINTEXT_LEN || plaintext.len() > usize::MAX - TAG_LEN {
        return Err(EncryptError::EncryptionError);
    }
    let key: [u8; 32] = take_array::<32>(aes_key, 0);
    let nonce: [u8; 12] = take_array::<12>(iv, 0);
    assert(key@ == aes_key@ && nonce@ == iv@) by {
        assert(aes_key@.subrange(0, 32) =~= aes_key@);
        assert(iv@.subrange(0, 12) =~= iv@);
    }
    match gcm_seal(&key, &nonce, plaintext) {
        Ok(ciphertext) => Ok(ciphertext),
        Err(_) => Err(EncryptError::EncryptionError),
    }
}

/// Draws a fresh initialization vector and seals `plaintext` under it.
/// Returns the vector and the ciphertext, in this order.
pub fn encrypt_data(aes_key: &[u8], plaintext: &[u8]) -> (r: Result<
    (Vec<u8>, Vec<u8>),
    EncryptError,
>)
    ensures
        r is Ok <==> can_encrypt(aes_key.len() as int, IV_LEN as int, plaintext.len() as int),
        r matches Ok((iv, ciphertext)) ==> {
            &&& iv.len() == IV_LEN
            &&& ciphertext@ == aes256_gcm_seal(aes_key@, iv@, plaintext@)
            &&& ciphertext.len() == plaintext.len() + TAG_LEN
            &&& decrypted(aes_key@, iv@, ciphertext@) == Ok::<Seq<u8>, DecryptError>(plaintext@)
        },
{
    let iv = random_iv();
    match encrypt_with_iv(aes_key, iv.as_slice(), plaintext) {
        Ok(ciphertext) => Ok((iv, ciphertext)),
        Err(e) => Err(e),
    }
}

/// Opens `ciphertext` under `aes_key` and `iv`. Fails closed: where key or
/// vector have the wrong length nothing is decrypted, and a ciphertext that
/// does not pass authentication yields no plaintext.
pub fn decrypt_data(aes_key: &[u8], iv: &[u8], ciphertext: &[u8]) -> (r: Result<
    Vec<u8>,
    DecryptError,
>)
    ensures
        match decrypted(aes_key@, iv@, ciphertext@) {
            Ok(plaintext) => r matches Ok(bytes) && bytes@ == plaintext,
            Err(e) => r == Err::<Vec<u8>, DecryptError>(e),
        },
        r matches Ok(bytes) ==> bytes.len() + TAG_LEN == ciphertext.len(),
        ciphertext.len() < TAG_LEN ==> r is Err,
{
    if aes_key.len() != AES_KEY_LEN || iv.len() != IV_LEN {
        return Err(DecryptError::DecryptionError);
    }
    if ciphertext.len() as u64 > MAX_SEALED_LEN {
        return Err(DecryptError::AuthenticationFailed);
    }
    let key: [u8; 32] = take_array::<32>(aes_key, 0);
    let nonce: [u8; 12] = take_array::<12>(iv, 0);
    assert(key@ == aes_key@ && nonce@ == iv@) by {
        assert(aes_key@.subrange(0, 32) =~= aes_key@);
        assert(iv@.subrange(0, 12) =~= iv@);
    }
    match gcm_open(&key, &nonce, ciphertext) {
        Ok(decrypted_data) => Ok(decrypted_data),
        Err(_) => Err(DecryptError::AuthenticationFailed),
    }
}

} // verus!
