//! Encryption of single messages under the session key. Every message is
//! sealed under the channel's next nonce and carries that nonce with it, so
//! that no two messages of a channel are sealed alike; what is decrypted has
//! passed authentication.

use vstd::prelude::*;
use crate::channel::{aes256_gcm_seal, nonce_for, opening, SealedMessage, SecureChannel, TAG_LEN};
use crate::errors::{DecryptError, EncryptError};

verus! {

/// Seals `text` under the next nonce of `cipher`.
///
/// Fails, and leaves the channel as it is, when no nonce is left or the
/// text is too long. What succeeds carries the nonce at the channel's
/// count, which then advances, and decrypts under the same key to `text`.
pub fn encrypt(cipher: &mut SecureChannel, text: &[u8]) -> (r: Result<SealedMessage, EncryptError>)
    ensures
        final(cipher).key() == old(cipher).key(),
        final(cipher).role() == old(cipher).role(),
        r is Ok <==> old(cipher).can_seal(text.len() as int),
        r matches Ok(message) ==> {
            &&& message.nonce@ == nonce_for(old(cipher).role(), old(cipher).sealed_count())
            &&& message.ciphertext@ == aes256_gcm_seal(old(cipher).key(), message.nonce@, text@)
            &&& message.ciphertext.len() == text.len() + TAG_LEN
            &&& opening(old(cipher).key(), message.nonce@, message.ciphertext@) == Some(text@)
            &&& final(cipher).sealed_count() == old(cipher).sealed_count() + 1
        },
        r is Err ==> final(cipher).sealed_count() == old(cipher).sealed_count(),
{
    cipher.seal(text)
}

/// Opens `encrypted_data` under the key of `cipher` and the nonce that the
/// message carries. Fails closed: a message that does not pass
/// authentication yields no plaintext, not even a part of one.
pub fn decrypt(cipher: &SecureChannel, encrypted_data: &SealedMessage) -> (r: Result<
    Vec<u8>,
    DecryptError,
>)
    ensures
        match opening(cipher.key(), encrypted_data.nonce@, encrypted_data.ciphertext@) {
            Some(text) => r matches Ok(decrypted) && decrypted@ == text,
            None => r == Err::<Vec<u8>, DecryptError>(DecryptError::AuthenticationFailed),
        },
        r matches Ok(decrypted) ==> decrypted.len() + TAG_LEN == encrypted_data.ciphertext.len(),
        encrypted_data.ciphertext.len() < TAG_LEN ==> r is Err,
{
    cipher.open(&encrypted_data.nonce, encrypted_data.ciphertext.as_slice())
}

/// Two messages that one channel encrypts never carry the same nonce, be
/// their texts equal or not: the earlier one is sealed at a lower count.
pub proof fn lemma_encrypted_apart(cipher: &SecureChannel, earlier: u64, later: u64)
    requires
        earlier < later,
    ensures
        nonce_for(cipher.role(), earlier) != nonce_for(cipher.role(), later),
{
    crate::channel::lemma_nonces_distinct(cipher.role(), earlier, later);
}

} // verus!
