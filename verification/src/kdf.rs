//! Key derivation: from a raw shared secret and a context label to the
//! symmetric key of one session.

use hkdf::Hkdf;
use sha3::Sha3_256;
use vstd::prelude::*;

verus! {

/// Length in bytes of a session key.
pub const KEY_LEN: usize = 32;

/// The symmetric key of one session. It is held by the channel that derived
/// it and has no textual form.
pub struct SessionKey {
    bytes: [u8; 32],
}

impl View for SessionKey {
    type V = Seq<u8>;

    closed spec fn view(&self) -> Seq<u8> {
        self.bytes@
    }
}

impl SessionKey {
    /// A key made of the given bytes.
    pub fn from_bytes(bytes: [u8; 32]) -> (key: SessionKey)
        ensures
            key@ == bytes@,
    {
        SessionKey { bytes }
    }

    /// The bytes of the key.
    pub fn as_bytes(&self) -> (bytes: &[u8; 32])
        ensures
            bytes@ == self@,
    {
        &self.bytes
    }

    /// A key always has `KEY_LEN` bytes.
    pub proof fn lemma_len(self)
        ensures
            self@.len() == KEY_LEN,
    {
    }
}

/// The 32 bytes that HKDF over SHA3-256 expands from `secret` as input key
/// material, with no salt and `label` as the info string.
pub uninterp spec fn hkdf_sha3_256(secret: Seq<u8>, label: Seq<u8>) -> Seq<u8>;

/// Runs `Hkdf::<Sha3_256>::new(None, secret)` and `expand(label, ..)` into a
/// buffer of 32 bytes.
///
/// Trusted: the result is the value named `hkdf_sha3_256`, a function of the
/// two inputs alone. `expand` refuses only outputs longer than 255 digests,
/// so for 32 bytes it always fills the buffer.
#[verifier::external_body]
fn hkdf_expand(secret: &[u8], label: &[u8]) -> (okm: [u8; 32])
    ensures
        okm@ == hkdf_sha3_256(secret@, label@),
{
    let mut okm = [0u8; 32];
    Hkdf::<Sha3_256>::new(None, secret).expand(label, &mut okm).expect("32 bytes fit");
    okm
}

/// Derives the session key from `shared_secret` under `context_label`.
///
/// The key depends on these two inputs and on nothing else, so two peers
/// that hold the same secret and label derive the same key.
pub fn derive(shared_secret: &[u8], context_label: &[u8]) -> (key: SessionKey)
    ensures
        key@ == hkdf_sha3_256(shared_secret@, context_label@),
{
    SessionKey::from_bytes(hkdf_expand(shared_secret, context_label))
}

/// Two derivations from equal secrets and equal labels give equal keys.
pub proof fn lemma_derive_agrees(
    secret_a: Seq<u8>,
    secret_b: Seq<u8>,
    label_a: Seq<u8>,
    label_b: Seq<u8>,
)
    requires
        secret_a == secret_b,
        label_a == label_b,
    ensures
        hkdf_sha3_256(secret_a, label_a) == hkdf_sha3_256(secret_b, label_b),
{
}

} // verus!
