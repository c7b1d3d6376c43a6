//! The handshake: the responder sends its public key, the initiator answers
//! with a ciphertext that encapsulates the shared secret, and both derive
//! the session key. Neither value is authenticated by a signature, so each
//! travels with its digest and is checked before it is used.
//!
//! Key generation, encapsulation and decapsulation belong to the provider of
//! the key-encapsulation mechanism; this module works on their results.

use vstd::prelude::*;
use crate::bytes::{
    append, copy_range, equal, get_u32, lemma_u32_round_trip, put_u32, u32_be, u32_from_be,
};
use crate::errors::{ErrorGeneratingSecureKeys, HandShakeError, SendPKError};
use crate::hash::{sha3_256, sha3_256_digest, DIGEST_LEN};
use crate::kdf::{hkdf_sha3_256, SessionKey};

verus! {

/// Width in bytes of the length field of a handshake message.
pub const LENGTH_FIELD_LEN: usize = 4;

/// Bytes of a handshake message besides the artifact itself.
pub const ARTIFACT_OVERHEAD: usize = 36;

/// Ceiling on the size of a public key or ciphertext: sixteen mebibytes. No
/// receiver takes a length field beyond it on trust.
pub const MAX_ARTIFACT_LEN: usize = 16777216;

/// A key pair of the key-encapsulation mechanism. The secret key stays with
/// the peer that generated the pair; the public key is sent.
pub struct KeyPair {
    pub public: Vec<u8>,
    pub secret: Vec<u8>,
}

/// What encapsulation against a public key yields. The ciphertext is sent;
/// the shared secret stays local.
pub struct Encapsulation {
    pub ciphertext: Vec<u8>,
    pub shared_secret: Vec<u8>,
}

/// The responder's state between sending its public key and receiving the
/// ciphertext: it keeps the secret key for decapsulation.
pub struct PendingHandshake {
    secret: Vec<u8>,
}

/// The context label under which session keys are derived: none.
pub open spec fn context_label() -> Seq<u8> {
    Seq::empty()
}

/// The session key that belongs to `shared_secret`.
pub open spec fn session_key_of(shared_secret: Seq<u8>) -> Seq<u8> {
    hkdf_sha3_256(shared_secret, context_label())
}

/// The handshake message that carries `artifact`: its length in four bytes,
/// most significant first, the artifact, and the digest of the artifact.
pub open spec fn artifact_message(artifact: Seq<u8>) -> Seq<u8> {
    u32_be(artifact.len() as u32) + artifact + sha3_256_digest(artifact)
}

/// Why `message` is refused, or the artifact it carries. The length is
/// checked first: the message must be exactly as long as its length field
/// announces, and the artifact must not exceed the ceiling. Then the digest
/// must be that of the artifact.
pub open spec fn artifact_of(message: Seq<u8>) -> Result<Seq<u8>, HandShakeError> {
    if message.len() < ARTIFACT_OVERHEAD || message.len() > MAX_ARTIFACT_LEN + ARTIFACT_OVERHEAD {
        Err(HandShakeError::HandShakeError)
    } else if u32_from_be(message.subrange(0, 4)) + ARTIFACT_OVERHEAD != message.len() {
        Err(HandShakeError::HandShakeError)
    } else {
        let artifact = message.subrange(4, message.len() - 32);
        let claimed = message.subrange(message.len() - 32, message.len() as int);
        if claimed != sha3_256_digest(artifact) {
            Err(HandShakeError::IntegrityMismatch)
        } else {
            Ok(artifact)
        }
    }
}

/// Builds the handshake message for `artifact`, a public key or a
/// ciphertext. Fails only when the artifact exceeds the ceiling.
pub fn encode_artifact(artifact: &[u8]) -> (r: Result<Vec<u8>, SendPKError>)
    ensures
        r is Ok <==> artifact.len() <= MAX_ARTIFACT_LEN,
        r matches Ok(message) ==> {
            &&& message@ == artifact_message(artifact@)
            &&& message.len() == artifact.len() + ARTIFACT_OVERHEAD
            &&& artifact_of(message@) == Ok::<Seq<u8>, HandShakeError>(artifact@)
        },
{
    if artifact.len() > MAX_ARTIFACT_LEN {
        return Err(SendPKError::SendPKError);
    }
    let mut message: Vec<u8> = Vec::new();
    put_u32(&mut message, artifact.len() as u32);
    append(&mut message, artifact);
    let hashed = sha3_256(artifact);
    append(&mut message, hashed.as_slice());
    proof {
        lemma_artifact_round_trip(artifact@);
    }
    Ok(message)
}

/// The length of the whole handshake message that its first four bytes
/// announce, for a reader that has to know how many bytes to wait for. An
/// artifact above the ceiling is refused.
pub fn announced_message_length(head: &[u8]) -> (r: Result<usize, HandShakeError>)
    requires
        head.len() >= 4,
    ensures
        r is Ok <==> u32_from_be(head@.subrange(0, 4)) <= MAX_ARTIFACT_LEN,
        r matches Ok(total) ==> total == u32_from_be(head@.subrange(0, 4)) + ARTIFACT_OVERHEAD,
        r matches Err(e) ==> e == HandShakeError::HandShakeError,
{
    let announced: u32 = get_u32(head, 0);
    if announced as u64 > MAX_ARTIFACT_LEN as u64 {
        return Err(HandShakeError::HandShakeError);
    }
    Ok(announced as usize + ARTIFACT_OVERHEAD)
}

/// Reads a handshake message and checks the artifact against its digest
/// before handing it out.
pub fn decode_artifact(message: &[u8]) -> (r: Result<Vec<u8>, HandShakeError>)
    ensures
        match artifact_of(message@) {
            Ok(artifact) => r matches Ok(bytes) && bytes@ == artifact,
            Err(e) => r == Err::<Vec<u8>, HandShakeError>(e),
        },
{
    let len: usize = message.len();
    if len < ARTIFACT_OVERHEAD || len > MAX_ARTIFACT_LEN + ARTIFACT_OVERHEAD {
        return Err(HandShakeError::HandShakeError);
    }
    let announced: u32 = get_u32(message, 0);
    if announced as u64 + ARTIFACT_OVERHEAD as u64 != len as u64 {
        return Err(HandShakeError::HandShakeError);
    }
    let artifact: Vec<u8> = copy_range(message, 4, len - 32);
    let claimed: Vec<u8> = copy_range(message, len - 32, len);
    let hashed = sha3_256(artifact.as_slice());
    if !equal(hashed.as_slice(), claimed.as_slice()) {
        return Err(HandShakeError::IntegrityMismatch);
    }
    Ok(artifact)
}

/// A message that was built here is accepted there, and yields the
/// artifact it was built from, given that digests are 32 bytes long.
proof fn lemma_artifact_round_trip(artifact: Seq<u8>)
    requires
        artifact.len() <= MAX_ARTIFACT_LEN,
        sha3_256_digest(artifact).len() == DIGEST_LEN,
    ensures
        artifact_of(artifact_message(artifact)) == Ok::<Seq<u8>, HandShakeError>(artifact),
{
    let message = artifact_message(artifact);
    lemma_u32_round_trip(artifact.len() as u32);
    assert(message.subrange(0, 4) =~= u32_be(artifact.len() as u32));
    assert(message.subrange(4, message.len() - 32) =~= artifact);
    assert(message.subrange(message.len() - 32, message.len() as int) =~= sha3_256_digest(
        artifact,
    ));
}

/// A message whose digest field was altered is refused as an integrity
/// mismatch, whatever else it holds.
pub proof fn lemma_altered_digest_refused(message: Seq<u8>, altered: Seq<u8>)
    requires
        artifact_of(message) is Ok,
        altered.len() == message.len(),
        altered.subrange(0, message.len() - 32) == message.subrange(0, message.len() - 32),
        altered != message,
    ensures
        artifact_of(altered) == Err::<Seq<u8>, HandShakeError>(HandShakeError::IntegrityMismatch),
{
    let n = message.len() as int;
    assert(altered.subrange(0, 4) =~= altered.subrange(0, n - 32).subrange(0, 4));
    assert(message.subrange(0, 4) =~= message.subrange(0, n - 32).subrange(0, 4));
    assert(altered.subrange(4, n - 32) =~= altered.subrange(0, n - 32).subrange(4, n - 32));
    assert(message.subrange(4, n - 32) =~= message.subrange(0, n - 32).subrange(4, n - 32));
    if altered.subrange(n - 32, n) == message.subrange(n - 32, n) {
        assert(altered =~= altered.subrange(0, n - 32) + altered.subrange(n - 32, n));
        assert(message =~= message.subrange(0, n - 32) + message.subrange(n - 32, n));
    }
}

/// Compares the shared secret that one side claims with the one that was
/// recomputed, and derives the session key where they are equal. A
/// mismatch is fatal: no key is derived.
pub fn confirm(shared_secret_claimed: &[u8], shared_secret_recomputed: &[u8]) -> (r: Result<
    SessionKey,
    HandShakeError,
>)
    ensures
        r is Ok <==> shared_secret_claimed@ == shared_secret_recomputed@,
        r matches Ok(key) ==> key@ == session_key_of(shared_secret_claimed@),
        r matches Err(e) ==> e == HandShakeError::HandShakeError,
{
    if !equal(shared_secret_claimed, shared_secret_recomputed) {
        return Err(HandShakeError::HandShakeError);
    }
    let label: Vec<u8> = Vec::new();
    Ok(crate::kdf::derive(shared_secret_claimed, label.as_slice()))
}

/// Derives the cipher key from the secret that was encapsulated, after
/// checking that decapsulation gave the same secret.
pub fn generate_cipher(shared_secret: &[u8], shared_secret_b: &[u8]) -> (r: Result<
    SessionKey,
    ErrorGeneratingSecureKeys,
>)
    ensures
        r is Ok <==> shared_secret@ == shared_secret_b@,
        r matches Ok(key) ==> key@ == session_key_of(shared_secret@),
{
    match confirm(shared_secret, shared_secret_b) {
        Ok(key) => Ok(key),
        Err(_) => Err(ErrorGeneratingSecureKeys::ErrorSendingData),
    }
}

/// The responder's first step: from its key pair to the message that
/// carries the public key, and the state that keeps the secret key.
pub fn initiate(keypair: KeyPair) -> (r: Result<(Vec<u8>, PendingHandshake), SendPKError>)
    ensures
        r is Ok <==> keypair.public.len() <= MAX_ARTIFACT_LEN,
        r matches Ok((message, pending)) ==> {
            &&& message@ == artifact_message(keypair.public@)
            &&& artifact_of(message@) == Ok::<Seq<u8>, HandShakeError>(keypair.public@)
            &&& pending.secret_key() == keypair.secret@
        },
{
    match encode_artifact(keypair.public.as_slice()) {
        Ok(message) => Ok((message, PendingHandshake { secret: keypair.secret })),
        Err(e) => Err(e),
    }
}

/// The initiator's step once the provider has encapsulated against the
/// peer's public key: the message that carries the ciphertext, and the
/// session key.
pub fn respond(encapsulation: &Encapsulation) -> (r: Result<(Vec<u8>, SessionKey), SendPKError>)
    ensures
        r is Ok <==> encapsulation.ciphertext.len() <= MAX_ARTIFACT_LEN,
        r matches Ok((message, key)) ==> {
            &&& message@ == artifact_message(encapsulation.ciphertext@)
            &&& artifact_of(message@) == Ok::<Seq<u8>, HandShakeError>(
                encapsulation.ciphertext@,
            )
            &&& key@ == session_key_of(encapsulation.shared_secret@)
        },
{
    match encode_artifact(encapsulation.ciphertext.as_slice()) {
        Ok(message) => {
            let label: Vec<u8> = Vec::new();
            Ok((message, crate::kdf::derive(encapsulation.shared_secret.as_slice(), label.as_slice())))
        },
        Err(e) => Err(e),
    }
}

impl PendingHandshake {
    /// The secret key that is kept for decapsulation.
    pub closed spec fn secret_key(&self) -> Seq<u8> {
        self.secret@
    }

    /// The secret key, for the provider's decapsulation.
    pub fn secret(&self) -> (secret: &Vec<u8>)
        ensures
            secret@ == self.secret_key(),
    {
        &self.secret
    }

    /// Reads the initiator's message. The digest is checked before the
    /// ciphertext is handed out for decapsulation.
    pub fn receive_ciphertext(&self, message: &[u8]) -> (r: Result<Vec<u8>, HandShakeError>)
        ensures
            match artifact_of(message@) {
                Ok(ciphertext) => r matches Ok(bytes) && bytes@ == ciphertext,
                Err(e) => r == Err::<Vec<u8>, HandShakeError>(e),
            },
    {
        decode_artifact(message)
    }

    /// The responder's last step: the session key from the secret that
    /// decapsulation recovered.
    pub fn complete(self, shared_secret: &[u8]) -> (key: SessionKey)
        ensures
            key@ == session_key_of(shared_secret@),
    {
        let label: Vec<u8> = Vec::new();
        crate::kdf::derive(shared_secret, label.as_slice())
    }
}

/// Both peers derive the same session key: where the secret that the
/// responder decapsulated equals the one that the initiator encapsulated,
/// the keys are byte for byte the same.
pub proof fn lemma_handshake_agreement(encapsulated: Seq<u8>, decapsulated: Seq<u8>)
    requires
        encapsulated == decapsulated,
    ensures
        session_key_of(encapsulated) == session_key_of(decapsulated),
{
}

} // verus!
