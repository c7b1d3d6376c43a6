//! The secure channel: authenticated encryption of single messages under the
//! session key, each under a nonce that the channel never uses twice.

use ::aes::Aes256;
use aes_gcm::aead::{Aead, NewAead};
use aes_gcm::AesGcm;
use generic_array::typenum::U12;
use generic_array::GenericArray;
use vstd::prelude::*;
use crate::bytes::{lemma_u64_be_injective, u64_be};
use crate::errors::{DecryptError, EncryptError};
use crate::kdf::SessionKey;

verus! {

/// Length in bytes of a nonce.
pub const NONCE_LEN: usize = 12;

/// Length in bytes of the authentication tag that sealing appends.
pub const TAG_LEN: usize = 16;

/// The longest plaintext, in bytes, that one sealed message can hold: what
/// the block counter of Galois/Counter Mode can number.
pub const MAX_PLAINTEXT_LEN: u64 = 0xF_FFFF_FFE0;

/// The longest sealed message, in bytes: the longest plaintext and its tag.
pub const MAX_SEALED_LEN: u64 = 0xF_FFFF_FFF0;

/// The error of `aes_gcm`'s `encrypt` and `decrypt`. It says nothing beyond
/// the fact of failure, and is carried through unread.
#[verifier::external_type_specification]
#[verifier::external_body]
pub struct ExAeadError(aes_gcm::Error);

/// The sealed form of `plaintext` under AES-256-GCM with `key` and `nonce`
/// and no associated data: the ciphertext followed by its tag.
pub uninterp spec fn aes256_gcm_seal(key: Seq<u8>, nonce: Seq<u8>, plaintext: Seq<u8>) -> Seq<u8>;

/// The plaintext that AES-256-GCM releases for `sealed` under `key` and
/// `nonce` with no associated data, if the tag matches.
pub uninterp spec fn aes256_gcm_open(key: Seq<u8>, nonce: Seq<u8>, sealed: Seq<u8>) -> Option<
    Seq<u8>,
>;

/// What opening `sealed` under `key` and `nonce` yields: nothing for an
/// input longer than any sealed message, else what the cipher releases.
pub open spec fn opening(key: Seq<u8>, nonce: Seq<u8>, sealed: Seq<u8>) -> Option<Seq<u8>> {
    if sealed.len() > MAX_SEALED_LEN {
        None
    } else {
        aes256_gcm_open(key, nonce, sealed)
    }
}

/// Seals with `AesGcm::<Aes256, U12>::new(key)` and `encrypt(nonce,
/// plaintext)`.
///
/// Trusted: the cipher refuses plaintexts of more than 2^36 bytes, and its
/// block counter runs out sixteen bytes below that; within
/// `MAX_PLAINTEXT_LEN`, which lies below both, it succeeds. What it returns
/// is the value named `aes256_gcm_seal`, is `TAG_LEN` bytes longer than the
/// plaintext, and opens under the same key and nonce to the plaintext.
#[verifier::external_body]
pub(crate) fn gcm_seal(key: &[u8; 32], nonce: &[u8; 12], plaintext: &[u8]) -> (out: Result<
    Vec<u8>,
    aes_gcm::Error,
>)
    requires
        plaintext.len() <= MAX_PLAINTEXT_LEN,
        plaintext.len() + TAG_LEN <= usize::MAX,
    ensures
        out is Ok,
        out matches Ok(sealed) ==> {
            &&& sealed@ == aes256_gcm_seal(key@, nonce@, plaintext@)
            &&& sealed.len() == plaintext.len() + TAG_LEN
            &&& aes256_gcm_open(key@, nonce@, sealed@) == Some(plaintext@)
        },
{
    let cipher = AesGcm::<Aes256, U12>::new(GenericArray::from_slice(key));
    cipher.encrypt(GenericArray::from_slice(nonce), plaintext)
}

/// Opens with `AesGcm::<Aes256, U12>::new(key)` and `decrypt(nonce,
/// sealed)`.
///
/// Trusted: for an input within `MAX_SEALED_LEN`, where the block counter
/// of the cipher cannot run out, the call succeeds exactly where the value
/// named `aes256_gcm_open` is some plaintext, which it then returns; the
/// plaintext is `TAG_LEN` bytes shorter than the input; an input shorter
/// than a tag is refused.
#[verifier::external_body]
pub(crate) fn gcm_open(key: &[u8; 32], nonce: &[u8; 12], sealed: &[u8]) -> (out: Result<
    Vec<u8>,
    aes_gcm::Error,
>)
    requires
        sealed.len() <= MAX_SEALED_LEN,
    ensures
        out matches Ok(plaintext) ==> {
            &&& aes256_gcm_open(key@, nonce@, sealed@) == Some(plaintext@)
            &&& plaintext.len() + TAG_LEN == sealed.len()
        },
        out is Err ==> aes256_gcm_open(key@, nonce@, sealed@) is None,
        sealed.len() < TAG_LEN ==> out is Err,
{
    let cipher = AesGcm::<Aes256, U12>::new(GenericArray::from_slice(key));
    cipher.decrypt(GenericArray::from_slice(nonce), sealed)
}

/// Which end of the session a channel seals for. The two ends share one key,
/// so each marks its nonces with its own role.
#[derive(Debug, Clone, Copy, PartialEq, Eq, Structural)]
pub enum Role {
    /// The peer that encapsulated the shared secret.
    Initiator,
    /// The peer that generated the key pair.
    Responder,
}

/// The four bytes that open every nonce of `role`.
pub open spec fn role_prefix(role: Role) -> Seq<u8> {
    match role {
        Role::Initiator => seq![0u8, 0u8, 0u8, 1u8],
        Role::Responder => seq![0u8, 0u8, 0u8, 2u8],
    }
}

/// The nonce of the message that `role` seals at count `counter`: the role's
/// prefix, then the count as eight bytes, most significant first.
pub open spec fn nonce_for(role: Role, counter: u64) -> Seq<u8> {
    role_prefix(role) + u64_be(counter)
}

/// A sealed message: self-contained, with the nonce it was sealed under.
pub struct SealedMessage {
    pub nonce: [u8; 12],
    pub ciphertext: Vec<u8>,
}

/// The session key with the state of its nonce generator, for one direction
/// of traffic.
pub struct SessionKeyState {
    key: SessionKey,
    role: Role,
    counter: u64,
}

impl SessionKeyState {
    /// The key.
    pub closed spec fn key(&self) -> Seq<u8> {
        self.key@
    }

    /// The role that marks the nonces.
    pub closed spec fn role(&self) -> Role {
        self.role
    }

    /// How many nonces have been handed out.
    pub closed spec fn counter(&self) -> u64 {
        self.counter
    }

    /// A fresh state: no nonce has been used under `key` by `role`.
    pub fn new(key: SessionKey, role: Role) -> (state: SessionKeyState)
        ensures
            state.key() == key@,
            state.role() == role,
            state.counter() == 0,
    {
        SessionKeyState { key, role, counter: 0 }
    }

    /// Whether a nonce is left.
    pub fn has_nonce(&self) -> (b: bool)
        ensures
            b <==> self.counter() < u64::MAX,
    {
        self.counter < u64::MAX
    }

    /// How many nonces have been handed out.
    pub fn nonces_used(&self) -> (n: u64)
        ensures
            n == self.counter(),
    {
        self.counter
    }

    /// Hands out the next nonce and counts it. The count never wraps: once
    /// it has reached its last value no nonce is handed out any more.
    pub fn next_nonce(&mut self) -> (r: Option<[u8; 12]>)
        ensures
            final(self).key() == old(self).key(),
            final(self).role() == old(self).role(),
            r is Some <==> old(self).counter() < u64::MAX,
            r matches Some(nonce) ==> {
                &&& nonce@ == nonce_for(old(self).role(), old(self).counter())
                &&& final(self).counter() == old(self).counter() + 1
            },
            r is None ==> final(self).counter() == old(self).counter(),
    {
        if self.counter == u64::MAX {
            return None;
        }
        let c: u64 = self.counter;
        let tag: u8 = match self.role {
            Role::Initiator => 1,
            Role::Responder => 2,
        };
        let nonce: [u8; 12] = [
            0,
            0,
            0,
            tag,
            (c / 0x100_0000_0000_0000) as u8,
            (c / 0x1_0000_0000_0000 % 0x100) as u8,
            (c / 0x100_0000_0000 % 0x100) as u8,
            (c / 0x1_0000_0000 % 0x100) as u8,
            (c / 0x100_0000 % 0x100) as u8,
            (c / 0x1_0000 % 0x100) as u8,
            (c / 0x100 % 0x100) as u8,
            (c % 0x100) as u8,
        ];
        assert(nonce@ =~= nonce_for(self.role, c));
        self.counter = c + 1;
        Some(nonce)
    }
}

/// A channel that seals and opens messages under one session key.
pub struct SecureChannel {
    state: SessionKeyState,
}

impl SecureChannel {
    /// The session key.
    pub closed spec fn key(&self) -> Seq<u8> {
        self.state.key()
    }

    /// The role under which this channel seals.
    pub closed spec fn role(&self) -> Role {
        self.state.role()
    }

    /// How many messages this channel has sealed.
    pub closed spec fn sealed_count(&self) -> u64 {
        self.state.counter()
    }

    /// Whether the channel can seal a plaintext of `len` bytes now.
    pub open spec fn can_seal(&self, len: int) -> bool {
        &&& self.sealed_count() < u64::MAX
        &&& len <= MAX_PLAINTEXT_LEN
        &&& len + TAG_LEN <= usize::MAX
    }

    /// A channel over `key` that has sealed nothing yet.
    pub fn new(key: SessionKey, role: Role) -> (channel: SecureChannel)
        ensures
            channel.key() == key@,
            channel.role() == role,
            channel.sealed_count() == 0,
    {
        SecureChannel { state: SessionKeyState::new(key, role) }
    }

    /// How many messages this channel has sealed.
    pub fn messages_sealed(&self) -> (n: u64)
        ensures
            n == self.sealed_count(),
    {
        self.state.nonces_used()
    }

    /// Seals `plaintext` under the next nonce.
    ///
    /// Fails, and leaves the channel as it is, when no nonce is left or the
    /// plaintext is too long. What succeeds opens under the same key to
    /// `plaintext`.
    pub fn seal(&mut self, plaintext: &[u8]) -> (r: Result<SealedMessage, EncryptError>)
        ensures
            final(self).key() == old(self).key(),
            final(self).role() == old(self).role(),
            r is Ok <==> old(self).can_seal(plaintext.len() as int),
            r matches Ok(message) ==> {
                &&& message.nonce@ == nonce_for(old(self).role(), old(self).sealed_count())
                &&& message.ciphertext@ == aes256_gcm_seal(
                    old(self).key(),
                    message.nonce@,
                    plaintext@,
                )
                &&& message.ciphertext.len() == plaintext.len() + TAG_LEN
                &&& opening(old(self).key(), message.nonce@, message.ciphertext@) == Some(
                    plaintext@,
                )
                &&& final(self).sealed_count() == old(self).sealed_count() + 1
            },
            r is Err ==> final(self).sealed_count() == old(self).sealed_count(),
    {
        if plaintext.len() as u64 > MAX_PLAINTEXT_LEN || plaintext.len() > usize::MAX - TAG_LEN {
            return Err(EncryptError::EncryptionError);
        }
        let nonce = match self.state.next_nonce() {
            Some(nonce) => nonce,
            None => {
                return Err(EncryptError::EncryptionError);
            },
        };
        match gcm_seal(self.state.key.as_bytes(), &nonce, plaintext) {
            Ok(ciphertext) => Ok(SealedMessage { nonce, ciphertext }),
            Err(_) => Err(EncryptError::EncryptionError),
        }
    }

    /// Opens a sealed message. Fails closed: where authentication fails,
    /// nothing of the plaintext is returned. An input longer than any
    /// sealed message is refused unread.
    pub fn open(&self, nonce: &[u8; 12], ciphertext: &[u8]) -> (r: Result<Vec<u8>, DecryptError>)
        ensures
            match opening(self.key(), nonce@, ciphertext@) {
                Some(plaintext) => r matches Ok(opened) && opened@ == plaintext,
                None => r == Err::<Vec<u8>, DecryptError>(DecryptError::AuthenticationFailed),
            },
            r matches Ok(opened) ==> opened.len() + TAG_LEN == ciphertext.len(),
            ciphertext.len() < TAG_LEN || ciphertext.len() > MAX_SEALED_LEN ==> r == Err::<
                Vec<u8>,
                DecryptError,
            >(DecryptError::AuthenticationFailed),
    {
        if ciphertext.len() as u64 > MAX_SEALED_LEN {
            return Err(DecryptError::AuthenticationFailed);
        }
        match gcm_open(self.state.key.as_bytes(), nonce, ciphertext) {
            Ok(plaintext) => Ok(plaintext),
            Err(_) => Err(DecryptError::AuthenticationFailed),
        }
    }
}

/// Two messages sealed by one role at different counts never share a nonce.
pub proof fn lemma_nonces_distinct(role: Role, i: u64, j: u64)
    requires
        i != j,
    ensures
        nonce_for(role, i) != nonce_for(role, j),
{
    if nonce_for(role, i) == nonce_for(role, j) {
        assert(nonce_for(role, i).subrange(4, 12) =~= u64_be(i));
        assert(nonce_for(role, j).subrange(4, 12) =~= u64_be(j));
        lemma_u64_be_injective(i, j);
    }
}

/// The two ends of a session never share a nonce, whatever their counts.
pub proof fn lemma_roles_never_collide(i: u64, j: u64)
    ensures
        nonce_for(Role::Initiator, i) != nonce_for(Role::Responder, j),
{
    assert(nonce_for(Role::Initiator, i)[3] == 1u8);
    assert(nonce_for(Role::Responder, j)[3] == 2u8);
}

/// Across any run of consecutive `seal` calls on one channel, all nonces are
/// pairwise distinct: the call that is the `i`-th after the channel had
/// sealed `start` messages uses the nonce at count `start + i`.
pub proof fn lemma_consecutive_seals_distinct(role: Role, start: u64, i: nat, j: nat)
    requires
        i != j,
        start + i <= u64::MAX,
        start + j <= u64::MAX,
    ensures
        nonce_for(role, (start + i) as u64) != nonce_for(role, (start + j) as u64),
{
    lemma_nonces_distinct(role, (start + i) as u64, (start + j) as u64);
}

} // verus!
