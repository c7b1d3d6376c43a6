//! Error kinds of the channel, one enum per operation that can fail.

use vstd::prelude::*;

verus! {

/// The session key could not be agreed on.
#[derive(Debug, Clone, Copy, PartialEq, Eq, Structural)]
pub enum ErrorGeneratingSecureKeys {
    /// The secret that was decapsulated is not the one that was encapsulated.
    ErrorSendingData,
}

/// The provider of the key-encapsulation mechanism gave no key pair.
#[derive(Debug, Clone, Copy, PartialEq, Eq, Structural)]
pub enum ErrorGeneratingKeyPair {
    /// Key generation failed.
    ErrorSendingData,
}

/// A handshake message could not be built.
#[derive(Debug, Clone, Copy, PartialEq, Eq, Structural)]
pub enum SendPKError {
    /// The artifact's length does not fit the message's length field.
    SendPKError,
}

/// A handshake message was refused.
#[derive(Debug, Clone, Copy, PartialEq, Eq, Structural)]
pub enum HandShakeError {
    /// The message is shorter or longer than its length field announces,
    /// or the two shared secrets differ.
    HandShakeError,
    /// The digest sent with an artifact is not the digest of that artifact.
    IntegrityMismatch,
}

/// A payload could not be turned into packets.
#[derive(Debug, Clone, Copy, PartialEq, Eq, Structural)]
pub enum ErrorSendingData {
    /// The payload needs more chunks than a sequence count can hold, or the
    /// chunk size is zero.
    ErrorSendingData,
    /// A chunk could not be sealed.
    SealFailure,
}

/// A received packet was refused.
#[derive(Debug, Clone, Copy, PartialEq, Eq, Structural)]
pub enum ErrorReceivingData {
    /// The transport failed before a whole packet arrived.
    ErrorReceivingData,
    /// The packet's digest is not the digest of its sealed payload.
    IntegrityFailure,
    /// The sealed payload did not pass authentication.
    AuthenticationFailure,
    /// Lengths, tags or sequence numbers of the packet contradict each other.
    MalformedPacket,
}

/// Sealing failed.
#[derive(Debug, Clone, Copy, PartialEq, Eq, Structural)]
pub enum EncryptError {
    /// The plaintext is too long, no nonce is left, or the key or the
    /// initialization vector has the wrong length.
    EncryptionError,
}

/// Opening failed.
#[derive(Debug, Clone, Copy, PartialEq, Eq, Structural)]
pub enum DecryptError {
    /// The key or the initialization vector has the wrong length.
    DecryptionError,
    /// The authentication tag does not match; no plaintext is released.
    AuthenticationFailed,
}

impl ErrorGeneratingSecureKeys {
    /// The text shown for this error.
    pub open spec fn spec_message(self) -> Seq<char> {
        "Error generating keys for communication"@
    }

    pub fn message(&self) -> (s: String)
        ensures
            s@ == self.spec_message(),
    {
        "Error generating keys for communication".to_owned()
    }
}

impl ErrorGeneratingKeyPair {
    /// The text shown for this error.
    pub open spec fn spec_message(self) -> Seq<char> {
        "Error generating keys for communication"@
    }

    pub fn message(&self) -> (s: String)
        ensures
            s@ == self.spec_message(),
    {
        "Error generating keys for communication".to_owned()
    }
}

impl SendPKError {
    /// The text shown for this error.
    pub open spec fn spec_message(self) -> Seq<char> {
        "Error sending Public Key to peer"@
    }

    pub fn message(&self) -> (s: String)
        ensures
            s@ == self.spec_message(),
    {
        "Error sending Public Key to peer".to_owned()
    }
}

impl HandShakeError {
    /// The text shown for this error.
    pub open spec fn spec_message(self) -> Seq<char> {
        match self {
            HandShakeError::HandShakeError => "Error stablishing connection to peer"@,
            HandShakeError::IntegrityMismatch => "Handshake artifact does not match its digest"@,
        }
    }

    pub fn message(&self) -> (s: String)
        ensures
            s@ == self.spec_message(),
    {
        match self {
            HandShakeError::HandShakeError => "Error stablishing connection to peer".to_owned(),
            HandShakeError::IntegrityMismatch => "Handshake artifact does not match its digest".to_owned(),
        }
    }
}

impl ErrorSendingData {
    /// The text shown for this error.
    pub open spec fn spec_message(self) -> Seq<char> {
        match self {
            ErrorSendingData::ErrorSendingData => "Error sending data to peer"@,
            ErrorSendingData::SealFailure => "Error sealing data for peer"@,
        }
    }

    pub fn message(&self) -> (s: String)
        ensures
            s@ == self.spec_message(),
    {
        match self {
            ErrorSendingData::ErrorSendingData => "Error sending data to peer".to_owned(),
            ErrorSendingData::SealFailure => "Error sealing data for peer".to_owned(),
        }
    }
}

impl ErrorReceivingData {
    /// The text shown for this error.
    pub open spec fn spec_message(self) -> Seq<char> {
        match self {
            ErrorReceivingData::ErrorReceivingData => "Error receiving data from peer"@,
            ErrorReceivingData::IntegrityFailure => "Packet does not match its digest"@,
            ErrorReceivingData::AuthenticationFailure => "Packet failed authentication"@,
            ErrorReceivingData::MalformedPacket => "Packet is malformed"@,
        }
    }

    pub fn message(&self) -> (s: String)
        ensures
            s@ == self.spec_message(),
    {
        match self {
            ErrorReceivingData::ErrorReceivingData => "Error receiving data from peer".to_owned(),
            ErrorReceivingData::IntegrityFailure => "Packet does not match its digest".to_owned(),
            ErrorReceivingData::AuthenticationFailure => "Packet failed authentication".to_owned(),
            ErrorReceivingData::MalformedPacket => "Packet is malformed".to_owned(),
        }
    }
}

impl EncryptError {
    /// The text shown for this error.
    pub open spec fn spec_message(self) -> Seq<char> {
        "Error while trying to encrypt data"@
    }

    pub fn message(&self) -> (s: String)
        ensures
            s@ == self.spec_message(),
    {
        "Error while trying to encrypt data".to_owned()
    }
}

impl DecryptError {
    /// The text shown for this error.
    pub open spec fn spec_message(self) -> Seq<char> {
        match self {
            DecryptError::DecryptionError => "Error while trying to decrypt data"@,
            DecryptError::AuthenticationFailed => "Authentication of sealed data failed"@,
        }
    }

    pub fn message(&self) -> (s: String)
        ensures
            s@ == self.spec_message(),
    {
        match self {
            DecryptError::DecryptionError => "Error while trying to decrypt data".to_owned(),
            DecryptError::AuthenticationFailed => "Authentication of sealed data failed".to_owned(),
        }
    }
}

} // verus!
