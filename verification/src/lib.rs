//! A quantum-resistant encrypted channel between two peers.
//!
//! A handshake built on a key-encapsulation mechanism yields a shared secret,
//! from which both peers derive one symmetric session key. Application
//! payloads of any size are then split into chunks, each chunk is sealed under
//! a fresh nonce, covered by a digest, and carried in one wire packet; the
//! receiver checks, opens and reassembles them.

pub mod bytes;
pub mod channel;
pub mod cipher;
pub mod delivery;
pub mod errors;
pub mod framer;
pub mod handshake;
pub mod hash;
pub mod hybrid;
pub mod kdf;
pub mod packets;
pub mod padding;
pub mod reassembly;
pub mod session;
