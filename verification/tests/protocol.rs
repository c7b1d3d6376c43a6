use pq_channel::channel::{Role, TAG_LEN};
use pq_channel::errors::{
    ErrorGeneratingKeyPair, ErrorGeneratingSecureKeys, ErrorReceivingData, ErrorSendingData,
    HandShakeError, SendPKError,
};
use pq_channel::handshake::{
    announced_message_length, confirm, decode_artifact, encode_artifact, generate_cipher,
    initiate, respond, Encapsulation, KeyPair, ARTIFACT_OVERHEAD, MAX_ARTIFACT_LEN,
};
use pq_channel::hash::sha3_256;
use pq_channel::kdf::SessionKey;
use pq_channel::packets::{Packet, STREAM_HEADER_LEN};
use pq_channel::session::{accept, survives, Session};

fn sessions(max: usize) -> (Session, Session) {
    (
        Session::new(SessionKey::from_bytes([0x5A; 32]), Role::Initiator, max),
        Session::new(SessionKey::from_bytes([0x5A; 32]), Role::Responder, max),
    )
}

fn bytes_of(len: usize) -> Vec<u8> {
    (0..len).map(|i| (i * 13 % 251) as u8).collect()
}

fn deliver(receiver: &mut Session, wires: &[Vec<u8>]) -> Option<Vec<u8>> {
    let mut out = None;
    for wire in wires {
        assert!(out.is_none());
        out = receiver.receive(wire).unwrap();
    }
    out
}

#[test]
fn artifact_message_is_length_artifact_digest() {
    let artifact = b"public key bytes";
    let message = encode_artifact(artifact).unwrap();
    assert_eq!(message.len(), artifact.len() + ARTIFACT_OVERHEAD);
    assert_eq!(&message[..4], &[0u8, 0, 0, 16][..]);
    assert_eq!(&message[4..20], &artifact[..]);
    assert_eq!(&message[20..], &sha3_256(artifact)[..]);
    assert_eq!(decode_artifact(&message).unwrap(), artifact.to_vec());
}

#[test]
fn artifact_of_kem_size_round_trips() {
    let artifact = bytes_of(1568);
    let message = encode_artifact(&artifact).unwrap();
    assert_eq!(&message[..4], &[0u8, 0, 6, 32][..]);
    assert_eq!(decode_artifact(&message).unwrap(), artifact);
    let empty = encode_artifact(&[]).unwrap();
    assert_eq!(empty.len(), 36);
    assert_eq!(decode_artifact(&empty).unwrap(), Vec::<u8>::new());
}

#[test]
fn any_flipped_bit_of_a_handshake_digest_is_an_integrity_mismatch() {
    let message = encode_artifact(b"ciphertext of the KEM").unwrap();
    let start = message.len() - 32;
    for bit in 0..256 {
        let mut tampered = message.clone();
        tampered[start + bit / 8] ^= 1 << (bit % 8);
        assert!(matches!(decode_artifact(&tampered), Err(HandShakeError::IntegrityMismatch)));
    }
}

#[test]
fn any_flipped_bit_of_a_handshake_artifact_is_an_integrity_mismatch() {
    let message = encode_artifact(b"ciphertext of the KEM").unwrap();
    for bit in 0..(21 * 8) {
        let mut tampered = message.clone();
        tampered[4 + bit / 8] ^= 1 << (bit % 8);
        assert!(matches!(decode_artifact(&tampered), Err(HandShakeError::IntegrityMismatch)));
    }
}

#[test]
fn a_handshake_length_that_disagrees_is_refused() {
    let message = encode_artifact(b"ciphertext of the KEM").unwrap();
    for len in 0..message.len() {
        assert!(matches!(decode_artifact(&message[..len]), Err(HandShakeError::HandShakeError)));
    }
    let mut longer = message.clone();
    longer.push(0);
    assert!(matches!(decode_artifact(&longer), Err(HandShakeError::HandShakeError)));
    let mut wrong = message.clone();
    wrong[3] += 1;
    assert!(matches!(decode_artifact(&wrong), Err(HandShakeError::HandShakeError)));
}

#[test]
fn confirm_derives_a_key_only_from_equal_secrets() {
    let secret = [3u8; 32];
    let key = confirm(&secret, &secret).unwrap();
    assert_eq!(key.as_bytes(), pq_channel::kdf::derive(&secret, b"").as_bytes());
    let mut other = secret;
    other[31] ^= 1;
    assert!(matches!(confirm(&secret, &other), Err(HandShakeError::HandShakeError)));
    assert!(matches!(confirm(&secret, &secret[..31]), Err(HandShakeError::HandShakeError)));
}

#[test]
fn generate_cipher_refuses_secrets_that_differ() {
    let secret = [3u8; 32];
    let key = generate_cipher(&secret, &secret).unwrap();
    assert_eq!(key.as_bytes(), confirm(&secret, &secret).unwrap().as_bytes());
    let r = generate_cipher(&secret, &[4u8; 32]);
    assert!(matches!(r, Err(ErrorGeneratingSecureKeys::ErrorSendingData)));
}

#[test]
fn both_peers_derive_the_same_session_key() {
    // The responder generates a key pair and sends the public key.
    let keypair = KeyPair { public: bytes_of(1568), secret: bytes_of(3168) };
    let (pk_message, pending) = initiate(keypair).unwrap();
    assert_eq!(pending.secret(), &bytes_of(3168));
    // The initiator checks it, encapsulates, and answers with the ciphertext.
    let public = decode_artifact(&pk_message).unwrap();
    assert_eq!(public, bytes_of(1568));
    let encapsulation = Encapsulation { ciphertext: vec![0xC7; 1568], shared_secret: vec![0x11; 32] };
    let (ct_message, initiator_key) = respond(&encapsulation).unwrap();
    // The responder checks the ciphertext and decapsulates the same secret.
    let ciphertext = pending.receive_ciphertext(&ct_message).unwrap();
    assert_eq!(ciphertext, vec![0xC7; 1568]);
    let decapsulated = vec![0x11u8; 32];
    assert_eq!(decapsulated, encapsulation.shared_secret);
    let responder_key = pending.complete(&decapsulated);
    assert_eq!(initiator_key.as_bytes(), responder_key.as_bytes());
    assert!(confirm(&encapsulation.shared_secret, &decapsulated).is_ok());
}

#[test]
fn a_corrupted_ciphertext_is_refused_before_decapsulation() {
    let keypair = KeyPair { public: vec![1; 8], secret: vec![2; 8] };
    let (_, pending) = initiate(keypair).unwrap();
    let encapsulation = Encapsulation { ciphertext: vec![0xC7; 64], shared_secret: vec![0x11; 32] };
    let (mut ct_message, _) = respond(&encapsulation).unwrap();
    ct_message[10] ^= 0x80;
    assert!(matches!(
        pending.receive_ciphertext(&ct_message),
        Err(HandShakeError::IntegrityMismatch)
    ));
}

#[test]
fn handshake_errors_have_their_texts() {
    assert_eq!(
        ErrorGeneratingSecureKeys::ErrorSendingData.message(),
        "Error generating keys for communication"
    );
    assert_eq!(
        ErrorGeneratingKeyPair::ErrorSendingData.message(),
        "Error generating keys for communication"
    );
    assert_eq!(SendPKError::SendPKError.message(), "Error sending Public Key to peer");
    assert_eq!(HandShakeError::HandShakeError.message(), "Error stablishing connection to peer");
    assert_eq!(
        HandShakeError::IntegrityMismatch.message(),
        "Handshake artifact does not match its digest"
    );
    assert_eq!(
        ErrorReceivingData::ErrorReceivingData.message(),
        "Error receiving data from peer"
    );
    assert_eq!(ErrorReceivingData::IntegrityFailure.message(), "Packet does not match its digest");
    assert_eq!(ErrorReceivingData::AuthenticationFailure.message(), "Packet failed authentication");
    assert_eq!(ErrorReceivingData::MalformedPacket.message(), "Packet is malformed");
}

#[test]
fn test_connect() {
    let (mut client, mut peer) = sessions(pq_channel::framer::MAX_PACKET_PAYLOAD);
    let buf: &[u8] = &[0; 1000];
    let wires = client.send(buf, true).expect("Error test");
    assert_eq!(wires.len(), 1);
    assert_eq!(wires[0].len(), STREAM_HEADER_LEN + 1000 + TAG_LEN);
    assert_eq!(peer.receive(&wires[0]).unwrap(), Some(buf.to_vec()));
}

#[test]
fn what_is_sent_is_what_is_received() {
    let max = 64usize;
    for len in [0usize, 1, 63, 64, 65, 127, 128, 129, 224, 1000] {
        let (mut sender, mut receiver) = sessions(max);
        let payload = bytes_of(len);
        let wires = sender.send(&payload, true).unwrap();
        let expected = if len <= max { 1 } else { (len + max - 1) / max };
        assert_eq!(wires.len(), expected);
        assert_eq!(deliver(&mut receiver, &wires), Some(payload));
    }
}

#[test]
fn both_directions_share_one_key() {
    let (mut a, mut b) = sessions(16);
    let there = a.send(b"from the initiator to the responder", true).unwrap();
    let back = b.send(b"and from the responder back", true).unwrap();
    assert_eq!(deliver(&mut b, &there), Some(b"from the initiator to the responder".to_vec()));
    assert_eq!(deliver(&mut a, &back), Some(b"and from the responder back".to_vec()));
}

#[test]
fn interleaved_bulk_messages_are_both_delivered() {
    let (mut sender, mut receiver) = sessions(10);
    let first = bytes_of(25);
    let second: Vec<u8> = bytes_of(35).into_iter().rev().collect();
    let a = sender.send(&first, true).unwrap();
    let b = sender.send(&second, true).unwrap();
    assert_eq!(receiver.receive(&b[3]).unwrap(), None);
    assert_eq!(receiver.receive(&a[2]).unwrap(), None);
    assert_eq!(receiver.receive(&b[0]).unwrap(), None);
    assert_eq!(receiver.receive(&a[0]).unwrap(), None);
    assert_eq!(receiver.receive(&b[2]).unwrap(), None);
    assert_eq!(receiver.receive(&a[1]).unwrap(), Some(first));
    assert_eq!(receiver.receive(&b[1]).unwrap(), Some(second));
}

#[test]
fn a_duplicate_packet_is_refused_and_the_message_still_arrives() {
    let (mut sender, mut receiver) = sessions(10);
    let payload = bytes_of(35);
    let wires = sender.send(&payload, true).unwrap();
    assert_eq!(receiver.receive(&wires[2]).unwrap(), None);
    assert!(matches!(receiver.receive(&wires[2]), Err(ErrorReceivingData::MalformedPacket)));
    assert_eq!(receiver.receive(&wires[3]).unwrap(), None);
    assert_eq!(receiver.receive(&wires[1]).unwrap(), None);
    assert_eq!(receiver.receive(&wires[0]).unwrap(), Some(payload));
}

#[test]
fn any_flipped_bit_of_the_content_hash_is_an_integrity_failure() {
    let (mut sender, mut receiver) = sessions(100);
    let wires = sender.send(b"payload under a digest", true).unwrap();
    let wire = &wires[0];
    for bit in 0..256 {
        let mut tampered = wire.clone();
        tampered[22 + bit / 8] ^= 1 << (bit % 8);
        assert!(matches!(receiver.receive(&tampered), Err(ErrorReceivingData::IntegrityFailure)));
    }
    assert_eq!(receiver.receive(wire).unwrap(), Some(b"payload under a digest".to_vec()));
}

#[test]
fn any_flipped_bit_of_the_sealed_payload_is_an_integrity_failure() {
    let (mut sender, mut receiver) = sessions(100);
    let wires = sender.send(b"payload under a digest", true).unwrap();
    let wire = &wires[0];
    for bit in 0..((wire.len() - STREAM_HEADER_LEN) * 8) {
        let mut tampered = wire.clone();
        tampered[STREAM_HEADER_LEN + bit / 8] ^= 1 << (bit % 8);
        assert!(matches!(receiver.receive(&tampered), Err(ErrorReceivingData::IntegrityFailure)));
    }
}

#[test]
fn a_flipped_nonce_passes_the_digest_and_fails_authentication() {
    let (mut sender, mut receiver) = sessions(100);
    let wires = sender.send(b"payload under a digest", true).unwrap();
    for bit in 0..96 {
        let mut tampered = wires[0].clone();
        tampered[10 + bit / 8] ^= 1 << (bit % 8);
        assert!(matches!(
            receiver.receive(&tampered),
            Err(ErrorReceivingData::AuthenticationFailure)
        ));
    }
}

#[test]
fn a_forged_payload_with_a_matching_digest_fails_authentication() {
    let (mut sender, receiver_session) = sessions(100);
    let _ = receiver_session;
    let wires = sender.send(b"payload under a digest", true).unwrap();
    let channel = pq_channel::channel::SecureChannel::new(
        SessionKey::from_bytes([0x5A; 32]),
        Role::Responder,
    );
    match Packet::decode(&wires[0]).unwrap() {
        Packet::SingleMessage(mut p) => {
            p.data[0] ^= 1;
            let digest = sha3_256(&p.data);
            p.hash.copy_from_slice(&digest);
            let r = accept(&channel, &Packet::SingleMessage(p));
            assert!(matches!(r, Err(ErrorReceivingData::AuthenticationFailure)));
        },
        _ => panic!("not a single message"),
    }
}

#[test]
fn a_packet_under_another_key_fails_authentication() {
    let mut sender = Session::new(SessionKey::from_bytes([1; 32]), Role::Initiator, 100);
    let mut receiver = Session::new(SessionKey::from_bytes([2; 32]), Role::Responder, 100);
    let wires = sender.send(b"secret", true).unwrap();
    assert!(matches!(
        receiver.receive(&wires[0]),
        Err(ErrorReceivingData::AuthenticationFailure)
    ));
}

#[test]
fn bytes_that_are_no_packet_are_malformed() {
    let (_, mut receiver) = sessions(100);
    assert!(matches!(receiver.receive(&[]), Err(ErrorReceivingData::MalformedPacket)));
    assert!(matches!(receiver.receive(&[0u8; 54]), Err(ErrorReceivingData::MalformedPacket)));
    assert!(matches!(receiver.receive(&[0xFFu8; 100]), Err(ErrorReceivingData::MalformedPacket)));
}

#[test]
fn sending_fails_cleanly_where_the_payload_cannot_be_split() {
    let (mut sender, mut receiver) = sessions(0);
    assert!(matches!(sender.send(b"x", true), Err(ErrorSendingData::ErrorSendingData)));
    let wires = sender.send(b"", true).unwrap();
    assert_eq!(wires.len(), 1);
    assert_eq!(receiver.receive(&wires[0]).unwrap(), Some(Vec::new()));
}

#[test]
fn the_session_outlives_only_some_errors() {
    assert!(survives(ErrorReceivingData::MalformedPacket, true));
    assert!(survives(ErrorReceivingData::MalformedPacket, false));
    assert!(survives(ErrorReceivingData::IntegrityFailure, true));
    assert!(!survives(ErrorReceivingData::IntegrityFailure, false));
    assert!(!survives(ErrorReceivingData::AuthenticationFailure, true));
    assert!(!survives(ErrorReceivingData::AuthenticationFailure, false));
    assert!(!survives(ErrorReceivingData::ErrorReceivingData, true));
    assert!(!survives(ErrorReceivingData::ErrorReceivingData, false));
}

#[test]
fn a_file_travels_in_one_packet_under_its_name() {
    let (mut sender, mut receiver) = sessions(1000);
    let name = pq_channel::packets::filename_field(b"notes.txt").unwrap();
    let contents = bytes_of(700);
    let wire = sender.send_file(name, &contents, true).unwrap();
    assert_eq!(wire.len(), 310 + 700 + TAG_LEN);
    match Packet::decode(&wire).unwrap() {
        Packet::FileMessage(p) => {
            assert_eq!(p.req_type, 2);
            assert_eq!(&p.filename[..9], b"notes.txt");
            assert_eq!(&p.filename[9..], &[0u8; 247][..]);
            assert_eq!(p.hash.to_vec(), sha3_256(&p.data));
        },
        _ => panic!("not a file message"),
    }
    assert_eq!(receiver.receive(&wire).unwrap(), Some(contents));
}

#[test]
fn a_file_over_the_budget_is_refused() {
    let (mut sender, _) = sessions(10);
    let name = pq_channel::packets::filename_field(b"big.bin").unwrap();
    let r = sender.send_file(name, &bytes_of(11), true);
    assert!(matches!(r, Err(ErrorSendingData::ErrorSendingData)));
    assert!(sender.send_file(name, &bytes_of(10), true).is_ok());
}

#[test]
fn file_names_fill_a_field_of_fixed_width() {
    let field = pq_channel::packets::filename_field(b"").unwrap();
    assert_eq!(field, [0u8; 256]);
    let longest = vec![b'a'; 256];
    assert_eq!(pq_channel::packets::filename_field(&longest).unwrap().to_vec(), longest);
    assert!(pq_channel::packets::filename_field(&vec![b'a'; 257]).is_none());
}

#[test]
fn the_announced_artifact_length_is_bounded_before_it_is_believed() {
    let message = encode_artifact(&bytes_of(1568)).unwrap();
    assert_eq!(announced_message_length(&message[..4]), Ok(1568 + 36));
    assert_eq!(announced_message_length(&[0, 0, 0, 0]), Ok(36));
    assert_eq!(announced_message_length(&[1, 0, 0, 0]), Ok(MAX_ARTIFACT_LEN + 36));
    assert_eq!(announced_message_length(&[1, 0, 0, 1]), Err(HandShakeError::HandShakeError));
    assert_eq!(
        announced_message_length(&[0xFF, 0xFF, 0xFF, 0xFF]),
        Err(HandShakeError::HandShakeError)
    );
}

#[test]
fn an_artifact_over_the_ceiling_is_not_sent() {
    let r = encode_artifact(&vec![0u8; MAX_ARTIFACT_LEN + 1]);
    assert!(matches!(r, Err(SendPKError::SendPKError)));
    let keypair = KeyPair { public: vec![0u8; MAX_ARTIFACT_LEN + 1], secret: vec![1] };
    assert!(matches!(initiate(keypair), Err(SendPKError::SendPKError)));
    let at_the_ceiling = encode_artifact(&vec![7u8; MAX_ARTIFACT_LEN]).unwrap();
    assert_eq!(at_the_ceiling.len(), MAX_ARTIFACT_LEN + ARTIFACT_OVERHEAD);
    assert_eq!(decode_artifact(&at_the_ceiling).unwrap().len(), MAX_ARTIFACT_LEN);
}
