use pq_channel::bytes::{append, copy_range, equal, get_u16, get_u32, get_u64, put_u16, put_u32, put_u64};
use pq_channel::channel::{Role, SealedMessage, SecureChannel};
use pq_channel::cipher::{decrypt, encrypt};
use pq_channel::errors::{DecryptError, EncryptError};
use pq_channel::hash::{digest, sha3_256, verify, DIGEST_LEN};
use pq_channel::hybrid::{decrypt_data, encrypt_data, encrypt_with_iv};
use pq_channel::kdf::{SessionKey, KEY_LEN};
use pq_channel::padding::{pad, unpad, CHUNK_SIZE};

fn unhex(text: &str) -> Vec<u8> {
    let digits: Vec<u8> = text
        .bytes()
        .map(|c| match c {
            b'0'..=b'9' => c - b'0',
            b'a'..=b'f' => c - b'a' + 10,
            _ => panic!("not a hex digit"),
        })
        .collect();
    digits.chunks(2).map(|pair| pair[0] * 16 + pair[1]).collect()
}

fn channel_of(byte: u8) -> SecureChannel {
    SecureChannel::new(SessionKey::from_bytes([byte; 32]), Role::Initiator)
}

#[test]
fn pad_appends_the_missing_count() {
    assert_eq!(pad(b"test", 8), b"test\x04\x04\x04\x04".to_vec());
    assert_eq!(pad(b"test", 2), b"test\x02\x02".to_vec());
    assert_eq!(pad(b"abc", 16), {
        let mut v = b"abc".to_vec();
        v.extend(vec![13u8; 13]);
        v
    });
}

#[test]
fn pad_of_a_whole_block_adds_a_full_block() {
    let data = [7u8; 16];
    let padded = pad(&data, CHUNK_SIZE);
    assert_eq!(padded.len(), 32);
    assert_eq!(&padded[..16], &data[..]);
    assert_eq!(&padded[16..], &[16u8; 16][..]);
}

#[test]
fn pad_takes_blocks_of_any_size() {
    let data = [7u8; 10];
    for block_size in [1usize, 3, 255, 256, 257, 300, 1000] {
        let padded = pad(&data, block_size);
        assert_eq!(padded.len() % block_size, 0);
        assert!(data.len() < padded.len() && padded.len() <= data.len() + block_size);
        assert_eq!(&padded[..10], &data[..]);
        let count = padded.len() - data.len();
        assert!(padded[10..].iter().all(|b| *b == (count % 256) as u8));
    }
    // 246 bytes are added for blocks of 256, 290 for blocks of 300.
    assert_eq!(pad(&data, 256)[10..], vec![246u8; 246][..]);
    assert_eq!(pad(&data, 300)[10..], vec![34u8; 290][..]);
}

#[test]
fn pad_of_nothing_is_one_block_of_padding() {
    assert_eq!(pad(&[], CHUNK_SIZE), vec![16u8; 16]);
    assert_eq!(pad(&[], 1), vec![1u8]);
}

#[test]
fn unpad_removes_what_pad_added() {
    for len in 0..50usize {
        let data: Vec<u8> = (0..len).map(|i| (i * 7) as u8).collect();
        let mut padded = pad(&data, CHUNK_SIZE);
        assert_eq!(padded.len() % CHUNK_SIZE, 0);
        assert_eq!(unpad(&mut padded), Ok(()));
        assert_eq!(padded, data);
    }
}

#[test]
fn unpad_rejects_empty_input() {
    let mut data: Vec<u8> = Vec::new();
    assert_eq!(unpad(&mut data), Err(()));
    assert!(data.is_empty());
}

#[test]
fn unpad_rejects_a_zero_count() {
    let mut data = vec![1u8, 2, 3, 0];
    assert_eq!(unpad(&mut data), Err(()));
    assert_eq!(data, vec![1u8, 2, 3, 0]);
}

#[test]
fn unpad_rejects_a_count_above_the_block_size() {
    let mut data = vec![17u8; 32];
    assert_eq!(unpad(&mut data), Err(()));
    assert_eq!(data, vec![17u8; 32]);
}

#[test]
fn unpad_rejects_a_count_above_the_length() {
    let mut data = vec![5u8, 5, 5];
    assert_eq!(unpad(&mut data), Err(()));
    assert_eq!(data, vec![5u8, 5, 5]);
}

#[test]
fn unpad_rejects_padding_bytes_that_differ() {
    let mut data = vec![9u8, 9, 3, 4, 3];
    assert_eq!(unpad(&mut data), Err(()));
    assert_eq!(data, vec![9u8, 9, 3, 4, 3]);
}

#[test]
fn unpad_accepts_a_buffer_that_is_all_padding() {
    let mut data = vec![3u8, 3, 3];
    assert_eq!(unpad(&mut data), Ok(()));
    assert!(data.is_empty());
}

#[test]
fn integers_are_written_most_significant_first() {
    let mut out = Vec::new();
    put_u16(&mut out, 0x0102);
    put_u32(&mut out, 0x0304_0506);
    put_u64(&mut out, 0x0708_090a_0b0c_0d0e);
    assert_eq!(out, vec![1u8, 2, 3, 4, 5, 6, 7, 8, 9, 10, 11, 12, 13, 14]);
    assert_eq!(get_u16(&out, 0), 0x0102);
    assert_eq!(get_u32(&out, 2), 0x0304_0506);
    assert_eq!(get_u64(&out, 6), 0x0708_090a_0b0c_0d0e);
}

#[test]
fn integers_round_trip_at_their_limits() {
    for v in [0u64, 1, 255, 256, u32::MAX as u64, u64::MAX - 1, u64::MAX] {
        let mut out = vec![0xEEu8];
        put_u64(&mut out, v);
        assert_eq!(out.len(), 9);
        assert_eq!(get_u64(&out, 1), v);
    }
    for v in [0u32, 1, 65535, 65536, u32::MAX] {
        let mut out = Vec::new();
        put_u32(&mut out, v);
        assert_eq!(get_u32(&out, 0), v);
    }
    for v in [0u16, 1, 255, 256, u16::MAX] {
        let mut out = Vec::new();
        put_u16(&mut out, v);
        assert_eq!(get_u16(&out, 0), v);
    }
}

#[test]
fn buffers_are_copied_and_compared() {
    let mut out = vec![1u8, 2];
    append(&mut out, &[3, 4, 5]);
    assert_eq!(out, vec![1u8, 2, 3, 4, 5]);
    assert_eq!(copy_range(&out, 1, 4), vec![2u8, 3, 4]);
    assert_eq!(copy_range(&out, 2, 2), Vec::<u8>::new());
    assert!(equal(&out, &[1, 2, 3, 4, 5]));
    assert!(!equal(&out, &[1, 2, 3, 4]));
    assert!(!equal(&out, &[1, 2, 3, 4, 6]));
    assert!(equal(&[], &[]));
}

#[test]
fn sha3_256_of_known_inputs() {
    assert_eq!(
        sha3_256(b""),
        unhex("a7ffc6f8bf1ed76651c14756a061d662f580ff4de43b49fa82d80a4b80f8434a")
    );
    assert_eq!(
        sha3_256(b"abc"),
        unhex("3a985da74fe225b2045c172d6bd390bd855f086e3e9d525b46bfe24511431532")
    );
}

#[test]
fn digest_is_the_hash_as_an_array() {
    let d = digest(b"abc");
    assert_eq!(d.len(), DIGEST_LEN);
    assert_eq!(d.to_vec(), sha3_256(b"abc"));
}

#[test]
fn verify_accepts_only_the_right_digest() {
    let data = b"some handshake artifact";
    let good = sha3_256(data);
    assert!(verify(data, &good));
    for bit in 0..(good.len() * 8) {
        let mut bad = good.clone();
        bad[bit / 8] ^= 1 << (bit % 8);
        assert!(!verify(data, &bad));
    }
    assert!(!verify(data, &good[..31]));
    assert!(!verify(b"some handshake artifacu", &good));
}

#[test]
fn encrypt_gives_every_message_its_own_nonce() {
    let mut cipher = channel_of(0x21);
    let text = b"the same text, again and again";
    let a = encrypt(&mut cipher, text).unwrap();
    let b = encrypt(&mut cipher, text).unwrap();
    let c = encrypt(&mut cipher, text).unwrap();
    assert_eq!(a.nonce, [0, 0, 0, 1, 0, 0, 0, 0, 0, 0, 0, 0]);
    assert_eq!(b.nonce, [0, 0, 0, 1, 0, 0, 0, 0, 0, 0, 0, 1]);
    assert_eq!(c.nonce, [0, 0, 0, 1, 0, 0, 0, 0, 0, 0, 0, 2]);
    assert_ne!(a.ciphertext, b.ciphertext);
    assert_ne!(b.ciphertext, c.ciphertext);
    assert_ne!(a.ciphertext, c.ciphertext);
    assert_eq!(cipher.messages_sealed(), 3);
    let mut seen = std::collections::HashSet::new();
    for _ in 0..2000 {
        let m = encrypt(&mut cipher, text).unwrap();
        assert!(seen.insert((m.nonce, m.ciphertext)));
    }
}

#[test]
fn decrypt_gives_back_what_encrypt_took() {
    let mut cipher = channel_of(0x22);
    for len in 0..70usize {
        let text: Vec<u8> = (0..len).map(|i| (i * 3 + 1) as u8).collect();
        let message = encrypt(&mut cipher, &text).unwrap();
        assert_eq!(message.ciphertext.len(), len + 16);
        if len > 0 {
            assert_ne!(&message.ciphertext[..len], &text[..]);
        }
        let decrypted = decrypt(&cipher, &message).unwrap();
        assert_eq!(message.ciphertext.len() - decrypted.len(), 16);
        assert_eq!(decrypted, text);
    }
}

#[test]
fn decrypt_matches_the_standard_vector() {
    let cipher = channel_of(0);
    let message = SealedMessage {
        nonce: [0; 12],
        ciphertext: unhex("cea7403d4d606b6e074ec5d3baf39d18d0d1c8a799996bf0265b98b5d48ab919"),
    };
    assert_eq!(decrypt(&cipher, &message).unwrap(), vec![0u8; 16]);
}

#[test]
fn decrypt_refuses_any_flipped_bit() {
    let mut cipher = channel_of(0x23);
    let text = b"attack at dawn";
    let message = encrypt(&mut cipher, text).unwrap();
    for bit in 0..(message.ciphertext.len() * 8) {
        let mut ciphertext = message.ciphertext.clone();
        ciphertext[bit / 8] ^= 1 << (bit % 8);
        let tampered = SealedMessage { nonce: message.nonce, ciphertext };
        assert!(matches!(decrypt(&cipher, &tampered), Err(DecryptError::AuthenticationFailed)));
    }
    for bit in 0..96 {
        let mut nonce = message.nonce;
        nonce[bit / 8] ^= 1 << (bit % 8);
        let tampered = SealedMessage { nonce, ciphertext: message.ciphertext.clone() };
        assert!(matches!(decrypt(&cipher, &tampered), Err(DecryptError::AuthenticationFailed)));
    }
    assert_eq!(decrypt(&cipher, &message).unwrap(), text.to_vec());
}

#[test]
fn decrypt_refuses_a_wrong_key() {
    let mut cipher = channel_of(0x24);
    let other = channel_of(0x25);
    let message = encrypt(&mut cipher, b"for one key only").unwrap();
    assert!(matches!(decrypt(&other, &message), Err(DecryptError::AuthenticationFailed)));
}

#[test]
fn decrypt_refuses_what_is_shorter_than_a_tag() {
    let cipher = channel_of(0x26);
    for len in 0..16 {
        let message = SealedMessage { nonce: [0; 12], ciphertext: vec![0u8; len] };
        assert!(matches!(decrypt(&cipher, &message), Err(DecryptError::AuthenticationFailed)));
    }
}

#[test]
fn hybrid_sealing_matches_the_standard_vectors() {
    let key = [0u8; 32];
    let iv = [0u8; 12];
    let sealed = encrypt_with_iv(&key, &iv, &[0u8; 16]).unwrap();
    assert_eq!(
        sealed,
        unhex("cea7403d4d606b6e074ec5d3baf39d18d0d1c8a799996bf0265b98b5d48ab919")
    );
    assert_eq!(decrypt_data(&key, &iv, &sealed).unwrap(), vec![0u8; 16]);
    let tag_only = encrypt_with_iv(&key, &iv, &[]).unwrap();
    assert_eq!(tag_only, unhex("530f8afbc74536b9a963b4f1c4cb738b"));
    assert_eq!(decrypt_data(&key, &iv, &tag_only).unwrap(), Vec::<u8>::new());
}

#[test]
fn hybrid_round_trips_with_a_fresh_vector() {
    let key = [0x42u8; 32];
    let text = b"Hello, this is a secret message!";
    let (iv, encrypted) = encrypt_data(&key, text).unwrap();
    assert_eq!(iv.len(), 12);
    assert_eq!(encrypted.len(), 48);
    assert_ne!(&encrypted[..32], &text[..]);
    assert_eq!(decrypt_data(&key, &iv, &encrypted).unwrap(), text.to_vec());
    let (other_iv, other) = encrypt_data(&key, text).unwrap();
    assert_ne!(iv, other_iv);
    assert_ne!(encrypted, other);
}

#[test]
fn hybrid_refuses_any_flipped_bit_of_the_vector() {
    let key = [0x42u8; 32];
    let text = b"Hello, this is a secret message!";
    let (iv, encrypted) = encrypt_data(&key, text).unwrap();
    for bit in 0..(iv.len() * 8) {
        let mut iv2 = iv.clone();
        iv2[bit / 8] ^= 1 << (bit % 8);
        assert!(matches!(
            decrypt_data(&key, &iv2, &encrypted),
            Err(DecryptError::AuthenticationFailed)
        ));
    }
}

#[test]
fn hybrid_refuses_any_flipped_bit_of_the_ciphertext_and_a_wrong_key() {
    let key = [0x42u8; 32];
    let (iv, encrypted) = encrypt_data(&key, b"sixteen byte msg").unwrap();
    for bit in 0..(encrypted.len() * 8) {
        let mut tampered = encrypted.clone();
        tampered[bit / 8] ^= 1 << (bit % 8);
        assert!(matches!(
            decrypt_data(&key, &iv, &tampered),
            Err(DecryptError::AuthenticationFailed)
        ));
    }
    assert!(matches!(
        decrypt_data(&[0x43u8; 32], &iv, &encrypted),
        Err(DecryptError::AuthenticationFailed)
    ));
}

#[test]
fn hybrid_refuses_empty_and_short_ciphertexts() {
    let key = [0x42u8; 32];
    let iv = [0u8; 12];
    for len in [0usize, 1, 15] {
        assert!(matches!(
            decrypt_data(&key, &iv, &vec![1u8; len]),
            Err(DecryptError::AuthenticationFailed)
        ));
    }
    assert!(matches!(
        decrypt_data(&key, &iv, &[1u8; 17]),
        Err(DecryptError::AuthenticationFailed)
    ));
}

#[test]
fn hybrid_refuses_keys_and_vectors_of_the_wrong_length() {
    let key = [0x42u8; 32];
    let (iv, encrypted) = encrypt_data(&key, b"text").unwrap();
    assert!(matches!(
        decrypt_data(&key[..31], &iv, &encrypted),
        Err(DecryptError::DecryptionError)
    ));
    assert!(matches!(
        decrypt_data(&key, &[0u8; 16], &encrypted),
        Err(DecryptError::DecryptionError)
    ));
    assert!(matches!(decrypt_data(&key, &[0u8; 16], &[]), Err(DecryptError::DecryptionError)));
    assert!(matches!(encrypt_data(&key[..16], b"text"), Err(EncryptError::EncryptionError)));
    assert!(matches!(encrypt_data(&[], b"text"), Err(EncryptError::EncryptionError)));
    assert!(matches!(
        encrypt_with_iv(&key, &[0u8; 16], b"text"),
        Err(EncryptError::EncryptionError)
    ));
}

#[test]
fn derive_depends_on_secret_and_label_only() {
    let secret = [9u8; 32];
    let a = pq_channel::kdf::derive(&secret, b"");
    let b = pq_channel::kdf::derive(&secret, b"");
    assert_eq!(a.as_bytes(), b.as_bytes());
    assert_eq!(a.as_bytes().len(), KEY_LEN);
    assert_ne!(&a.as_bytes()[..], &secret[..]);
    let labelled = pq_channel::kdf::derive(&secret, b"file transfer");
    assert_ne!(a.as_bytes(), labelled.as_bytes());
    let other = pq_channel::kdf::derive(&[8u8; 32], b"");
    assert_ne!(a.as_bytes(), other.as_bytes());
}

#[test]
fn derive_takes_secrets_of_any_length() {
    let short = pq_channel::kdf::derive(&[], b"label");
    let long = pq_channel::kdf::derive(&[1u8; 1000], b"label");
    assert_eq!(short.as_bytes().len(), 32);
    assert_ne!(short.as_bytes(), long.as_bytes());
}

#[test]
fn error_kinds_of_the_ciphers_are_distinct() {
    assert_ne!(DecryptError::DecryptionError, DecryptError::AuthenticationFailed);
    assert_eq!(EncryptError::EncryptionError.message(), "Error while trying to encrypt data");
    assert_eq!(DecryptError::DecryptionError.message(), "Error while trying to decrypt data");
    assert_eq!(
        DecryptError::AuthenticationFailed.message(),
        "Authentication of sealed data failed"
    );
}
