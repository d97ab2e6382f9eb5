use aes_gcm::aead::{Aead, KeyInit};
use aes_gcm::{Aes256Gcm, Key, Nonce};
use base64::engine::general_purpose::STANDARD;
use base64::Engine;
use chat_ai_lib::cipher::{
    fresh_key, fresh_nonce, CipherSlot, InitStep, SecretCipher, KEY_LEN, NONCE_LEN, TAG_LEN,
};
use chat_ai_lib::error::CipherError;

const VECTOR_KEY: [u8; 32] = [
    181, 44, 80, 90, 55, 215, 142, 218, 93, 211, 79, 32, 194, 37, 64, 234, 27, 88, 150, 60, 248,
    229, 191, 143, 250, 133, 249, 242, 73, 37, 5, 180,
];
const VECTOR_NONCE: [u8; 12] = [81, 108, 51, 146, 157, 245, 163, 40, 79, 244, 99, 215];

fn cipher_with(key: &[u8]) -> SecretCipher {
    SecretCipher::from_key(key.to_vec()).unwrap()
}

#[test]
fn test_round_trip() {
    let cipher = cipher_with(&fresh_key());
    let samples = [
        "s",
        "sk-test-123",
        "https://api.example.com/v1/chat/completions",
        "密钥 with ünïcödé and emoji 🔑",
        " leading and trailing ",
        "line\nbreaks\r\nand\ttabs\0and nul",
    ];
    for sample in samples {
        let blob = cipher.encrypt(sample).unwrap();
        assert_eq!(cipher.decrypt(&blob), Ok(sample.to_string()));
    }
    let long = "x".repeat(100_000);
    let blob = cipher.encrypt(&long).unwrap();
    assert_eq!(cipher.decrypt(&blob), Ok(long));
    let blob = cipher.encrypt("").unwrap();
    assert_eq!(cipher.decrypt(&blob), Ok(String::new()));
}

#[test]
fn test_blob_is_base64_of_nonce_and_ciphertext() {
    let cipher = cipher_with(&fresh_key());
    let blob = cipher.encrypt("sk-test-123").unwrap();
    assert!(blob.iter().all(|b| b.is_ascii_alphanumeric() || b"+/=".contains(b)));
    let raw = STANDARD.decode(&blob).unwrap();
    assert_eq!(raw.len(), NONCE_LEN + "sk-test-123".len() + TAG_LEN);
    assert_eq!(blob.len(), (raw.len() + 2) / 3 * 4);
}

#[test]
fn test_known_answer() {
    let cipher = cipher_with(&VECTOR_KEY);
    let blob = cipher.encrypt_with_nonce(&VECTOR_NONCE, "").unwrap();
    assert_eq!(blob, b"UWwzkp31oyhP9GPXvcGsiE0zJFeh0mZPFox28A==".to_vec());
    assert_eq!(cipher.decrypt(&blob), Ok(String::new()));
}

#[test]
fn test_encrypt_agrees_with_the_cipher_crate() {
    let key = fresh_key();
    let nonce = fresh_nonce();
    let cipher = cipher_with(&key);
    let blob = cipher.encrypt_with_nonce(&nonce, "sk-test-123").unwrap();

    let direct = Aes256Gcm::new(Key::<Aes256Gcm>::from_slice(&key));
    let sealed = direct.encrypt(Nonce::from_slice(&nonce), "sk-test-123".as_bytes()).unwrap();
    let mut raw = nonce.clone();
    raw.extend_from_slice(&sealed);
    assert_eq!(blob, STANDARD.encode(&raw).into_bytes());
}

#[test]
fn test_encrypt_with_nonce_is_a_function_of_its_inputs() {
    let cipher = cipher_with(&VECTOR_KEY);
    let first = cipher.encrypt_with_nonce(&VECTOR_NONCE, "same text").unwrap();
    let second = cipher.encrypt_with_nonce(&VECTOR_NONCE, "same text").unwrap();
    assert_eq!(first, second);

    let other_nonce = [7u8; 12];
    let third = cipher.encrypt_with_nonce(&other_nonce, "same text").unwrap();
    assert_ne!(first, third);
    assert_eq!(cipher.decrypt(&third), Ok("same text".to_string()));
}

#[test]
fn test_nonce_of_wrong_length_is_refused() {
    let cipher = cipher_with(&VECTOR_KEY);
    assert_eq!(cipher.encrypt_with_nonce(&[0u8; 11], "x"), Err(CipherError::EncryptionFailed));
    assert_eq!(cipher.encrypt_with_nonce(&[0u8; 13], "x"), Err(CipherError::EncryptionFailed));
    assert_eq!(cipher.encrypt_with_nonce(&[], "x"), Err(CipherError::EncryptionFailed));
}

#[test]
fn test_nonces_are_fresh() {
    let cipher = cipher_with(&fresh_key());
    let first = cipher.encrypt("sk-test-123").unwrap();
    let second = cipher.encrypt("sk-test-123").unwrap();
    assert_ne!(first, second);
    let first_raw = STANDARD.decode(&first).unwrap();
    let second_raw = STANDARD.decode(&second).unwrap();
    assert_ne!(first_raw[..NONCE_LEN], second_raw[..NONCE_LEN]);
    assert_eq!(cipher.decrypt(&first), Ok("sk-test-123".to_string()));
    assert_eq!(cipher.decrypt(&second), Ok("sk-test-123".to_string()));

    assert_ne!(fresh_nonce(), fresh_nonce());
    assert_ne!(fresh_key(), fresh_key());
    assert_ne!(fresh_key(), vec![0u8; KEY_LEN]);
    assert_eq!(fresh_key().len(), 32);
    assert_eq!(fresh_nonce().len(), 12);
}

#[test]
fn test_tampering_is_detected() {
    let cipher = cipher_with(&fresh_key());
    let blob = cipher.encrypt("sk-test-123").unwrap();
    let raw = STANDARD.decode(&blob).unwrap();
    for at in 0..raw.len() {
        for bit in 0..8 {
            let mut damaged = raw.clone();
            damaged[at] ^= 1 << bit;
            let text = STANDARD.encode(&damaged).into_bytes();
            assert_eq!(
                cipher.decrypt(&text),
                Err(CipherError::DecryptionFailed),
                "byte {} bit {}",
                at,
                bit
            );
        }
    }
}

#[test]
fn test_wrong_key_fails() {
    let blob = cipher_with(&fresh_key()).encrypt("sk-test-123").unwrap();
    assert_eq!(cipher_with(&fresh_key()).decrypt(&blob), Err(CipherError::DecryptionFailed));
}

#[test]
fn test_invalid_ciphertext() {
    let cipher = cipher_with(&fresh_key());
    assert_eq!(cipher.decrypt(b"not base64!"), Err(CipherError::InvalidCiphertext));
    assert_eq!(cipher.decrypt(b"AAA"), Err(CipherError::InvalidCiphertext));
    assert_eq!(cipher.decrypt(b"AAAA\n"), Err(CipherError::InvalidCiphertext));
    assert_eq!(cipher.decrypt(&[0xFF, 0xFE]), Err(CipherError::InvalidCiphertext));
    assert_eq!(cipher.decrypt(b""), Err(CipherError::InvalidCiphertext));
    let short = STANDARD.encode([1u8; 11]).into_bytes();
    assert_eq!(cipher.decrypt(&short), Err(CipherError::InvalidCiphertext));
}

#[test]
fn test_blob_without_a_tag_does_not_decrypt() {
    let cipher = cipher_with(&fresh_key());
    let nonce_only = STANDARD.encode([1u8; 12]).into_bytes();
    assert_eq!(cipher.decrypt(&nonce_only), Err(CipherError::DecryptionFailed));
    let short_tag = STANDARD.encode([1u8; 27]).into_bytes();
    assert_eq!(cipher.decrypt(&short_tag), Err(CipherError::DecryptionFailed));
}

#[test]
fn test_plaintext_that_is_not_text() {
    let key = [
        0x31u8, 0xbd, 0xad, 0xd9, 0x66, 0x98, 0xc2, 0x04, 0xaa, 0x9c, 0xe1, 0x44, 0x8e, 0xa9,
        0x4a, 0xe1, 0xfb, 0x4a, 0x9a, 0x0b, 0x3c, 0x9d, 0x77, 0x3b, 0x51, 0xbb, 0x18, 0x22, 0x66,
        0x6b, 0x8f, 0x22,
    ];
    let nonce = [0x0du8, 0x18, 0xe0, 0x6c, 0x7c, 0x72, 0x5a, 0xc9, 0xe3, 0x62, 0xe1, 0xce];
    let ciphertext = [
        0xfau8, 0x43, 0x62, 0x18, 0x96, 0x61, 0xd1, 0x63, 0xfc, 0xd6, 0xa5, 0x6d, 0x8b, 0xf0,
        0x40, 0x5a,
    ];
    let tag = [
        0xd6u8, 0x36, 0xac, 0x1b, 0xbe, 0xdd, 0x5c, 0xc3, 0xee, 0x72, 0x7d, 0xc2, 0xab, 0x4a,
        0x94, 0x89,
    ];
    let mut raw = nonce.to_vec();
    raw.extend_from_slice(&ciphertext);
    raw.extend_from_slice(&tag);
    let blob = STANDARD.encode(&raw).into_bytes();
    assert_eq!(cipher_with(&key).decrypt(&blob), Err(CipherError::EncodingError));
}

#[test]
fn test_decrypt_reads_what_the_cipher_crate_wrote() {
    let key = fresh_key();
    let nonce = [9u8; 12];
    let direct = Aes256Gcm::new(Key::<Aes256Gcm>::from_slice(&key));
    let sealed = direct.encrypt(Nonce::from_slice(&nonce), "written elsewhere".as_bytes()).unwrap();
    let mut raw = nonce.to_vec();
    raw.extend_from_slice(&sealed);
    let blob = STANDARD.encode(&raw).into_bytes();
    assert_eq!(cipher_with(&key).decrypt(&blob), Ok("written elsewhere".to_string()));
}

#[test]
fn test_key_must_have_32_bytes() {
    assert!(SecretCipher::from_key(vec![0u8; 32]).is_ok());
    for len in [0usize, 1, 16, 31, 33, 64] {
        assert_eq!(SecretCipher::from_key(vec![0u8; len]).err(), Some(CipherError::KeyIoError));
    }
}

#[test]
fn test_slot_takes_the_first_key_only() {
    let mut slot = CipherSlot::new();
    assert!(!slot.is_ready());
    assert!(slot.cipher().is_none());
    assert_eq!(slot.init_step(true), InitStep::ReadKeyFile);
    assert_eq!(slot.init_step(false), InitStep::CreateKeyFile);

    assert_eq!(slot.adopt(vec![1u8; 31]), Err(CipherError::KeyIoError));
    assert!(!slot.is_ready());

    let first = fresh_key();
    assert_eq!(slot.adopt(first.clone()), Ok(()));
    assert!(slot.is_ready());
    assert_eq!(slot.init_step(true), InitStep::Ready);
    assert_eq!(slot.init_step(false), InitStep::Ready);
    let blob = slot.cipher().unwrap().encrypt("kept").unwrap();

    assert_eq!(slot.adopt(fresh_key()), Ok(()));
    assert_eq!(slot.adopt(vec![0u8; 3]), Ok(()));
    assert_eq!(slot.cipher().unwrap().decrypt(&blob), Ok("kept".to_string()));
    assert_eq!(cipher_with(&first).decrypt(&blob), Ok("kept".to_string()));
}
