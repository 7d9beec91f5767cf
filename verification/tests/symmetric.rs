//! Behaviour of the symmetric cipher wrapper and of key generation.

use digitalni_potpis::aes::{CipherKind, EncryptAes};
use digitalni_potpis::errors::CryptoError;
use digitalni_potpis::keygen::Keygen;

fn key_bytes(len: usize) -> Vec<u8> {
    (0..len).map(|i| (i * 7 + 3) as u8).collect()
}

#[test]
fn symmetric_round_trip_default_cipher() {
    let cipher = EncryptAes::new(CipherKind::Aes256Cbc, key_bytes(32), None);
    let ct = cipher.encrypt(b"test").unwrap();
    assert_ne!(ct, b"test".to_vec());
    assert_eq!(cipher.decrypt(&ct).unwrap(), b"test".to_vec());
}

#[test]
fn symmetric_encryption_is_deterministic_with_exact_lengths() {
    let cipher = EncryptAes::new(CipherKind::Aes256Cbc, key_bytes(32), Some(key_bytes(16)));
    let first = cipher.encrypt(b"test").unwrap();
    let second = cipher.encrypt(b"test").unwrap();
    assert_eq!(first, second);
    // padded to the next multiple of the 16-byte cipher block
    assert_eq!(first.len(), 16);
    assert_eq!(cipher.encrypt(&[0u8; 16]).unwrap().len(), 32);
    assert_eq!(cipher.encrypt(&[]).unwrap().len(), 16);
}


#[test]
fn symmetric_round_trip_with_iv() {
    let iv = key_bytes(16);
    for (kind, klen) in [
        (CipherKind::Aes128Cbc, 16usize),
        (CipherKind::Aes192Cbc, 24),
        (CipherKind::Aes256Cbc, 32),
    ] {
        let cipher = EncryptAes::new(kind, key_bytes(klen), Some(iv.clone()));
        let data = b"arbitrary-length input, longer than one cipher block".to_vec();
        let ct = cipher.encrypt(&data).unwrap();
        assert_eq!(cipher.decrypt(&ct).unwrap(), data);
    }
}

#[test]
fn symmetric_empty_input_round_trip() {
    let cipher = EncryptAes::new(CipherKind::Aes256Cbc, key_bytes(32), None);
    let ct = cipher.encrypt(&[]).unwrap();
    assert_eq!(cipher.decrypt(&ct).unwrap(), Vec::<u8>::new());
}

#[test]
fn wrong_key_length_is_an_encryption_error() {
    let cipher = EncryptAes::new(CipherKind::Aes256Cbc, key_bytes(5), None);
    assert_eq!(cipher.encrypt(b"test"), Err(CryptoError::EncryptionError));
    assert_eq!(cipher.decrypt(&[0u8; 16]), Err(CryptoError::DecryptionError));
}

#[test]
fn corrupt_ciphertext_is_a_decryption_error() {
    let cipher = EncryptAes::new(CipherKind::Aes256Cbc, key_bytes(32), None);
    let mut ct = cipher.encrypt(b"some plaintext bytes").unwrap();
    let last = ct.len() - 1;
    ct[last] ^= 0xff;
    assert_eq!(cipher.decrypt(&ct), Err(CryptoError::DecryptionError));
}

#[test]
fn generated_keys_have_the_requested_sizes() {
    let mut keygen = Keygen::default();
    let k128 = keygen.generate_128bit_key();
    let k192 = keygen.generate_192bit_key();
    let k256 = keygen.generate_256bit_key();
    assert_eq!(k128.len(), 16);
    assert_eq!(k192.len(), 24);
    assert_eq!(k256.len(), 32);
}

#[test]
fn generated_key_drives_the_default_cipher() {
    let key = Keygen::default().generate_256bit_key().to_vec();
    let cipher = EncryptAes::new(CipherKind::Aes256Cbc, key, None);
    let ct = cipher.encrypt(b"test").unwrap();
    assert_eq!(cipher.decrypt(&ct).unwrap(), b"test".to_vec());
}
