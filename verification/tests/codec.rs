//! Round-trip, block-count, cross-key, and sign/verify behaviour of the
//! asymmetric block codec, exercised against the real primitive.

use digitalni_potpis::digest::ShaHash;
use digitalni_potpis::errors::CryptoError;
use digitalni_potpis::rsa::EncryptRsa;

const BLOCK: usize = 256;
const CAP: usize = BLOCK - 11;

fn expected_len(input: usize) -> usize {
    if input == 0 {
        0
    } else {
        BLOCK * ((input - 1) / CAP + 1)
    }
}

fn pattern(len: usize) -> Vec<u8> {
    (0..len).map(|i| (i % 251) as u8).collect()
}

#[test]
fn round_trip_public_then_private() {
    let key = EncryptRsa::generate().unwrap();
    for len in [0usize, 1, 2, 244, 245, 246, 490, 491, 1000] {
        let data = pattern(len);
        let ct = key.public_encrypt(&data).unwrap();
        assert_eq!(ct.len(), expected_len(len));
        let pt = key.private_decrypt(&ct).unwrap();
        assert_eq!(pt, data);
    }
}

#[test]
fn round_trip_private_then_public() {
    let key = EncryptRsa::generate().unwrap();
    for len in [0usize, 1, 244, 245, 246, 1000] {
        let data = pattern(len);
        let ct = key.private_encrypt(&data).unwrap();
        assert_eq!(ct.len(), expected_len(len));
        let pt = key.public_decrypt(&ct).unwrap();
        assert_eq!(pt, data);
    }
}

#[test]
fn block_count_law_exact_values() {
    let key = EncryptRsa::generate().unwrap();
    // empty input is owed an empty success
    assert_eq!(key.public_encrypt(&[]), Ok(Vec::new()));
    assert_eq!(key.private_encrypt(&[]), Ok(Vec::new()));
    assert_eq!(key.public_encrypt(&[7u8]).unwrap().len(), 256);
    assert_eq!(key.public_encrypt(&pattern(245)).unwrap().len(), 256);
    assert_eq!(key.public_encrypt(&pattern(246)).unwrap().len(), 512);
    assert_eq!(key.private_encrypt(&pattern(735)).unwrap().len(), 768);
    assert_eq!(key.private_encrypt(&pattern(736)).unwrap().len(), 1024);
}

#[test]
fn cross_key_decryption_fails() {
    let key_a = EncryptRsa::generate().unwrap();
    let key_b = EncryptRsa::generate().unwrap();
    let data = pattern(300);
    let ct = key_a.public_encrypt(&data).unwrap();
    assert_eq!(key_b.private_decrypt(&ct), Err(CryptoError::DecryptionError));
    let ct = key_a.private_encrypt(&data).unwrap();
    assert_eq!(key_b.public_decrypt(&ct), Err(CryptoError::DecryptionError));
}

#[test]
fn decrypt_rejects_partial_block() {
    let key = EncryptRsa::generate().unwrap();
    let ct = key.public_encrypt(&pattern(10)).unwrap();
    assert_eq!(
        key.private_decrypt(&ct[..ct.len() - 1]),
        Err(CryptoError::DecryptionError)
    );
    assert_eq!(key.public_decrypt(&[0u8; 17]), Err(CryptoError::DecryptionError));
}

#[test]
fn sign_and_verify() {
    let key = EncryptRsa::generate().unwrap();
    let data = pattern(1234);
    let other = pattern(1235);
    let sig = key.sign(&data).unwrap();
    assert_eq!(sig.len(), 256);
    assert_eq!(key.verify_data(&data, &sig), Ok(true));
    assert_eq!(key.verify_data(&other, &sig), Ok(false));
    let other_sig = key.sign(&other).unwrap();
    assert_eq!(key.verify_data(&data, &other_sig), Ok(false));
}

#[test]
fn verify_against_digest() {
    let key = EncryptRsa::generate().unwrap();
    let data = b"payload".to_vec();
    let sig = key.sign(&data).unwrap();
    let hash = ShaHash::hash(&data).unwrap();
    assert_eq!(key.verify(&hash, &sig), Ok(true));
    let wrong = ShaHash::hash(b"other payload").unwrap();
    assert_eq!(key.verify(&wrong, &sig), Ok(false));
}

#[test]
fn key_loading_is_idempotent() {
    let key = EncryptRsa::generate().unwrap();
    let pem = key.private_key_to_pem().unwrap();
    let first = EncryptRsa::from_pem(&pem).unwrap();
    let second = EncryptRsa::from_pem(&pem).unwrap();
    let data = pattern(600);
    let ct1 = first.private_encrypt(&data).unwrap();
    let ct2 = second.private_encrypt(&data).unwrap();
    assert_eq!(ct1, ct2);
    assert_eq!(key.private_encrypt(&data).unwrap(), ct1);
}

#[test]
fn reloaded_key_pair_signs_and_verifies() {
    let key = EncryptRsa::generate().unwrap();
    let private_pem = key.private_key_to_pem().unwrap();
    let public_pem = key.public_key_to_pem().unwrap();
    assert!(!public_pem.is_empty());
    let reloaded = EncryptRsa::from_pem(&private_pem).unwrap();
    let payload = b"data";
    let sig = reloaded.sign(payload).unwrap();
    assert_eq!(sig.len(), 256);
    assert_eq!(reloaded.verify_data(payload, &sig), Ok(true));
    assert_eq!(key.verify_data(payload, &sig), Ok(true));
    let mut tampered = sig.clone();
    tampered[100] ^= 0x01;
    let lenient = match reloaded.verify_data(payload, &tampered) {
        Ok(b) => b,
        Err(_) => false,
    };
    assert!(!lenient);
}

#[test]
fn rejects_malformed_key_material() {
    assert_eq!(
        EncryptRsa::from_pem(b"not a pem document").map(|_| ()),
        Err(CryptoError::KeyParseError)
    );
}
