//! The view state machines: decisions per message, recorded outcomes, and
//! the full interactive scenarios driven through them.

use digitalni_potpis::aes::{CipherKind, EncryptAes};
use digitalni_potpis::digest::{hex_encode, ShaHash};
use digitalni_potpis::errors::CryptoError;
use digitalni_potpis::gui::encrypt_decrypt::{
    EncryptDecryptAction, EncryptDecryptMessage, EncryptDecryptView,
};
use digitalni_potpis::gui::hash::{HashAction, HashMessage, HashView};
use digitalni_potpis::gui::keygen::{GenerateKeysView, KeyGenAction, KeyGenMessage};
use digitalni_potpis::gui::navigation::{NavigationButtons, NavigationStateMessage};
use digitalni_potpis::gui::sign::{LoadFileType, SignAction, SignMessage, SignView};
use digitalni_potpis::rsa::EncryptRsa;

#[test]
fn navigation_starts_on_keygen_and_follows_updates() {
    let mut nav = NavigationButtons::new();
    assert!(matches!(nav.current_state, NavigationStateMessage::KeyGen));
    nav.update(NavigationStateMessage::Sign);
    assert!(matches!(nav.current_state, NavigationStateMessage::Sign));
    nav.update(NavigationStateMessage::Hashing);
    assert!(matches!(nav.current_state, NavigationStateMessage::Hashing));
}

#[test]
fn keygen_view_decides_and_records_failures() {
    let mut view = GenerateKeysView::new();
    assert_eq!(view.error(), None);
    assert_eq!(
        view.update(KeyGenMessage::GenerateSecretKey),
        KeyGenAction::CreateSecretKey
    );
    assert_eq!(
        view.update(KeyGenMessage::GenerateKeyPair),
        KeyGenAction::CreateKeyPair
    );
    view.op_finished(Ok(()));
    assert_eq!(view.error(), None);
    view.op_finished(Err(CryptoError::IoError));
    assert_eq!(view.error(), Some(CryptoError::IoError));
}

#[test]
fn hash_view_scenario() {
    let mut view = HashView::new();
    assert_eq!(view.update(HashMessage::Hash), HashAction::Idle);
    assert_eq!(view.update(HashMessage::LoadFile), HashAction::ChooseFile);
    view.file_selected(Some(String::from("input.bin")));
    assert_eq!(view.update(HashMessage::Hash), HashAction::ComputeHash);
    view.hash_computed(Ok(b"abc".to_vec()));
    let expected = hex_encode(&ShaHash::hash(b"abc").unwrap());
    assert_eq!(view.file_hash().as_deref(), Some(expected.as_str()));
    view.write_finished(Ok(()));
    assert_eq!(view.file_hash().as_deref(), Some(expected.as_str()));
    view.write_finished(Err(CryptoError::IoError));
    assert_eq!(view.error(), Some(CryptoError::IoError));
    assert_eq!(view.file_hash(), &None);
    view.reset();
    assert_eq!(view.selected_file(), &None);
    assert_eq!(view.error(), None);
}

#[test]
fn hash_view_records_read_failure() {
    let mut view = HashView::new();
    view.hash_computed(Err(CryptoError::IoError));
    assert_eq!(view.error(), Some(CryptoError::IoError));
    assert_eq!(view.file_hash(), &None);
}

#[test]
fn sign_view_requires_the_key_pair() {
    let mut view = SignView::new();
    let action = view.update(
        SignMessage::Sign,
        Err(CryptoError::KeyNotFoundError),
    );
    assert_eq!(action, SignAction::Idle);
    assert_eq!(view.error(), Some(CryptoError::KeyNotFoundError));
}

#[test]
fn sign_view_scenario() {
    let key = EncryptRsa::generate().unwrap();
    let mut view = SignView::new();

    assert_eq!(view.update(SignMessage::Sign, Ok(())), SignAction::Idle);
    assert_eq!(
        view.update(SignMessage::LoadFile(LoadFileType::File), Ok(())),
        SignAction::ChooseFile
    );
    view.file_selected(LoadFileType::File, Some(String::from("document")));
    assert_eq!(view.update(SignMessage::Sign, Ok(())), SignAction::SignFile);

    let payload = b"data".to_vec();
    let signature = view.perform_sign(&key, Ok(payload.clone())).unwrap();
    assert_eq!(signature.len(), 256);
    view.write_finished(Ok(()));
    assert_eq!(view.error(), None);

    assert_eq!(view.update(SignMessage::Verify, Ok(())), SignAction::Idle);
    assert_eq!(
        view.update(SignMessage::LoadFile(LoadFileType::Signature), Ok(())),
        SignAction::ChooseSignature
    );
    view.file_selected(LoadFileType::Signature, Some(String::from("document.sig")));
    assert_eq!(view.update(SignMessage::Verify, Ok(())), SignAction::VerifyFile);

    view.perform_verify(&key, Ok(payload.clone()), Ok(signature.clone()));
    assert_eq!(view.file_verified(), Some(true));

    let mut tampered = signature.clone();
    tampered[17] ^= 0x01;
    view.perform_verify(&key, Ok(payload.clone()), Ok(tampered));
    assert_eq!(view.file_verified(), Some(false));

    view.perform_verify(&key, Err(CryptoError::IoError), Ok(signature));
    assert_eq!(view.file_verified(), Some(false));
    assert_eq!(view.error(), None);
}

#[test]
fn sign_view_records_signing_failures() {
    let key = EncryptRsa::generate().unwrap();
    let mut view = SignView::new();
    let out = view.perform_sign(&key, Err(CryptoError::IoError));
    assert!(out.is_none());
    assert_eq!(view.error(), Some(CryptoError::IoError));
}

#[test]
fn encrypt_decrypt_view_decisions() {
    let mut view = EncryptDecryptView::new();
    assert_eq!(
        view.update(EncryptDecryptMessage::LoadKeys),
        EncryptDecryptAction::LoadKeyMaterial
    );
    assert_eq!(
        view.update(EncryptDecryptMessage::LoadFile),
        EncryptDecryptAction::ChooseFile
    );
    assert_eq!(
        view.update(EncryptDecryptMessage::EncryptAsymmetric),
        EncryptDecryptAction::Idle
    );
    assert_eq!(
        view.update(EncryptDecryptMessage::DecryptSymmetric),
        EncryptDecryptAction::Idle
    );
}

#[test]
fn encrypt_decrypt_view_scenario() {
    let key = EncryptRsa::generate().unwrap();
    let pem = key.private_key_to_pem().unwrap();
    let secret: Vec<u8> = (0..32).map(|i| i as u8).collect();

    let mut view = EncryptDecryptView::new();
    view.load_keys(Ok(pem), Ok(secret.clone()));
    assert_eq!(view.error(), None);
    assert!(view.has_symmetric());
    assert!(view.has_asymmetric());

    view.file_selected(Some(String::from("input.bin")));
    assert_eq!(
        view.update(EncryptDecryptMessage::EncryptAsymmetric),
        EncryptDecryptAction::TransformFile
    );

    let data = b"a payload that spans more than one asymmetric block \
                 when repeated often enough to exceed the capacity"
        .repeat(8);
    let ct = view
        .transform(EncryptDecryptMessage::EncryptAsymmetric, &data)
        .unwrap();
    assert_eq!(ct.len() % 256, 0);
    let pt = view
        .transform(EncryptDecryptMessage::DecryptAsymmetric, &ct)
        .unwrap();
    assert_eq!(pt, data);

    let sym_ct = view
        .transform(EncryptDecryptMessage::EncryptSymmetric, b"test")
        .unwrap();
    let sym_pt = view
        .transform(EncryptDecryptMessage::DecryptSymmetric, &sym_ct)
        .unwrap();
    assert_eq!(sym_pt, b"test".to_vec());

    // a fresh cipher instance under the same secret key reads the
    // ciphertext the view produced
    let standalone = EncryptAes::new(CipherKind::Aes256Cbc, secret, None);
    assert_eq!(standalone.decrypt(&sym_ct).unwrap(), b"test".to_vec());

    let bad = view.transform(EncryptDecryptMessage::DecryptAsymmetric, &ct[..255]);
    assert!(bad.is_none());
    assert_eq!(view.error(), Some(CryptoError::DecryptionError));

    view.reset();
    assert!(!view.has_symmetric());
    assert!(!view.has_asymmetric());
}

#[test]
fn encrypt_decrypt_view_records_load_failures() {
    let mut view = EncryptDecryptView::new();
    view.load_keys(Err(CryptoError::KeyNotFoundError), Ok(vec![0u8; 32]));
    assert_eq!(view.error(), Some(CryptoError::KeyNotFoundError));
    assert!(!view.has_asymmetric());

    view.load_keys(Ok(b"garbage".to_vec()), Ok(vec![0u8; 32]));
    assert_eq!(view.error(), Some(CryptoError::KeyParseError));
    assert!(!view.has_asymmetric());
    assert!(!view.has_symmetric());

    let key = EncryptRsa::generate().unwrap();
    let pem = key.private_key_to_pem().unwrap();
    view.load_keys(Ok(pem), Err(CryptoError::IoError));
    assert_eq!(view.error(), Some(CryptoError::IoError));
    assert!(view.has_asymmetric());
    assert!(!view.has_symmetric());
}
