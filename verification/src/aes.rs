//! Symmetric cipher wrapper: single-call encryption and decryption of a
//! complete byte buffer under one cipher mode, key, and optional
//! initialization vector. The underlying primitive handles arbitrary-length
//! input through its own internal padding, so no segmentation is needed.

use vstd::prelude::*;

use openssl::symm::Cipher;

use crate::errors::CryptoError;
use crate::util::opt_view;

verus! {

/// The cipher modes the wrapper offers; the application default is the
/// 256-bit variant in CBC mode.
#[derive(Debug, Clone, Copy, PartialEq, Eq, Structural)]
pub enum CipherKind {
    Aes128Cbc,
    Aes192Cbc,
    Aes256Cbc,
}

/// The key length, in bytes, a cipher mode requires.
pub open spec fn cipher_key_len(kind: CipherKind) -> nat {
    match kind {
        CipherKind::Aes128Cbc => 16,
        CipherKind::Aes192Cbc => 24,
        CipherKind::Aes256Cbc => 32,
    }
}

/// Whether an optional IV has the exact length the CBC modes require; a
/// missing IV stands for the all-zero IV and is always acceptable. An IV of
/// another length is excluded outright: the primitive asserts on a short
/// one rather than reporting an error.
pub open spec fn iv_len_ok(iv: Option<Seq<u8>>) -> bool {
    match iv {
        Some(v) => v.len() == 16,
        None => true,
    }
}

/// The ciphertext the symmetric primitive produces for `plain` under the
/// given cipher mode, key, and optional IV; a missing IV stands for the
/// all-zero IV. CBC under a fixed key and IV is deterministic, so the
/// ciphertext is a function of these arguments alone; its value is pinned
/// only by the primitive.
pub uninterp spec fn cipher_ct_of(
    kind: CipherKind,
    key: Seq<u8>,
    iv: Option<Seq<u8>>,
    plain: Seq<u8>,
) -> Seq<u8>;

/// Largest input, in bytes, one symmetric call accepts: the primitive
/// represents buffer sizes as a C `int` and allocates one extra cipher
/// block beside the input. Encryption leaves one further block of room so
/// that its own output stays within this bound for a later decrypt call.
pub const MAX_CIPHER_INPUT: usize = 0x7fff_ffef;

/// A symmetric cipher instance: mode, key bytes, and optional IV, immutable
/// after construction.
pub struct EncryptAes {
    cipher: CipherKind,
    key: Vec<u8>,
    initialization_vector: Option<Vec<u8>>,
}

impl EncryptAes {
    /// The cipher mode of this instance.
    pub closed spec fn cipher_kind(&self) -> CipherKind {
        self.cipher
    }

    /// The key bytes of this instance.
    pub closed spec fn key_view(&self) -> Seq<u8> {
        self.key@
    }

    /// The IV bytes of this instance, if one was given.
    pub closed spec fn iv_view(&self) -> Option<Seq<u8>> {
        opt_view(self.initialization_vector)
    }

    /// The key has the length the cipher mode accepts.
    pub open spec fn key_len_ok(&self) -> bool {
        self.key_view().len() == cipher_key_len(self.cipher_kind())
    }

    pub fn new(cipher: CipherKind, key: Vec<u8>, initialization_vector: Option<Vec<u8>>) -> (r:
        Self)
        ensures
            r.cipher_kind() == cipher,
            r.key_view() == key@,
            r.iv_view() == opt_view(initialization_vector),
    {
        Self { cipher, key, initialization_vector }
    }

    /// Encrypts a complete buffer in one call.
    ///
    /// Relies on `openssl::symm::encrypt`: under a well-sized IV it succeeds
    /// exactly when the key length fits the cipher mode; the output is the
    /// deterministic CBC ciphertext of the whole buffer, padded to the next
    /// multiple of the 16-byte cipher block. A missing IV is passed as the
    /// all-zero IV.
    #[verifier::external_body]
    pub fn encrypt(&self, data: &[u8]) -> (r: Result<Vec<u8>, CryptoError>)
        requires
            data@.len() + 16 <= MAX_CIPHER_INPUT,
            iv_len_ok(self.iv_view()),
        ensures
            r is Ok <==> self.key_len_ok(),
            r matches Ok(c) ==> c@ == cipher_ct_of(
                self.cipher_kind(),
                self.key_view(),
                self.iv_view(),
                data@,
            ) && c@.len() as int == data@.len() + 16 - (data@.len() as int % 16),
            r matches Err(e) ==> e == CryptoError::EncryptionError,
    {
        let cipher = match self.cipher {
            CipherKind::Aes128Cbc => Cipher::aes_128_cbc(),
            CipherKind::Aes192Cbc => Cipher::aes_192_cbc(),
            CipherKind::Aes256Cbc => Cipher::aes_256_cbc(),
        };
        let zero_iv = [0u8; 16];
        let iv = match &self.initialization_vector {
            Some(v) => v.as_slice(),
            None => &zero_iv,
        };
        match openssl::symm::encrypt(cipher, &self.key, Some(iv), data) {
            Ok(c) => Ok(c),
            Err(_) => Err(CryptoError::EncryptionError),
        }
    }

    /// Decrypts a complete buffer in one call.
    ///
    /// Relies on `openssl::symm::decrypt`: the ciphertext the primitive
    /// produced for a plaintext under this mode, key, and IV decrypts back
    /// to exactly that plaintext; conversely, a successful call means the
    /// input is the encryption of what came back, so corrupt padding, a
    /// buffer from another key, or a wrong key length is an error and no
    /// partial plaintext is ever returned. A missing IV is passed as the
    /// all-zero IV.
    #[verifier::external_body]
    pub fn decrypt(&self, encrypted_data: &[u8]) -> (r: Result<Vec<u8>, CryptoError>)
        requires
            encrypted_data@.len() <= MAX_CIPHER_INPUT,
            iv_len_ok(self.iv_view()),
        ensures
            forall|p: Seq<u8>|
                encrypted_data@ == #[trigger] cipher_ct_of(
                    self.cipher_kind(),
                    self.key_view(),
                    self.iv_view(),
                    p,
                ) ==> r is Ok && r->Ok_0@ == p,
            r matches Ok(p) ==> encrypted_data@ == cipher_ct_of(
                self.cipher_kind(),
                self.key_view(),
                self.iv_view(),
                p@,
            ),
            !self.key_len_ok() ==> r is Err,
            r matches Err(e) ==> e == CryptoError::DecryptionError,
    {
        let cipher = match self.cipher {
            CipherKind::Aes128Cbc => Cipher::aes_128_cbc(),
            CipherKind::Aes192Cbc => Cipher::aes_192_cbc(),
            CipherKind::Aes256Cbc => Cipher::aes_256_cbc(),
        };
        let zero_iv = [0u8; 16];
        let iv = match &self.initialization_vector {
            Some(v) => v.as_slice(),
            None => &zero_iv,
        };
        match openssl::symm::decrypt(cipher, &self.key, Some(iv), encrypted_data) {
            Ok(p) => Ok(p),
            Err(_) => Err(CryptoError::DecryptionError),
        }
    }
}

} // verus!
