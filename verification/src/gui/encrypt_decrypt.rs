//! Encryption/decryption view: loads the key material, picks a file, and
//! runs the symmetric or asymmetric codec over its bytes; the host reads
//! the file and writes the result.

use vstd::prelude::*;

use crate::aes::{cipher_ct_of, iv_len_ok, CipherKind, EncryptAes, MAX_CIPHER_INPUT};
use crate::errors::CryptoError;
use crate::rsa::{
    key_usable, pem_key_id, pem_key_size, pem_loadable, pub_ct_decrypts_to, pub_ct_matches,
    EncryptRsa,
};
use crate::util::opt_view;

verus! {

#[derive(Debug, Clone, Copy, PartialEq, Eq, Structural)]
pub enum EncryptDecryptMessage {
    LoadKeys,
    LoadFile,
    EncryptSymmetric,
    EncryptAsymmetric,
    DecryptSymmetric,
    DecryptAsymmetric,
}

/// The outside work the host must do after a decision: read the key files
/// and report through `load_keys`, open the file dialog and report through
/// `file_selected`, read the selected file and run `transform` on its bytes
/// (writing the result), or nothing.
#[derive(Debug, Clone, Copy, PartialEq, Eq, Structural)]
pub enum EncryptDecryptAction {
    LoadKeyMaterial,
    ChooseFile,
    TransformFile,
    Idle,
}

/// The decision the view takes for a message in a given state: key loading
/// and file selection are always allowed; a transformation needs its codec
/// loaded and a file selected.
pub open spec fn decide(
    has_symmetric: bool,
    has_asymmetric: bool,
    has_file: bool,
    message: EncryptDecryptMessage,
) -> EncryptDecryptAction {
    match message {
        EncryptDecryptMessage::LoadKeys => EncryptDecryptAction::LoadKeyMaterial,
        EncryptDecryptMessage::LoadFile => EncryptDecryptAction::ChooseFile,
        EncryptDecryptMessage::EncryptSymmetric | EncryptDecryptMessage::DecryptSymmetric => if (
        has_symmetric && has_file) {
            EncryptDecryptAction::TransformFile
        } else {
            EncryptDecryptAction::Idle
        },
        EncryptDecryptMessage::EncryptAsymmetric | EncryptDecryptMessage::DecryptAsymmetric => if (
        has_asymmetric && has_file) {
            EncryptDecryptAction::TransformFile
        } else {
            EncryptDecryptAction::Idle
        },
    }
}

pub struct EncryptDecryptView {
    selected_file: Option<String>,
    symmetric: Option<EncryptAes>,
    asymmetric: Option<EncryptRsa>,
    error: Option<CryptoError>,
}

impl EncryptDecryptView {
    /// The selected file path, if any.
    pub closed spec fn selected_file_view(&self) -> Option<Seq<char>> {
        opt_view(self.selected_file)
    }

    /// The loaded symmetric cipher instance, if any.
    pub closed spec fn symmetric_view(&self) -> Option<EncryptAes> {
        self.symmetric
    }

    /// The loaded asymmetric codec, if any.
    pub closed spec fn asymmetric_view(&self) -> Option<EncryptRsa> {
        self.asymmetric
    }

    /// The recorded failure, if any.
    pub closed spec fn error_view(&self) -> Option<CryptoError> {
        self.error
    }

    /// Any loaded asymmetric codec is usable, and any loaded symmetric
    /// instance carries a well-sized IV.
    pub open spec fn wf(&self) -> bool {
        (self.asymmetric_view() matches Some(k) ==> k.wf()) && (self.symmetric_view()
            matches Some(c) ==> iv_len_ok(c.iv_view()))
    }

    pub fn new() -> (r: Self)
        ensures
            r.selected_file_view() is None,
            r.symmetric_view() is None,
            r.asymmetric_view() is None,
            r.error_view() is None,
            r.wf(),
    {
        Self { selected_file: None, symmetric: None, asymmetric: None, error: None }
    }

    pub fn reset(&mut self)
        ensures
            final(self).selected_file_view() is None,
            final(self).symmetric_view() is None,
            final(self).asymmetric_view() is None,
            final(self).error_view() is None,
            final(self).wf(),
    {
        self.selected_file = None;
        self.symmetric = None;
        self.asymmetric = None;
        self.error = None;
    }

    /// Decides the outside work for a message; the state is untouched apart
    /// from clearing the previous failure.
    pub fn update(&mut self, message: EncryptDecryptMessage) -> (a: EncryptDecryptAction)
        ensures
            final(self).selected_file_view() == old(self).selected_file_view(),
            final(self).symmetric_view() == old(self).symmetric_view(),
            final(self).asymmetric_view() == old(self).asymmetric_view(),
            final(self).error_view() is None,
            a == decide(
                old(self).symmetric_view() is Some,
                old(self).asymmetric_view() is Some,
                old(self).selected_file_view() is Some,
                message,
            ),
    {
        self.error = None;
        match message {
            EncryptDecryptMessage::LoadKeys => EncryptDecryptAction::LoadKeyMaterial,
            EncryptDecryptMessage::LoadFile => EncryptDecryptAction::ChooseFile,
            EncryptDecryptMessage::EncryptSymmetric | EncryptDecryptMessage::DecryptSymmetric => {
                if self.symmetric.is_some() && self.selected_file.is_some() {
                    EncryptDecryptAction::TransformFile
                } else {
                    EncryptDecryptAction::Idle
                }
            }
            EncryptDecryptMessage::EncryptAsymmetric | EncryptDecryptMessage::DecryptAsymmetric => {
                if self.asymmetric.is_some() && self.selected_file.is_some() {
                    EncryptDecryptAction::TransformFile
                } else {
                    EncryptDecryptAction::Idle
                }
            }
        }
    }

    /// Records the outcome of the file dialog.
    pub fn file_selected(&mut self, path: Option<String>)
        ensures
            final(self).selected_file_view() == opt_view(path),
            final(self).symmetric_view() == old(self).symmetric_view(),
            final(self).asymmetric_view() == old(self).asymmetric_view(),
            final(self).error_view() == old(self).error_view(),
    {
        self.selected_file = path;
    }

    /// Takes the private-key PEM bytes and the secret-key bytes the host
    /// read (or their read failures) and loads both codecs: the asymmetric
    /// codec from the parsed key pair, the symmetric one under the default
    /// 256-bit CBC cipher with the secret key and no IV. The first failure
    /// is recorded and stops the loading, leaving the rest untouched.
    pub fn load_keys(
        &mut self,
        private_key_pem: Result<Vec<u8>, CryptoError>,
        secret_key: Result<Vec<u8>, CryptoError>,
    )
        requires
            old(self).wf(),
        ensures
            final(self).wf(),
            final(self).selected_file_view() == old(self).selected_file_view(),
            private_key_pem matches Err(e) ==> final(self).error_view() == Some(e) && final(self).asymmetric_view() == old(self).asymmetric_view() && final(self).symmetric_view()
                == old(self).symmetric_view(),
            private_key_pem matches Ok(pem) ==> (
            // unloadable key material: only the failure is recorded
            (!pem_loadable(pem@) ==> final(self).error_view() == Some(CryptoError::KeyParseError)
                && final(self).asymmetric_view() == old(self).asymmetric_view()
                && final(self).symmetric_view() == old(self).symmetric_view()) && (
            // otherwise the asymmetric codec is loaded from exactly these bytes
            pem_loadable(pem@) ==> ((final(self).asymmetric_view() matches Some(k) && k.wf()
                && k.key_id() == pem_key_id(pem@) && k.block_size() == pem_key_size(pem@)) && (
            match secret_key {
                Ok(sk) => (final(self).symmetric_view() matches Some(c) && c.cipher_kind()
                    == CipherKind::Aes256Cbc && c.key_view() == sk@ && c.iv_view() is None) && final(self).error_view() == old(self).error_view(),
                Err(e) => final(self).error_view() == Some(e) && final(self).symmetric_view()
                    == old(self).symmetric_view(),
            })))),
    {
        let pem = match private_key_pem {
            Ok(pem) => pem,
            Err(e) => {
                self.error = Some(e);
                return ;
            }
        };
        let key = match EncryptRsa::from_pem(pem.as_slice()) {
            Ok(k) => k,
            Err(e) => {
                self.error = Some(e);
                return ;
            }
        };
        self.asymmetric = Some(key);
        let sk = match secret_key {
            Ok(sk) => sk,
            Err(e) => {
                self.error = Some(e);
                return ;
            }
        };
        self.symmetric = Some(EncryptAes::new(CipherKind::Aes256Cbc, sk, None));
    }

    /// Runs the transformation a message asks for over the bytes the host
    /// read from the selected file, using the loaded codecs; the result is
    /// handed back for the host to persist, and a codec failure is recorded
    /// instead. Messages that ask for no transformation, or a codec that is
    /// not loaded, do nothing.
    pub fn transform(&mut self, message: EncryptDecryptMessage, data: &[u8]) -> (r: Option<
        Vec<u8>,
    >)
        requires
            old(self).wf(),
            data@.len() + 16 <= MAX_CIPHER_INPUT,
        ensures
            final(self).wf(),
            final(self).selected_file_view() == old(self).selected_file_view(),
            final(self).symmetric_view() == old(self).symmetric_view(),
            final(self).asymmetric_view() == old(self).asymmetric_view(),
            r is Some ==> final(self).error_view() == old(self).error_view(),
            message == EncryptDecryptMessage::EncryptAsymmetric ==> (old(
                self,
            ).asymmetric_view() matches Some(k) ==> (match r {
                Some(c) => pub_ct_matches(k.key_id(), k.block_size(), data@, c@),
                None => final(self).error_view() == Some(CryptoError::EncryptionError),
            }) && (key_usable(k.key_id()) ==> r is Some) && (data@.len() == 0 ==> r is Some)),
            message == EncryptDecryptMessage::DecryptAsymmetric ==> (old(
                self,
            ).asymmetric_view() matches Some(k) ==> (forall|d: Seq<u8>|
                #[trigger] pub_ct_matches(k.key_id(), k.block_size(), d, data@) ==> (r matches Some(p)
                    && p@ == d)) && (forall|d: Seq<u8>|
                #[trigger] pub_ct_decrypts_to(k.key_id(), k.block_size(), data@, d) ==> (r matches Some(p)
                    && p@ == d)) && (r matches Some(p) ==> pub_ct_decrypts_to(
                k.key_id(),
                k.block_size(),
                data@,
                p@,
            )) && (r is None ==> final(self).error_view() == Some(
                CryptoError::DecryptionError,
            ))),
            message == EncryptDecryptMessage::EncryptSymmetric ==> (old(
                self,
            ).symmetric_view() matches Some(c) ==> (match r {
                Some(ct) => ct@ == cipher_ct_of(c.cipher_kind(), c.key_view(), c.iv_view(), data@),
                None => final(self).error_view() == Some(CryptoError::EncryptionError),
            }) && (c.key_len_ok() ==> r is Some)),
            message == EncryptDecryptMessage::DecryptSymmetric ==> (old(
                self,
            ).symmetric_view() matches Some(c) ==> (forall|p: Seq<u8>|
                data@ == #[trigger] cipher_ct_of(c.cipher_kind(), c.key_view(), c.iv_view(), p)
                    ==> (r matches Some(q) && q@ == p)) && (r matches Some(q) ==> data@
                == cipher_ct_of(c.cipher_kind(), c.key_view(), c.iv_view(), q@)) && (r is None
                ==> final(self).error_view() == Some(CryptoError::DecryptionError))),
            message == EncryptDecryptMessage::LoadKeys || message == EncryptDecryptMessage::LoadFile
                ==> r is None && *final(self) == *old(self),
    {
        match message {
            EncryptDecryptMessage::EncryptAsymmetric => {
                match &self.asymmetric {
                    Some(k) => match k.public_encrypt(data) {
                        Ok(c) => Some(c),
                        Err(e) => {
                            self.error = Some(e);
                            None
                        }
                    },
                    None => None,
                }
            }
            EncryptDecryptMessage::DecryptAsymmetric => {
                match &self.asymmetric {
                    Some(k) => match k.private_decrypt(data) {
                        Ok(p) => Some(p),
                        Err(e) => {
                            self.error = Some(e);
                            None
                        }
                    },
                    None => None,
                }
            }
            EncryptDecryptMessage::EncryptSymmetric => {
                match &self.symmetric {
                    Some(c) => match c.encrypt(data) {
                        Ok(ct) => Some(ct),
                        Err(e) => {
                            self.error = Some(e);
                            None
                        }
                    },
                    None => None,
                }
            }
            EncryptDecryptMessage::DecryptSymmetric => {
                match &self.symmetric {
                    Some(c) => match c.decrypt(data) {
                        Ok(p) => Some(p),
                        Err(e) => {
                            self.error = Some(e);
                            None
                        }
                    },
                    None => None,
                }
            }
            EncryptDecryptMessage::LoadKeys | EncryptDecryptMessage::LoadFile => None,
        }
    }

    /// Records the outcome of writing a transformation result.
    pub fn write_finished(&mut self, result: Result<(), CryptoError>)
        ensures
            result is Ok ==> *final(self) == *old(self),
            result matches Err(e) ==> final(self).error_view() == Some(e) && final(self).selected_file_view() == old(self).selected_file_view() && final(self).symmetric_view() == old(self).symmetric_view() && final(self).asymmetric_view()
                == old(self).asymmetric_view(),
            old(self).wf() ==> final(self).wf(),
    {
        match result {
            Ok(()) => (),
            Err(e) => {
                self.error = Some(e);
            }
        }
    }

    /// The selected file path, for the host.
    pub fn selected_file(&self) -> (r: &Option<String>)
        ensures
            opt_view(*r) == self.selected_file_view(),
    {
        &self.selected_file
    }

    /// Whether the symmetric cipher is loaded, for the host to render.
    pub fn has_symmetric(&self) -> (r: bool)
        ensures
            r == (self.symmetric_view() is Some),
    {
        self.symmetric.is_some()
    }

    /// Whether the asymmetric codec is loaded, for the host to render.
    pub fn has_asymmetric(&self) -> (r: bool)
        ensures
            r == (self.asymmetric_view() is Some),
    {
        self.asymmetric.is_some()
    }

    /// The recorded failure, for the host to render.
    pub fn error(&self) -> (r: Option<CryptoError>)
        ensures
            r == self.error_view(),
    {
        self.error
    }
}

} // verus!
