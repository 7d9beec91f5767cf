//! Signing view: picks a file and a signature file, signs the file with the
//! loaded private key, and verifies a signature against the file. This is
//! the lenient verification path: any failure while verifying shows as "not
//! valid" rather than as an error.

use vstd::prelude::*;

use crate::digest::{digest_of, ShaHash};
use crate::errors::CryptoError;
use crate::rsa::{key_usable, priv_ct_decrypts_to, priv_ct_matches, EncryptRsa};
use crate::util::opt_view;

verus! {

#[derive(Debug, Clone, Copy, PartialEq, Eq, Structural)]
pub enum LoadFileType {
    File,
    Signature,
}

#[derive(Debug, Clone, Copy, PartialEq, Eq, Structural)]
pub enum SignMessage {
    LoadFile(LoadFileType),
    Sign,
    Verify,
}

/// The outside work the host must do after a decision: open a dialog for
/// the data file or the signature file, read the inputs for signing (then
/// call `perform_sign` and write the signature), read the inputs for
/// verification (then call `perform_verify`), or nothing.
#[derive(Debug, Clone, Copy, PartialEq, Eq, Structural)]
pub enum SignAction {
    ChooseFile,
    ChooseSignature,
    SignFile,
    VerifyFile,
    Idle,
}

pub struct SignView {
    selected_file: Option<String>,
    selected_signature: Option<String>,
    file_verified: Option<bool>,
    error: Option<CryptoError>,
}

impl SignView {
    /// The selected data file path, if any.
    pub closed spec fn selected_file_view(&self) -> Option<Seq<char>> {
        opt_view(self.selected_file)
    }

    /// The selected signature file path, if any.
    pub closed spec fn selected_signature_view(&self) -> Option<Seq<char>> {
        opt_view(self.selected_signature)
    }

    /// The verification verdict on display, if any.
    pub closed spec fn file_verified_view(&self) -> Option<bool> {
        self.file_verified
    }

    /// The recorded failure, if any.
    pub closed spec fn error_view(&self) -> Option<CryptoError> {
        self.error
    }

    pub fn new() -> (r: Self)
        ensures
            r.selected_file_view() is None,
            r.selected_signature_view() is None,
            r.file_verified_view() is None,
            r.error_view() is None,
    {
        Self { selected_file: None, selected_signature: None, file_verified: None, error: None }
    }

    pub fn reset(&mut self)
        ensures
            final(self).selected_file_view() is None,
            final(self).selected_signature_view() is None,
            final(self).file_verified_view() is None,
            final(self).error_view() is None,
    {
        self.selected_file = None;
        self.selected_signature = None;
        self.file_verified = None;
        self.error = None;
    }

    /// Decides the outside work for a message. Every message needs the key
    /// pair loaded first; the host reports how that went in `key_loaded`,
    /// and a load failure is recorded and stops the interaction.
    pub fn update(&mut self, message: SignMessage, key_loaded: Result<(), CryptoError>) -> (a:
        SignAction)
        ensures
            final(self).selected_file_view() == old(self).selected_file_view(),
            final(self).selected_signature_view() == old(self).selected_signature_view(),
            key_loaded matches Err(e) ==> a == SignAction::Idle && final(self).error_view() == Some(
                e,
            ) && final(self).file_verified_view() == old(self).file_verified_view(),
            key_loaded is Ok ==> final(self).error_view() is None && (match message {
                SignMessage::LoadFile(LoadFileType::File) => a == SignAction::ChooseFile && final(self).file_verified_view() is None,
                SignMessage::LoadFile(LoadFileType::Signature) => a == SignAction::ChooseSignature
                    && final(self).file_verified_view() is None,
                SignMessage::Sign => final(self).file_verified_view() == old(self).file_verified_view() && a == (if old(self).selected_file_view() is Some {
                    SignAction::SignFile
                } else {
                    SignAction::Idle
                }),
                SignMessage::Verify => final(self).file_verified_view() == old(self).file_verified_view() && a == (if old(self).selected_file_view() is Some && old(self).selected_signature_view() is Some {
                    SignAction::VerifyFile
                } else {
                    SignAction::Idle
                }),
            }),
    {
        self.error = None;
        match key_loaded {
            Ok(()) => (),
            Err(e) => {
                self.error = Some(e);
                return SignAction::Idle;
            }
        }
        match message {
            SignMessage::LoadFile(LoadFileType::File) => {
                self.file_verified = None;
                SignAction::ChooseFile
            }
            SignMessage::LoadFile(LoadFileType::Signature) => {
                self.file_verified = None;
                SignAction::ChooseSignature
            }
            SignMessage::Sign => {
                if self.selected_file.is_some() {
                    SignAction::SignFile
                } else {
                    SignAction::Idle
                }
            }
            SignMessage::Verify => {
                if self.selected_file.is_some() && self.selected_signature.is_some() {
                    SignAction::VerifyFile
                } else {
                    SignAction::Idle
                }
            }
        }
    }

    /// Records the outcome of a file dialog.
    pub fn file_selected(&mut self, which: LoadFileType, path: Option<String>)
        ensures
            final(self).file_verified_view() == old(self).file_verified_view(),
            final(self).error_view() == old(self).error_view(),
            which == LoadFileType::File ==> final(self).selected_file_view() == opt_view(path)
                && final(self).selected_signature_view() == old(self).selected_signature_view(),
            which == LoadFileType::Signature ==> final(self).selected_signature_view() == opt_view(
                path,
            ) && final(self).selected_file_view() == old(self).selected_file_view(),
    {
        match which {
            LoadFileType::File => {
                self.selected_file = path;
            }
            LoadFileType::Signature => {
                self.selected_signature = path;
            }
        }
    }

    /// Signs the bytes the host read from the selected file; the returned
    /// signature is handed back for the host to persist. A read or signing
    /// failure is recorded instead.
    pub fn perform_sign(&mut self, key: &EncryptRsa, data: Result<Vec<u8>, CryptoError>) -> (r:
        Option<Vec<u8>>)
        requires
            key.wf(),
        ensures
            final(self).selected_file_view() == old(self).selected_file_view(),
            final(self).selected_signature_view() == old(self).selected_signature_view(),
            final(self).file_verified_view() == old(self).file_verified_view(),
            data matches Ok(d) ==> (r matches Some(s) ==> priv_ct_matches(
                key.key_id(),
                key.block_size(),
                digest_of(d@),
                s@,
            ) && final(self).error_view() == old(self).error_view()),
            data is Ok && key_usable(key.key_id()) ==> r is Some,
            r is None ==> final(self).error_view() is Some,
            data is Err ==> r is None,
    {
        let d = match data {
            Ok(d) => d,
            Err(e) => {
                self.error = Some(e);
                return None;
            }
        };
        match key.sign(d.as_slice()) {
            Ok(s) => Some(s),
            Err(e) => {
                self.error = Some(e);
                None
            }
        }
    }

    /// Records the outcome of writing the signature file.
    pub fn write_finished(&mut self, result: Result<(), CryptoError>)
        ensures
            result is Ok ==> *final(self) == *old(self),
            result matches Err(e) ==> final(self).error_view() == Some(e) && final(self).selected_file_view() == old(self).selected_file_view() && final(self).selected_signature_view() == old(self).selected_signature_view() && final(self).file_verified_view() == old(self).file_verified_view(),
    {
        match result {
            Ok(()) => (),
            Err(e) => {
                self.error = Some(e);
            }
        }
    }

    /// Verifies the signature bytes against the file bytes the host read,
    /// and puts the verdict on display. Lenient path: a read failure or a
    /// decrypt failure shows as "not valid", never as an error; for any
    /// digest the signature actually signs, the verdict is `true` exactly
    /// when it is the digest of the file.
    pub fn perform_verify(
        &mut self,
        key: &EncryptRsa,
        file: Result<Vec<u8>, CryptoError>,
        signature: Result<Vec<u8>, CryptoError>,
    )
        requires
            key.wf(),
        ensures
            final(self).selected_file_view() == old(self).selected_file_view(),
            final(self).selected_signature_view() == old(self).selected_signature_view(),
            final(self).error_view() == old(self).error_view(),
            final(self).file_verified_view() is Some,
            file is Err || signature is Err ==> final(self).file_verified_view() == Some(false),
            file matches Ok(f) ==> (signature matches Ok(s) ==> forall|d: Seq<u8>|
                #[trigger] priv_ct_matches(key.key_id(), key.block_size(), d, s@) ==> final(self).file_verified_view() == Some(d == digest_of(f@))),
            file matches Ok(f) ==> (signature matches Ok(s) ==> (final(self).file_verified_view()
                == Some(true) <==> priv_ct_decrypts_to(
                key.key_id(),
                key.block_size(),
                s@,
                digest_of(f@),
            ))),
    {
        let f = match file {
            Ok(f) => f,
            Err(_) => {
                self.file_verified = Some(false);
                return ;
            }
        };
        let s = match signature {
            Ok(s) => s,
            Err(_) => {
                self.file_verified = Some(false);
                return ;
            }
        };
        match key.verify_data(f.as_slice(), s.as_slice()) {
            Ok(b) => {
                self.file_verified = Some(b);
            }
            Err(_) => {
                self.file_verified = Some(false);
            }
        }
    }

    /// The selected data file path, for the host.
    pub fn selected_file(&self) -> (r: &Option<String>)
        ensures
            opt_view(*r) == self.selected_file_view(),
    {
        &self.selected_file
    }

    /// The selected signature file path, for the host.
    pub fn selected_signature(&self) -> (r: &Option<String>)
        ensures
            opt_view(*r) == self.selected_signature_view(),
    {
        &self.selected_signature
    }

    /// The verdict on display, for the host to render.
    pub fn file_verified(&self) -> (r: Option<bool>)
        ensures
            r == self.file_verified_view(),
    {
        self.file_verified
    }

    /// The recorded failure, for the host to render.
    pub fn error(&self) -> (r: Option<CryptoError>)
        ensures
            r == self.error_view(),
    {
        self.error
    }
}

} // verus!
