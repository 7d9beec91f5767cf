//! Hashing view: picks a file, computes its digest, and keeps the hex
//! rendering that the host writes out and shows.

use vstd::prelude::*;

use crate::digest::{digest_of, hex_encode, hex_of, ShaHash};
use crate::errors::CryptoError;
use crate::util::opt_view;

verus! {

#[derive(Debug, Clone, Copy, PartialEq, Eq, Structural)]
pub enum HashMessage {
    LoadFile,
    Hash,
}

/// The outside work the host must do after a decision: open the file
/// dialog (then report through `file_selected`), read the selected file and
/// hand its bytes to `hash_computed`, or nothing.
#[derive(Debug, Clone, Copy, PartialEq, Eq, Structural)]
pub enum HashAction {
    ChooseFile,
    ComputeHash,
    Idle,
}

pub struct HashView {
    selected_file: Option<String>,
    file_hash: Option<String>,
    error: Option<CryptoError>,
}

impl HashView {
    /// The selected file path, if any.
    pub closed spec fn selected_file_view(&self) -> Option<Seq<char>> {
        opt_view(self.selected_file)
    }

    /// The hex digest on display, if any.
    pub closed spec fn file_hash_view(&self) -> Option<Seq<char>> {
        opt_view(self.file_hash)
    }

    /// The recorded failure, if any.
    pub closed spec fn error_view(&self) -> Option<CryptoError> {
        self.error
    }

    pub fn new() -> (r: Self)
        ensures
            r.selected_file_view() is None,
            r.file_hash_view() is None,
            r.error_view() is None,
    {
        Self { selected_file: None, file_hash: None, error: None }
    }

    pub fn reset(&mut self)
        ensures
            final(self).selected_file_view() is None,
            final(self).file_hash_view() is None,
            final(self).error_view() is None,
    {
        self.selected_file = None;
        self.file_hash = None;
        self.error = None;
    }

    /// Decides the outside work for a message. Choosing a file discards the
    /// digest on display; hashing is asked for only when a file is selected.
    pub fn update(&mut self, message: HashMessage) -> (a: HashAction)
        ensures
            final(self).error_view() is None,
            final(self).selected_file_view() == old(self).selected_file_view(),
            message == HashMessage::LoadFile ==> a == HashAction::ChooseFile && final(self).file_hash_view() is None,
            message == HashMessage::Hash ==> final(self).file_hash_view() == old(self).file_hash_view() && a == (if old(self).selected_file_view() is Some {
                HashAction::ComputeHash
            } else {
                HashAction::Idle
            }),
    {
        self.error = None;
        match message {
            HashMessage::LoadFile => {
                self.file_hash = None;
                HashAction::ChooseFile
            }
            HashMessage::Hash => {
                if self.selected_file.is_some() {
                    HashAction::ComputeHash
                } else {
                    HashAction::Idle
                }
            }
        }
    }

    /// Records the outcome of the file dialog.
    pub fn file_selected(&mut self, path: Option<String>)
        ensures
            final(self).selected_file_view() == opt_view(path),
            final(self).file_hash_view() == old(self).file_hash_view(),
            final(self).error_view() == old(self).error_view(),
    {
        self.selected_file = path;
    }

    /// Takes the bytes the host read from the selected file (or the read
    /// failure) and puts their digest, in hex, on display.
    pub fn hash_computed(&mut self, data: Result<Vec<u8>, CryptoError>)
        ensures
            final(self).selected_file_view() == old(self).selected_file_view(),
            data matches Err(e) ==> final(self).error_view() == Some(e) && final(self).file_hash_view() == old(self).file_hash_view(),
            data matches Ok(d) ==> final(self).error_view() == old(self).error_view() && final(self).file_hash_view() == Some(hex_of(digest_of(d@))),
    {
        match data {
            Ok(d) => {
                match ShaHash::hash(d.as_slice()) {
                    Ok(h) => {
                        self.file_hash = Some(hex_encode(h.as_slice()));
                    }
                    Err(e) => {
                        self.error = Some(e);
                    }
                }
            }
            Err(e) => {
                self.error = Some(e);
            }
        }
    }

    /// Records the outcome of writing the digest file: on failure the digest
    /// is not kept on display.
    pub fn write_finished(&mut self, result: Result<(), CryptoError>)
        ensures
            result is Ok ==> *final(self) == *old(self),
            result matches Err(e) ==> final(self).error_view() == Some(e) && final(self).file_hash_view() is None && final(self).selected_file_view() == old(self).selected_file_view(),
    {
        match result {
            Ok(()) => (),
            Err(e) => {
                self.error = Some(e);
                self.file_hash = None;
            }
        }
    }

    /// The selected file path, for the host.
    pub fn selected_file(&self) -> (r: &Option<String>)
        ensures
            opt_view(*r) == self.selected_file_view(),
    {
        &self.selected_file
    }

    /// The hex digest on display, for the host to write and render.
    pub fn file_hash(&self) -> (r: &Option<String>)
        ensures
            opt_view(*r) == self.file_hash_view(),
    {
        &self.file_hash
    }

    /// The recorded failure, for the host to render.
    pub fn error(&self) -> (r: Option<CryptoError>)
        ensures
            r == self.error_view(),
    {
        self.error
    }
}

} // verus!
