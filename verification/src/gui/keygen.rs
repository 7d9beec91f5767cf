//! Key-generation view: requests creation of a secret key or of a key pair
//! and records a failure of either.

use vstd::prelude::*;

use crate::errors::CryptoError;

verus! {

#[derive(Debug, Clone, Copy, PartialEq, Eq, Structural)]
pub enum KeyGenMessage {
    GenerateSecretKey,
    GenerateKeyPair,
}

/// The outside work the host must do after a decision: generate and persist
/// a secret key, or generate and persist a key pair, then report back
/// through `op_finished`.
#[derive(Debug, Clone, Copy, PartialEq, Eq, Structural)]
pub enum KeyGenAction {
    CreateSecretKey,
    CreateKeyPair,
}

pub struct GenerateKeysView {
    error: Option<CryptoError>,
}

impl GenerateKeysView {
    /// The recorded failure, if any.
    pub closed spec fn error_view(&self) -> Option<CryptoError> {
        self.error
    }

    pub fn new() -> (r: Self)
        ensures
            r.error_view() is None,
    {
        Self { error: None }
    }

    /// Decides the outside work for a message; the state is untouched.
    pub fn update(&mut self, message: KeyGenMessage) -> (a: KeyGenAction)
        ensures
            *final(self) == *old(self),
            message == KeyGenMessage::GenerateSecretKey ==> a == KeyGenAction::CreateSecretKey,
            message == KeyGenMessage::GenerateKeyPair ==> a == KeyGenAction::CreateKeyPair,
    {
        match message {
            KeyGenMessage::GenerateSecretKey => KeyGenAction::CreateSecretKey,
            KeyGenMessage::GenerateKeyPair => KeyGenAction::CreateKeyPair,
        }
    }

    /// Records the outcome of the requested work: a failure is kept, a
    /// success leaves the state untouched.
    pub fn op_finished(&mut self, result: Result<(), CryptoError>)
        ensures
            result is Ok ==> *final(self) == *old(self),
            result matches Err(e) ==> final(self).error_view() == Some(e),
    {
        match result {
            Ok(()) => (),
            Err(e) => {
                self.error = Some(e);
            }
        }
    }

    /// The recorded failure, for the host to render.
    pub fn error(&self) -> (r: Option<CryptoError>)
        ensures
            r == self.error_view(),
    {
        self.error
    }
}

} // verus!
