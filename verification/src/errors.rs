//! The error taxonomy every core operation reports through.

use vstd::prelude::*;

verus! {

/// One error kind per way a core operation can fail. Verification failure
/// is a normal boolean outcome, not an error, so it has no variant here.
#[derive(Debug, Clone, Copy, PartialEq, Eq, Structural)]
pub enum CryptoError {
    /// The asymmetric primitive could not produce a valid key pair.
    KeyGenerationError,
    /// A key file is absent or unreadable.
    KeyNotFoundError,
    /// Key bytes are not a valid encoded key, or the key is unusable
    /// for block segmentation.
    KeyParseError,
    /// The encryption primitive rejected its input.
    EncryptionError,
    /// A ciphertext block's padding is invalid for the given key half,
    /// or the ciphertext length is not a multiple of the block size.
    DecryptionError,
    /// A file read or write failed.
    IoError,
}

} // verus!
