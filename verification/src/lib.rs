//! Cryptographic core of a digital-signature application: an RSA block
//! codec that segments arbitrary-length payloads into primitive-sized
//! blocks, the key-material lifecycle around it, sign/verify built from a
//! digest provider, and a symmetric cipher wrapper.

use vstd::prelude::*;

pub mod aes;
pub mod digest;
pub mod errors;
pub mod gui;
pub mod keygen;
pub mod rsa;
pub mod util;

use gui::encrypt_decrypt::EncryptDecryptMessage;
use gui::hash::HashMessage;
use gui::keygen::KeyGenMessage;
use gui::navigation::NavigationStateMessage;
use gui::sign::SignMessage;

verus! {

/// One input event of the application: a message for one of the views, a
/// navigation change, or a rendered error acknowledgement.
#[derive(Debug, Clone, Copy)]
pub enum Message {
    NavigationMessage(NavigationStateMessage),
    KeyGenMessage(KeyGenMessage),
    EncryptDecryptMessage(EncryptDecryptMessage),
    HashMessage(HashMessage),
    SignMessage(SignMessage),
    ErrorMessage,
}

} // verus!

