//! View state of the interactive front end, modelled as explicit state
//! machines: each view holds plain state and decides, per input message,
//! what outside work its host must do; the host performs the file dialogs,
//! reads and writes, and hands the plain results back.

pub mod encrypt_decrypt;
pub mod hash;
pub mod keygen;
pub mod navigation;
pub mod sign;
