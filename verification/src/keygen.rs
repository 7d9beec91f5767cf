//! Symmetric key generation: cryptographically random keys of the cipher
//! key sizes, drawn from the thread-local generator. Randomness is assumed
//! infallible, so there is no error path.

use vstd::prelude::*;

use rand::rngs::ThreadRng;
use rand::Rng;

verus! {

#[verifier::external_type_specification]
#[verifier::external_body]
pub struct ExThreadRng(ThreadRng);

/// A source of random key material.
#[derive(Default)]
pub struct Keygen {
    rng: ThreadRng,
}

impl Keygen {
    /// Relies on `rand::Rng::gen`: 16 random bytes. Nothing can be promised
    /// of a random value.
    #[verifier::external_body]
    pub fn generate_128bit_key(&mut self) -> [u8; 16] {
        self.rng.gen()
    }

    /// Relies on `rand::Rng::gen`: 24 random bytes. Nothing can be promised
    /// of a random value.
    #[verifier::external_body]
    pub fn generate_192bit_key(&mut self) -> [u8; 24] {
        self.rng.gen()
    }

    /// Relies on `rand::Rng::gen`: 32 random bytes. Nothing can be promised
    /// of a random value.
    #[verifier::external_body]
    pub fn generate_256bit_key(&mut self) -> [u8; 32] {
        self.rng.gen()
    }
}

} // verus!
