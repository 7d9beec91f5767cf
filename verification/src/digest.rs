//! Digest provider: a fixed-length fingerprint of a byte sequence, used as
//! the signed payload instead of the raw data, plus its hex rendering.

use vstd::prelude::*;

use crate::errors::CryptoError;

verus! {

/// The digest of a byte sequence. The digest function is deterministic and
/// produces 32 bytes; its value is pinned only by the digest primitive.
pub uninterp spec fn digest_of(data: Seq<u8>) -> Seq<u8>;

/// Relies on `openssl::sha::sha256`: a deterministic 32-byte digest of the
/// input bytes, a function of the input alone.
#[verifier::external_body]
fn sha256_digest(data: &[u8]) -> (r: Vec<u8>)
    ensures
        r@ == digest_of(data@),
        r@.len() == 32,
{
    openssl::sha::sha256(data).to_vec()
}

pub struct ShaHash;

impl ShaHash {
    /// Computes the digest of a byte buffer. There is no error path for
    /// well-formed input; the `Result` is kept for interface uniformity.
    pub fn hash(data: &[u8]) -> (r: Result<Vec<u8>, CryptoError>)
        ensures
            r matches Ok(h) && h@ == digest_of(data@) && h@.len() == 32,
    {
        Ok(sha256_digest(data))
    }
}

/// The character for one hex nibble, lower case.
pub open spec fn hex_digit(n: u8) -> char
    recommends
        n < 16,
{
    seq!['0', '1', '2', '3', '4', '5', '6', '7', '8', '9', 'a', 'b', 'c', 'd', 'e', 'f'][n as int]
}

/// The lower-case hex rendering of a byte sequence: two digits per byte,
/// high nibble first.
pub open spec fn hex_of(b: Seq<u8>) -> Seq<char> {
    Seq::new(b.len() * 2, |i: int| if i % 2 == 0 {
        hex_digit(b[i / 2] / 16)
    } else {
        hex_digit(b[i / 2] % 16)
    })
}

/// Relies on `hex::encode`: two lower-case hex digits per input byte, high
/// nibble first.
#[verifier::external_body]
pub fn hex_encode(data: &[u8]) -> (r: String)
    ensures
        r@ == hex_of(data@),
{
    hex::encode(data)
}

} // verus!
