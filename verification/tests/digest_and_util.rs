//! Digest values, hex rendering, and the line-break-stripping helper.

use digitalni_potpis::digest::{hex_encode, ShaHash};
use digitalni_potpis::util::strip_trailing_line_break;

#[test]
fn digest_matches_known_value() {
    let hash = ShaHash::hash(b"abc").unwrap();
    assert_eq!(
        hex_encode(&hash),
        "ba7816bf8f01cfea414140de5dae2223b00361a396177a9cb410ff61f20015ad"
    );
}

#[test]
fn digest_of_empty_input() {
    let hash = ShaHash::hash(b"").unwrap();
    assert_eq!(hash.len(), 32);
    assert_eq!(
        hex_encode(&hash),
        "e3b0c44298fc1c149afbf4c8996fb92427ae41e4649b934ca495991b7852b855"
    );
}

#[test]
fn digest_is_deterministic_and_input_sensitive() {
    let a = ShaHash::hash(b"input one").unwrap();
    let b = ShaHash::hash(b"input one").unwrap();
    let c = ShaHash::hash(b"input two").unwrap();
    assert_eq!(a, b);
    assert_ne!(a, c);
}

#[test]
fn hex_encoding_is_two_lowercase_digits_per_byte() {
    assert_eq!(hex_encode(&[]), "");
    assert_eq!(hex_encode(&[0x00]), "00");
    assert_eq!(hex_encode(&[0x0f, 0xa0, 0xff]), "0fa0ff");
}

#[test]
fn strips_one_trailing_line_break() {
    let cases: [(&[u8], &[u8]); 8] = [
        (b"key material\r\n", b"key material"),
        (b"key material\n", b"key material"),
        (b"key material\r", b"key material"),
        (b"key material", b"key material"),
        (b"\n", b""),
        (b"\r\n", b""),
        (b"", b""),
        (b"a\n\n", b"a\n"),
    ];
    for (input, expected) in cases {
        let mut buf = input.to_vec();
        strip_trailing_line_break(&mut buf);
        assert_eq!(buf, expected.to_vec());
    }
}
