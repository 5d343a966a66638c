//! Base64 in the store's dump format.

use cube_core::dump::{base64_decode, base64_encode};

#[test]
fn base64_known_vectors() {
    assert_eq!(base64_encode(b""), "");
    assert_eq!(base64_encode(b"f"), "Zg==");
    assert_eq!(base64_encode(b"fo"), "Zm8=");
    assert_eq!(base64_encode(b"foo"), "Zm9v");
    assert_eq!(base64_encode(b"foob"), "Zm9vYg==");
    assert_eq!(base64_encode(b"fooba"), "Zm9vYmE=");
    assert_eq!(base64_encode(b"foobar"), "Zm9vYmFy");
    assert_eq!(base64_encode(&[0xfb, 0xff]), "+/8=");
}

#[test]
fn base64_decodes_known_vectors() {
    assert_eq!(base64_decode(b"Zm9vYmE="), b"fooba".to_vec());
    assert_eq!(base64_decode(b"Zm9vYmFy"), b"foobar".to_vec());
    assert_eq!(base64_decode(b"Zg=="), b"f".to_vec());
    assert_eq!(base64_decode(b""), Vec::<u8>::new());
}

#[test]
fn base64_round_trips_every_byte() {
    let all: Vec<u8> = (0..=255u8).collect();
    for n in 0..all.len() {
        let text = base64_encode(&all[..n]);
        assert_eq!(text.len(), n.div_ceil(3) * 4);
        assert_eq!(base64_decode(text.as_bytes()), all[..n].to_vec());
    }
}

#[test]
fn base64_decode_is_lenient() {
    // Padding anywhere is skipped; bytes outside the alphabet count as 'A'.
    assert_eq!(base64_decode(b"Zm=9v"), b"foo".to_vec());
    assert_eq!(base64_decode(b"Z*=="), base64_decode(b"ZA=="));
    // A lone trailing digit yields no byte.
    assert_eq!(base64_decode(b"Zm9vY"), b"foo".to_vec());
}
