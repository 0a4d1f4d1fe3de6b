use dolphin::digest::{hex_of, sha256_hex};

#[test]
fn hex_of_writes_two_lowercase_digits_per_byte() {
    assert_eq!(hex_of(&[0x00, 0xab, 0x10, 0xff]), "00ab10ff");
    assert_eq!(hex_of(&[]), "");
}

#[test]
fn sha256_hex_is_the_hex_of_the_digest() {
    assert_eq!(
        sha256_hex(b"abc"),
        "ba7816bf8f01cfea414140de5dae2223b00361a396177a9cb410ff61f20015ad"
    );
    assert_eq!(sha256_hex(b"").len(), 64);
}
