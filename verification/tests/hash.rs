use imag::hash::{content_hash, to_hex};

#[test]
fn known_hashes() {
    assert_eq!(content_hash(""), "cbf29ce484222325");
    assert_eq!(content_hash("a"), "af63dc4c8601ec8c");
    assert_eq!(content_hash("foobar"), "85944171f73967e8");
}

#[test]
fn hash_is_over_the_bytes_of_the_text() {
    // U+00E9 is the two bytes c3 a9.
    let mut h: u64 = 0xcbf29ce484222325;
    for b in [0xc3u8, 0xa9u8] {
        h = (h ^ b as u64).wrapping_mul(0x100000001b3);
    }
    assert_eq!(content_hash("\u{00e9}"), format!("{:016x}", h));
}

#[test]
fn hex_has_sixteen_lowercase_digits() {
    assert_eq!(to_hex(0), "0000000000000000");
    assert_eq!(to_hex(u64::MAX), "ffffffffffffffff");
    assert_eq!(to_hex(0x0123456789abcdef), "0123456789abcdef");
    assert_eq!(to_hex(0xABCDEF), "0000000000abcdef");
}
