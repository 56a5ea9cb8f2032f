//! API keys.

use postbud::apikey::{generate, hash, key_from_bytes, PREFIX};

#[test]
fn generated_keys_are_prefixed_and_unique() {
    let a = generate();
    let b = generate();
    assert!(a.starts_with(PREFIX));
    assert_eq!(a.len(), PREFIX.len() + 64);
    assert_ne!(a, b);
}

#[test]
fn hashing_is_stable_and_ignores_surrounding_whitespace() {
    let key = generate();
    assert_eq!(hash(&key), hash(&format!("  {key}\n")));
}

#[test]
fn different_keys_hash_differently() {
    assert_ne!(hash(&generate()), hash(&generate()));
}

#[test]
fn a_key_is_its_bytes_in_lowercase_hex() {
    let mut bytes = [0u8; 32];
    for (i, b) in bytes.iter_mut().enumerate() {
        *b = (i as u8) * 8 + 7;
    }
    let key = key_from_bytes(&bytes);
    let hex: String = bytes.iter().map(|b| format!("{b:02x}")).collect();
    assert_eq!(key, format!("pb_live_{hex}"));
    assert_eq!(key_from_bytes(&[0xff; 32]), format!("pb_live_{}", "ff".repeat(32)));
}

#[test]
fn the_digest_is_sha256_of_the_trimmed_key() {
    assert_eq!(
        hash(" abc\t"),
        [
            0xba, 0x78, 0x16, 0xbf, 0x8f, 0x01, 0xcf, 0xea, 0x41, 0x41, 0x40, 0xde, 0x5d, 0xae,
            0x22, 0x23, 0xb0, 0x03, 0x61, 0xa3, 0x96, 0x17, 0x7a, 0x9c, 0xb4, 0x10, 0xff, 0x61,
            0xf2, 0x00, 0x15, 0xad
        ]
    );
}
