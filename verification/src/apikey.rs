//! API keys.
//!
//! A key is 32 bytes from the OS random source, so it is stored as a plain
//! SHA-256 digest rather than a password hash: there is no guessing 256
//! bits, and a fixed-length digest can carry a unique index.
//!
//! The key is shown exactly once, at creation; it cannot be recovered.

use vstd::prelude::*;
use rand::RngCore;
use sha2::{Digest, Sha256};
use crate::text;

verus! {

/// Prefix so a leaked key is recognizable in a log or a paste.
pub const PREFIX: &'static str = "pb_live_";

/// A lowercase hexadecimal digit.
pub open spec fn hex_digit(n: int) -> char {
    if n < 10 {
        text::digit_char(n)
    } else if n == 10 {
        'a'
    } else if n == 11 {
        'b'
    } else if n == 12 {
        'c'
    } else if n == 13 {
        'd'
    } else if n == 14 {
        'e'
    } else {
        'f'
    }
}

/// Each byte as two lowercase hexadecimal digits (`{:02x}`).
pub open spec fn hex_text(b: Seq<u8>) -> Seq<char>
    decreases b.len(),
{
    if b.len() == 0 {
        Seq::empty()
    } else {
        hex_text(b.drop_last()) + seq![hex_digit((b.last() / 16) as int), hex_digit((b.last() % 16) as int)]
    }
}

/// The key made of some random bytes.
pub open spec fn key_text(b: Seq<u8>) -> Seq<char> {
    PREFIX@ + hex_text(b)
}

proof fn lemma_hex_len(b: Seq<u8>)
    ensures
        hex_text(b).len() == 2 * b.len(),
    decreases b.len(),
{
    if b.len() > 0 {
        lemma_hex_len(b.drop_last());
    }
}

fn hex_digit_of(n: u8) -> (c: char)
    requires
        n < 16,
    ensures
        c == hex_digit(n as int),
{
    if n < 10 {
        let d = text::digits_of(n as u64);
        assert(d@ =~= seq![text::digit_char(n as int)]);
        d[0]
    } else if n == 10 {
        'a'
    } else if n == 11 {
        'b'
    } else if n == 12 {
        'c'
    } else if n == 13 {
        'd'
    } else if n == 14 {
        'e'
    } else {
        'f'
    }
}

/// The key for the given random bytes: the prefix, then the bytes in
/// lowercase hexadecimal.
pub fn key_from_bytes(bytes: &[u8; 32]) -> (r: String)
    ensures
        r@ == key_text(bytes@),
{
    let mut out = text::chars_of(PREFIX);
    let ghost p = out@;
    let mut i: usize = 0;
    while i < 32
        invariant
            i <= 32,
            bytes@.len() == 32,
            p == PREFIX@,
            out@ == p + hex_text(bytes@.take(i as int)),
        decreases 32 - i,
    {
        let b = bytes[i];
        assert(bytes@.take(i + 1).drop_last() =~= bytes@.take(i as int));
        assert(bytes@.take(i + 1).last() == b);
        out.push(hex_digit_of(b / 16));
        out.push(hex_digit_of(b % 16));
        assert(out@ =~= p + hex_text(bytes@.take(i + 1)));
        i = i + 1;
    }
    assert(bytes@.take(32) =~= bytes@);
    text::string_of(&out)
}

/// `rand::rngs::OsRng::fill_bytes` on 32 bytes: bytes from the operating
/// system's random source. Nothing is stated of them; the call panics
/// only when the operating system cannot supply randomness at all.
#[verifier::external_body]
fn random_bytes() -> (r: [u8; 32]) {
    let mut bytes = [0u8; 32];
    rand::rngs::OsRng.fill_bytes(&mut bytes);
    bytes
}

/// Generate a new key. Returned in full, once.
pub fn generate() -> (r: String)
    ensures
        exists|b: Seq<u8>| b.len() == 32 && r@ == key_text(b),
{
    let bytes = random_bytes();
    let k = key_from_bytes(&bytes);
    assert(bytes@.len() == 32 && k@ == key_text(bytes@));
    k
}

/// The SHA-256 digest of some bytes.
pub uninterp spec fn sha256_of(data: Seq<u8>) -> Seq<u8>;

/// `sha2::Sha256::digest`: the SHA-256 digest of `data`, which depends on
/// `data` alone; the digest itself is named rather than stated.
#[verifier::external_body]
fn sha256(data: &[u8]) -> (r: [u8; 32])
    ensures
        r@ == sha256_of(data@),
{
    Sha256::digest(data).into()
}

/// What `hash` stores for a key: the digest of its trimmed UTF-8 bytes.
pub open spec fn hash_spec(key: Seq<char>) -> Seq<u8> {
    sha256_of(vstd::utf8::encode_utf8(text::trim(key)))
}

/// The digest stored for a key.
pub fn hash(key: &str) -> (r: [u8; 32])
    ensures
        r@ == hash_spec(key@),
{
    let chars = text::chars_of(key);
    let t = text::trimmed(&chars);
    let s = text::string_of(&t);
    sha256(s.as_str().as_bytes())
}

// ------------------------------------------------------------------ laws

/// A generated key is the prefix and 64 hexadecimal digits.
pub proof fn a_key_is_prefixed_hex(b: Seq<u8>)
    requires
        b.len() == 32,
    ensures
        key_text(b).len() == PREFIX@.len() + 64,
        key_text(b).subrange(0, PREFIX@.len() as int) == PREFIX@,
{
    lemma_hex_len(b);
    assert(key_text(b).subrange(0, PREFIX@.len() as int) =~= PREFIX@);
}

/// Surrounding whitespace never changes the digest: a key pasted with a
/// stray newline still finds its tenant.
pub proof fn hashing_ignores_surrounding_whitespace(key: Seq<char>)
    ensures
        hash_spec(key) == hash_spec(text::trim(key)),
{
    text::lemma_trim_idempotent(key);
}

} // verus!
