//! Hashes, encodings and random bytes.
//!
//! Nothing here is computed by this library: each function hands its
//! arguments to a cryptography crate, and its contract says what is known of
//! the result.

use vstd::prelude::*;
use base64::Engine;
use hmac::Mac;
use rand::RngCore;
use sha2::Digest;
use subtle::ConstantTimeEq;

verus! {

/// The SHA-256 digest of some bytes.
pub uninterp spec fn sha256_digest(data: Seq<u8>) -> Seq<u8>;

/// `sha2::Sha256` gives the digest of its input, 32 bytes that depend on the
/// input alone.
#[verifier::external_body]
pub(crate) fn sha256(data: &[u8]) -> (r: Vec<u8>)
    ensures
        r@ == sha256_digest(data@),
        r@.len() == 32,
{
    let mut h = sha2::Sha256::new();
    h.update(data);
    h.finalize().to_vec()
}

/// The HMAC-SHA-256 code of a message under a key.
pub uninterp spec fn hmac_code(key: Seq<u8>, message: Seq<u8>) -> Seq<u8>;

/// `hmac::Hmac<Sha256>` takes a key of any length and gives the code of the
/// message under it, 32 bytes that depend on the two alone.
#[verifier::external_body]
pub(crate) fn hmac_sha256(key: &[u8], message: &[u8]) -> (r: Vec<u8>)
    ensures
        r@ == hmac_code(key@, message@),
        r@.len() == 32,
{
    let mut mac = hmac::Hmac::<sha2::Sha256>::new_from_slice(key).expect("hmac key");
    mac.update(message);
    mac.finalize().into_bytes().to_vec()
}

/// The base64 text of some bytes, with the URL-safe alphabet and no padding.
pub uninterp spec fn base64url(data: Seq<u8>) -> Seq<char>;

/// A character of the URL-safe base64 alphabet.
pub open spec fn base64_char(c: char) -> bool {
    crate::text::ascii_alnum(c) || c == '-' || c == '_'
}

/// `base64::engine::general_purpose::URL_SAFE_NO_PAD` writes three bytes as
/// four characters of its alphabet, and what is left over without padding.
/// The text depends on the bytes alone, and different bytes give different
/// texts. A text longer than the address space cannot be had.
#[verifier::external_body]
pub(crate) fn base64_url(data: &[u8]) -> (r: String)
    requires
        data@.len() <= 0x2000_0000,
    ensures
        r@ == base64url(data@),
        r@.len() == (4 * data@.len() + 2) / 3,
        forall|i: int| 0 <= i < r@.len() ==> base64_char(#[trigger] r@[i]),
        forall|other: Seq<u8>|
            other.len() <= 0x2000_0000 && r@ == #[trigger] base64url(other) ==> other == data@,
{
    base64::engine::general_purpose::URL_SAFE_NO_PAD.encode(data)
}

/// `subtle::ConstantTimeEq` on byte slices says whether they are equal.
#[verifier::external_body]
pub(crate) fn same_bytes(a: &[u8], b: &[u8]) -> (r: bool)
    ensures
        r == (a@ == b@),
{
    a.ct_eq(b).into()
}

/// `rand::thread_rng().fill_bytes` fills a buffer with random bytes. Only the
/// length of the result is known.
#[verifier::external_body]
pub(crate) fn random_bytes(len: usize) -> (r: Vec<u8>)
    requires
        len <= 0x2000_0000,
    ensures
        r@.len() == len,
{
    let mut bytes = vec![0u8; len];
    rand::thread_rng().fill_bytes(&mut bytes);
    bytes
}

} // verus!
