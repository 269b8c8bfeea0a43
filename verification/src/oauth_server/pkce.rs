//! Proof keys for code exchange, with the method S256 only.

use vstd::prelude::*;
use vstd::utf8::encode_utf8;
use crate::crypto::{base64_url, base64url, same_bytes, sha256, sha256_digest};

verus! {

/// The challenge of a verifier.
pub open spec fn challenge_of(verifier: Seq<char>) -> Seq<char> {
    base64url(sha256_digest(encode_utf8(verifier)))
}

/// Whether `challenge` is the challenge of `verifier`. The comparison takes
/// the same time whatever the two hold.
pub fn verify_s256(verifier: &str, challenge: &str) -> (r: bool)
    ensures
        r == (challenge_of(verifier@) == challenge@),
{
    let digest: Vec<u8> = sha256(verifier.as_bytes());
    let computed: String = base64_url(digest.as_slice());
    let same: bool = same_bytes(computed.as_str().as_bytes(), challenge.as_bytes());
    proof {
        vstd::utf8::encode_utf8_decode_utf8(computed@);
        vstd::utf8::encode_utf8_decode_utf8(challenge@);
    }
    same
}

} // verus!
