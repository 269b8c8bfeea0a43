//! Tokens of the authorization server.

use vstd::prelude::*;
use crate::clock::{in_calendar, iso_stamp, stamp};
use crate::crypto::{base64_char, base64_url, base64url, random_bytes, sha256};
use crate::oauth_server::pkce::challenge_of;
use crate::text::{concat2, from_chars, has_prefix, is_le, starts_with, text_le, to_chars};

verus! {

pub const ACCESS_TOKEN_PREFIX: &'static str = "drust_at_";

pub const REFRESH_TOKEN_PREFIX: &'static str = "drust_rt_";

pub const AUTH_CODE_PREFIX: &'static str = "drust_ac_";

pub const CLIENT_ID_PREFIX: &'static str = "drust_client_";

/// What is stored in the place of a token.
pub open spec fn token_hash(plain: Seq<char>) -> Seq<char> {
    challenge_of(plain)
}

/// A text of `n` characters of the URL-safe base64 alphabet.
pub open spec fn random_text(s: Seq<char>, n: nat) -> bool {
    s.len() == n && forall|i: int| 0 <= i < s.len() ==> base64_char(#[trigger] s[i])
}

/// A token with that prefix and `n` random characters.
pub open spec fn minted(s: Seq<char>, prefix: Seq<char>, n: nat) -> bool {
    has_prefix(s, prefix) && random_text(s.skip(prefix.len() as int), n)
}

/// A token made of that prefix and of `len` bytes.
pub open spec fn token_of_bytes(s: Seq<char>, prefix: Seq<char>, len: nat) -> bool {
    exists|b: Seq<u8>| b.len() == len && s == prefix + #[trigger] base64url(b)
}

/// Makes a token of drawn bytes: a prefix and the base64 text of the bytes.
/// Different bytes give different tokens.
pub fn token_of(prefix: &str, bytes: &[u8]) -> (r: String)
    requires
        bytes@.len() <= 0x2000_0000,
    ensures
        r@ == prefix@ + base64url(bytes@),
        minted(r@, prefix@, ((4 * bytes@.len() + 2) / 3) as nat),
        forall|other: Seq<u8>|
            other.len() <= 0x2000_0000 && r@ == prefix@ + #[trigger] base64url(other) ==> other
                == bytes@,
{
    let text: String = base64_url(bytes);
    let r: String = concat2(prefix, text.as_str());
    proof {
        let n = prefix@.len() as int;
        assert(r@.subrange(0, n) =~= prefix@);
        assert(r@.skip(n) =~= text@);
        assert forall|other: Seq<u8>|
            other.len() <= 0x2000_0000 && r@ == prefix@ + #[trigger] base64url(other) implies other
            == bytes@ by {
            assert((prefix@ + base64url(other)).skip(n) =~= base64url(other));
        }
    }
    r
}

/// Makes a token of `len` random bytes.
pub(crate) fn draw(prefix: &str, len: usize) -> (r: String)
    requires
        len <= 0x2000_0000,
    ensures
        token_of_bytes(r@, prefix@, len as nat),
        minted(r@, prefix@, ((4 * len + 2) / 3) as nat),
{
    let bytes: Vec<u8> = random_bytes(len);
    token_of(prefix, bytes.as_slice())
}

/// The base64 text of `len` random bytes.
pub fn random_b64(len: usize) -> (r: String)
    requires
        len <= 0x2000_0000,
    ensures
        exists|b: Seq<u8>| b.len() == len && r@ == #[trigger] base64url(b),
        random_text(r@, ((4 * len + 2) / 3) as nat),
{
    let bytes: Vec<u8> = random_bytes(len);
    base64_url(bytes.as_slice())
}

/// The base64 text of the SHA-256 digest of a token.
pub fn sha256_b64(plain: &str) -> (r: String)
    ensures
        r@ == token_hash(plain@),
        random_text(r@, 43),
{
    let digest: Vec<u8> = sha256(plain.as_bytes());
    base64_url(digest.as_slice())
}

/// Draws an access token.
pub fn new_access_token() -> (r: String)
    ensures
        token_of_bytes(r@, ACCESS_TOKEN_PREFIX@, 32),
        minted(r@, ACCESS_TOKEN_PREFIX@, 43),
{
    draw(ACCESS_TOKEN_PREFIX, 32)
}

/// Draws a refresh token.
pub fn new_refresh_token() -> (r: String)
    ensures
        token_of_bytes(r@, REFRESH_TOKEN_PREFIX@, 32),
        minted(r@, REFRESH_TOKEN_PREFIX@, 43),
{
    draw(REFRESH_TOKEN_PREFIX, 32)
}

/// Draws an authorization code.
pub fn new_auth_code() -> (r: String)
    ensures
        token_of_bytes(r@, AUTH_CODE_PREFIX@, 32),
        minted(r@, AUTH_CODE_PREFIX@, 43),
{
    draw(AUTH_CODE_PREFIX, 32)
}

/// Draws the id of a client.
pub fn new_client_id() -> (r: String)
    ensures
        token_of_bytes(r@, CLIENT_ID_PREFIX@, 24),
        minted(r@, CLIENT_ID_PREFIX@, 32),
{
    draw(CLIENT_ID_PREFIX, 24)
}

/// What an access token gives access to.
#[derive(Debug, Clone)]
pub struct OauthAccessTokenHit {
    pub admin_id: i64,
    pub client_id: String,
    pub resource_uri: String,
    pub expires_at: String,
}

/// The hash to look a bearer token up by; none where it is no access token.
/// Whether the row that is found still counts, `access_hit` says.
pub fn lookup_access_token(bearer: &str) -> (r: Option<String>)
    ensures
        match r {
            Some(h) => has_prefix(bearer@, ACCESS_TOKEN_PREFIX@) && h@ == token_hash(bearer@),
            None => !has_prefix(bearer@, ACCESS_TOKEN_PREFIX@),
        },
{
    if starts_with(bearer, ACCESS_TOKEN_PREFIX) {
        Some(sha256_b64(bearer))
    } else {
        None
    }
}

/// A point in time of the database in the form of ISO-8601, whose date and
/// time are parted by `T` and not by a space.
pub open spec fn parted(s: Seq<char>) -> Seq<char> {
    if s.len() > 10 && s[10] == ' ' {
        s.update(10, 'T')
    } else {
        s
    }
}

fn part(s: &str) -> (r: String)
    ensures
        r@ == parted(s@),
{
    let mut c: Vec<char> = to_chars(s);
    if c.len() > 10 && c[10] == ' ' {
        c.set(10, 'T');
        from_chars(&c)
    } else {
        s.to_owned()
    }
}

/// Takes the row of an access token, now being a point in time in
/// milliseconds. The row counts as long as its end lies in the future: a token
/// is rejected from the moment it ends.
pub fn access_hit(row: Option<OauthAccessTokenHit>, now: i64) -> (r: Option<OauthAccessTokenHit>)
    requires
        in_calendar(now as int),
    ensures
        match row {
            Some(h) => if text_le(parted(h.expires_at@), iso_stamp(now as int)) {
                r is None
            } else {
                r == Some(h)
            },
            None => r is None,
        },
        forall|end: int|
            in_calendar(end) && row is Some && row->0.expires_at@ == #[trigger] iso_stamp(end) ==> (r
                is Some <==> now < end),
{
    let t: String = stamp(now);
    match row {
        Some(h) => if is_le(part(h.expires_at.as_str()).as_str(), t.as_str()) {
            None
        } else {
            Some(h)
        },
        None => None,
    }
}

/// The kinds of token cannot be taken for one another.
pub proof fn law_prefixes_distinct(s: Seq<char>)
    ensures
        !(has_prefix(s, ACCESS_TOKEN_PREFIX@) && has_prefix(s, REFRESH_TOKEN_PREFIX@)),
        !(has_prefix(s, ACCESS_TOKEN_PREFIX@) && has_prefix(s, AUTH_CODE_PREFIX@)),
        !(has_prefix(s, ACCESS_TOKEN_PREFIX@) && has_prefix(s, CLIENT_ID_PREFIX@)),
        !(has_prefix(s, REFRESH_TOKEN_PREFIX@) && has_prefix(s, AUTH_CODE_PREFIX@)),
        !(has_prefix(s, REFRESH_TOKEN_PREFIX@) && has_prefix(s, CLIENT_ID_PREFIX@)),
        !(has_prefix(s, AUTH_CODE_PREFIX@) && has_prefix(s, CLIENT_ID_PREFIX@)),
{
    reveal_strlit("drust_at_");
    reveal_strlit("drust_rt_");
    reveal_strlit("drust_ac_");
    reveal_strlit("drust_client_");
    let a = ACCESS_TOKEN_PREFIX@;
    let r = REFRESH_TOKEN_PREFIX@;
    let c = AUTH_CODE_PREFIX@;
    let k = CLIENT_ID_PREFIX@;
    assert(a[6] == 'a' && r[6] == 'r' && c[6] == 'a' && k[6] == 'c');
    assert(a[7] == 't' && c[7] == 'c');
    if has_prefix(s, a) {
        assert(s.subrange(0, a.len() as int)[6] == s[6]);
        assert(s.subrange(0, a.len() as int)[7] == s[7]);
    }
    if has_prefix(s, r) {
        assert(s.subrange(0, r.len() as int)[6] == s[6]);
    }
    if has_prefix(s, c) {
        assert(s.subrange(0, c.len() as int)[6] == s[6]);
        assert(s.subrange(0, c.len() as int)[7] == s[7]);
    }
    if has_prefix(s, k) {
        assert(s.subrange(0, k.len() as int)[6] == s[6]);
    }
}

/// Both forms of a point in time are read as the one with the `T`; nothing else changes.
pub proof fn law_both_forms_are_one(s: Seq<char>)
    requires
        s.len() > 10,
    ensures
        s[10] == ' ' ==> parted(s)[10] == 'T',
        parted(s.update(10, ' ')) == s.update(10, 'T'),
        parted(s).len() == s.len(),
        forall|i: int| 0 <= i < s.len() && i != 10 ==> #[trigger] parted(s)[i] == s[i],
        parted(parted(s)) == parted(s),
{
    assert(s.update(10, ' ').update(10, 'T') =~= s.update(10, 'T'));
}

} // verus!
