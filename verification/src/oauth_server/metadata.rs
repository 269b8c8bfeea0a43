//! The documents by which clients discover the authorization server.

use vstd::prelude::*;
use crate::text::{concat2, from_range, to_chars};

verus! {

/// `url` without the slashes it ends with.
pub open spec fn without_slashes(url: Seq<char>) -> Seq<char>
    decreases url.len(),
{
    if url.len() > 0 && url.last() == '/' {
        without_slashes(url.drop_last())
    } else {
        url
    }
}

/// Cuts off the slashes that a URL ends with.
pub fn trim_slashes(url: &str) -> (r: String)
    ensures
        r@ == without_slashes(url@),
{
    let a: Vec<char> = to_chars(url);
    let mut n: usize = a.len();
    assert(a@.take(n as int) =~= a@);
    while n > 0 && a[n - 1] == '/'
        invariant
            n <= a.len(),
            a@ == url@,
            without_slashes(url@) == without_slashes(a@.take(n as int)),
        decreases n,
    {
        assert(a@.take(n as int).drop_last() =~= a@.take(n as int - 1));
        n = n - 1;
    }
    let r: String = from_range(&a, 0, n);
    assert(r@ =~= a@.take(n as int));
    r
}

/// The metadata of the protected resource.
#[derive(Debug)]
pub struct ProtectedResource {
    pub resource: String,
    pub authorization_server: String,
    pub scopes_supported: &'static str,
    pub bearer_methods_supported: &'static str,
}

/// Describes the MCP endpoints of a server at the given public address.
pub fn protected_resource(public_base_url: &str) -> (r: ProtectedResource)
    ensures
        r.resource@ == without_slashes(public_base_url@) + "/drust/t/{tenant}/mcp"@,
        r.authorization_server@ == without_slashes(public_base_url@) + "/drust"@,
        r.scopes_supported@ == "drust"@,
        r.bearer_methods_supported@ == "header"@,
{
    let base: String = trim_slashes(public_base_url);
    ProtectedResource {
        resource: concat2(base.as_str(), "/drust/t/{tenant}/mcp"),
        authorization_server: concat2(base.as_str(), "/drust"),
        scopes_supported: "drust",
        bearer_methods_supported: "header",
    }
}

/// The metadata of the authorization server.
#[derive(Debug)]
pub struct AuthorizationServer {
    pub issuer: String,
    pub authorization_endpoint: String,
    pub token_endpoint: String,
    pub registration_endpoint: String,
    pub scope: &'static str,
    pub response_type: &'static str,
    pub grant_types: [&'static str; 2],
    pub code_challenge_method: &'static str,
    pub auth_method: &'static str,
    pub ui_locales: [&'static str; 2],
}

/// Describes the authorization server at the given public address.
pub fn authorization_server(public_base_url: &str) -> (r: AuthorizationServer)
    ensures
        r.issuer@ == without_slashes(public_base_url@) + "/drust"@,
        r.authorization_endpoint@ == without_slashes(public_base_url@) + "/drust/oauth/authorize"@,
        r.token_endpoint@ == without_slashes(public_base_url@) + "/drust/oauth/token"@,
        r.registration_endpoint@ == without_slashes(public_base_url@) + "/drust/oauth/register"@,
        r.scope@ == "drust"@,
        r.response_type@ == "code"@,
        r.grant_types@ == seq!["authorization_code", "refresh_token"],
        r.code_challenge_method@ == "S256"@,
        r.auth_method@ == "none"@,
        r.ui_locales@ == seq!["en", "zh-TW"],
{
    let base: String = trim_slashes(public_base_url);
    let grant_types: [&'static str; 2] = ["authorization_code", "refresh_token"];
    let ui_locales: [&'static str; 2] = ["en", "zh-TW"];
    assert(grant_types@ =~= seq!["authorization_code", "refresh_token"]);
    assert(ui_locales@ =~= seq!["en", "zh-TW"]);
    AuthorizationServer {
        issuer: concat2(base.as_str(), "/drust"),
        authorization_endpoint: concat2(base.as_str(), "/drust/oauth/authorize"),
        token_endpoint: concat2(base.as_str(), "/drust/oauth/token"),
        registration_endpoint: concat2(base.as_str(), "/drust/oauth/register"),
        scope: "drust",
        response_type: "code",
        grant_types,
        code_challenge_method: "S256",
        auth_method: "none",
        ui_locales,
    }
}

/// What is left of an address ends in no slash, and only slashes were cut off.
pub proof fn law_only_slashes_are_cut(url: Seq<char>)
    ensures
        without_slashes(url).len() > 0 ==> without_slashes(url).last() != '/',
        without_slashes(url).len() <= url.len(),
        without_slashes(url) == url.take(without_slashes(url).len() as int),
        forall|i: int| without_slashes(url).len() <= i < url.len() ==> #[trigger] url[i] == '/',
    decreases url.len(),
{
    if url.len() > 0 && url.last() == '/' {
        let rest = url.drop_last();
        law_only_slashes_are_cut(rest);
        assert forall|i: int| without_slashes(url).len() <= i < url.len() implies #[trigger] url[i]
            == '/' by {
            if i < rest.len() {
                assert(rest[i] == url[i]);
            }
        }
        assert(rest.take(without_slashes(url).len() as int) =~= url.take(
            without_slashes(url).len() as int,
        ));
    } else {
        assert(url.take(url.len() as int) =~= url);
    }
}

} // verus!
