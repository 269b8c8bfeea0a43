//! The authorization endpoint: the consent page and the issue of codes.
//!
//! Neither request rests on the session layer of the console. A visitor
//! without a session is sent through the login page with a cookie that
//! remembers the request; a consent without a session is refused, for nobody
//! may consent for somebody else.

use vstd::prelude::*;
use crate::audit_note::{
    done, field_views, note_done, number_field, text_field, AuditNote, Field, FieldView, NoteView,
};
use crate::clock::{in_calendar, iso_stamp, stamp};
use crate::json::{json_of_list, list_from_json, list_of_json, opt_views};
use crate::oauth_server::pkce::challenge_of;
use crate::oauth_server::return_url::{build_set, intent_cookie};
use crate::oauth_server::storage::{sha256_b64, token_hash};
use crate::oauth_server::token::{code_refusal, CodeGrantView, CodeRow, CodeRowView};
use crate::reply::{refusal, refuse, Refusal, RefusalView};
use crate::text::{
    copy_or, holds, joined_with, law_split_undoes_join, opt_copy, opt_view, split, split_on,
    str_eq, text_le, view_or, views,
};
use crate::url::{
    lemma_encoded_param, lemma_first_param, lemma_next_param, lemma_push_param, lemma_with_params,
    one_param, params, path_of, percent, url_encode, with_params,
};

verus! {

/// Ten minutes in milliseconds, the life of a code.
pub const CODE_MS: i64 = 600_000;

#[derive(Debug)]
pub struct AuthorizeQuery {
    pub response_type: String,
    pub client_id: String,
    pub redirect_uri: String,
    pub code_challenge: String,
    pub code_challenge_method: String,
    pub state: Option<String>,
    pub resource: String,
    pub scope: Option<String>,
}

#[derive(Debug)]
pub struct ConsentForm {
    pub client_id: String,
    pub redirect_uri: String,
    pub code_challenge: String,
    pub code_challenge_method: String,
    pub state: Option<String>,
    pub resource: String,
    pub scope: Option<String>,
    pub decision: String,
}

// ---------------------------------------------------------------------------
// Parts
// ---------------------------------------------------------------------------

/// The segments of a URI that names an MCP endpoint of a tenant,
/// `http(s)://host/drust/t/<id>/mcp`, with or without more behind a slash.
pub open spec fn mcp_segments(p: Seq<Seq<char>>) -> bool {
    &&& p.len() >= 7
    &&& p[0] == "http:"@ || p[0] == "https:"@
    &&& p[1].len() == 0
    &&& p[2].len() > 0
    &&& p[3] == "drust"@
    &&& p[4] == "t"@
    &&& p[5].len() > 0
    &&& p[6] == "mcp"@
}

/// `uri` names an MCP endpoint of a tenant.
pub open spec fn mcp_resource(uri: Seq<char>) -> bool {
    mcp_segments(split_on(uri, '/'))
}

/// Whether a URI names an MCP endpoint of a tenant.
pub fn validate_resource_uri(uri: &str) -> (r: bool)
    ensures
        r == mcp_resource(uri@),
{
    let p: Vec<String> = split(uri, '/');
    let ghost s = views(p@);
    assert(s.len() == p@.len());
    if p.len() < 7 {
        return false;
    }
    assert(forall|i: int| 0 <= i < 7 ==> #[trigger] s[i] == p@[i]@);
    (str_eq(p[0].as_str(), "http:") || str_eq(p[0].as_str(), "https:")) && p[1].as_str().is_empty()
        && !p[2].as_str().is_empty() && str_eq(p[3].as_str(), "drust") && str_eq(
        p[4].as_str(),
        "t",
    ) && !p[5].as_str().is_empty() && str_eq(p[6].as_str(), "mcp")
}

/// Where a client is sent with an error.
pub open spec fn error_location(redirect_uri: Seq<char>, code: Seq<char>, state: Option<Seq<char>>) -> Seq<
    char,
> {
    redirect_uri + "?error="@ + percent(code) + "&state="@ + percent(
        match state {
            Some(s) => s,
            None => ""@,
        },
    )
}

/// The location that sends a client an error.
pub fn error_redirect(redirect_uri: &str, error_code: &str, state: &Option<String>) -> (r: String)
    ensures
        r@ == error_location(redirect_uri@, error_code@, opt_view(*state)),
{
    let mut s: String = redirect_uri.to_owned();
    s.append("?error=");
    s.append(url_encode(error_code).as_str());
    s.append("&state=");
    s.append(url_encode(copy_or(state, "").as_str()).as_str());
    s
}

/// A client that is registered and not revoked.
#[derive(Debug)]
pub struct ClientRow {
    pub client_name: String,
    pub redirect_uris_json: String,
}

/// The redirect URIs that a client registered, none where they cannot be read.
pub open spec fn registered_uris(json: Seq<char>) -> Seq<Seq<char>> {
    match list_of_json(json) {
        Some(v) => v,
        None => Seq::<Seq<char>>::empty(),
    }
}

/// Whether `uri` is among the URIs of a list that was or was not read.
pub fn redirect_allowed(allowed: &Option<Vec<String>>, uri: &str) -> (r: bool)
    ensures
        r == (opt_views(*allowed) matches Some(v) && v.contains(uri@)),
{
    match allowed {
        Some(v) => holds(v, uri),
        None => false,
    }
}

/// Whether `uri` is among those that a client registered. Of what a
/// registration stored, these are the URIs that it named.
pub fn uri_registered(redirect_uris_json: &str, uri: &str) -> (r: bool)
    ensures
        r == registered_uris(redirect_uris_json@).contains(uri@),
        forall|items: Seq<Seq<char>>|
            redirect_uris_json@ == #[trigger] json_of_list(items) ==> r == items.contains(uri@),
{
    let allowed: Option<Vec<String>> = list_from_json(redirect_uris_json);
    redirect_allowed(&allowed, uri)
}

/// Why a client may not be sent to `redirect_uri`, if it may not.
pub open spec fn client_refusal(
    client: Option<ClientRow>,
    redirect_uri: Seq<char>,
    unknown: Seq<char>,
    mismatch: Seq<char>,
) -> Option<RefusalView> {
    match client {
        None => Some(refusal(400, "INVALID_CLIENT"@, unknown)),
        Some(c) => if registered_uris(c.redirect_uris_json@).contains(redirect_uri) {
            None
        } else {
            Some(refusal(400, "INVALID_REDIRECT_URI"@, mismatch))
        },
    }
}

fn check_client(client: &Option<ClientRow>, redirect_uri: &str, unknown: &str, mismatch: &str) -> (r: Option<
    Refusal,
>)
    ensures
        (match r {
            Some(e) => Some(e@),
            None => None,
        }) == client_refusal(*client, redirect_uri@, unknown@, mismatch@),
{
    match client {
        None => Some(refuse(400, "INVALID_CLIENT", unknown)),
        Some(c) => {
            if uri_registered(c.redirect_uris_json.as_str(), redirect_uri) {
                None
            } else {
                Some(refuse(400, "INVALID_REDIRECT_URI", mismatch))
            }
        },
    }
}

// ---------------------------------------------------------------------------
// The consent page
// ---------------------------------------------------------------------------

/// What the consent page shows and sends back.
#[derive(Debug)]
pub struct ConsentPage {
    pub client_name: String,
    pub resource_uri: String,
    pub client_id: String,
    pub redirect_uri: String,
    pub code_challenge: String,
    pub code_challenge_method: String,
    pub state: String,
    pub scope: String,
}

/// The answer to a request for authorization.
#[derive(Debug)]
pub enum AuthorizeReply {
    /// Send the client to this location.
    Redirect(String),
    /// Send the visitor to the login page with this cookie.
    Login { location: &'static str, cookie: String },
    Refused(Refusal),
    Consent(ConsentPage),
}

/// The request as a path of this console, for the way back from the login page.
pub open spec fn intent_path(q: AuthorizeQuery) -> Seq<char> {
    "/oauth/authorize?response_type=code&client_id="@ + percent(q.client_id@) + "&redirect_uri="@
        + percent(q.redirect_uri@) + "&code_challenge="@ + percent(q.code_challenge@)
        + "&code_challenge_method=S256&state="@ + percent(view_or(q.state, ""@)) + "&resource="@
        + percent(q.resource@) + "&scope="@ + percent(view_or(q.scope, "drust"@))
}

fn intent_path_of(q: &AuthorizeQuery) -> (r: String)
    ensures
        r@ == intent_path(*q),
{
    let mut s: String = "/oauth/authorize?response_type=code&client_id=".to_owned();
    s.append(url_encode(q.client_id.as_str()).as_str());
    s.append("&redirect_uri=");
    s.append(url_encode(q.redirect_uri.as_str()).as_str());
    s.append("&code_challenge=");
    s.append(url_encode(q.code_challenge.as_str()).as_str());
    s.append("&code_challenge_method=S256&state=");
    s.append(url_encode(copy_or(&q.state, "").as_str()).as_str());
    s.append("&resource=");
    s.append(url_encode(q.resource.as_str()).as_str());
    s.append("&scope=");
    s.append(url_encode(copy_or(&q.scope, "drust").as_str()).as_str());
    s
}

/// The page shows what was asked for.
pub open spec fn page_of(p: ConsentPage, q: AuthorizeQuery, client_name: Seq<char>) -> bool {
    &&& p.client_name@ == client_name
    &&& p.resource_uri@ == q.resource@
    &&& p.client_id@ == q.client_id@
    &&& p.redirect_uri@ == q.redirect_uri@
    &&& p.code_challenge@ == q.code_challenge@
    &&& p.code_challenge_method@ == q.code_challenge_method@
    &&& p.state@ == view_or(q.state, ""@)
    &&& p.scope@ == view_or(q.scope, "drust"@)
}

/// The reply is the given refusal.
pub open spec fn refused_with(r: AuthorizeReply, e: RefusalView) -> bool {
    r matches AuthorizeReply::Refused(x) && x@ == e
}

/// Answers a request for authorization, given the stored client and whether
/// the visitor has a session.
pub fn authorize_get(
    q: &AuthorizeQuery,
    client: &Option<ClientRow>,
    signed_in: bool,
    secure: bool,
) -> (r: AuthorizeReply)
    ensures
        if q.response_type@ != "code"@ {
            r matches AuthorizeReply::Redirect(to) && to@ == error_location(
                q.redirect_uri@,
                "unsupported_response_type"@,
                opt_view(q.state),
            )
        } else if q.code_challenge_method@ != "S256"@ {
            refused_with(
                r,
                refusal(400, "INVALID_PKCE"@, "code_challenge_method must be S256"@),
            )
        } else if !mcp_resource(q.resource@) {
            refused_with(
                r,
                refusal(400, "INVALID_RESOURCE"@, "resource must point to a drust MCP endpoint"@),
            )
        } else {
            match client_refusal(
                *client,
                q.redirect_uri@,
                "no such client"@,
                "redirect_uri not registered for this client"@,
            ) {
                Some(e) => refused_with(r, e),
                None => if !signed_in {
                    r matches AuthorizeReply::Login { location, cookie } && location@
                        == "/drust/login"@ && cookie@ == intent_cookie(
                        percent(intent_path(*q)),
                        secure,
                        "600"@,
                    )
                } else {
                    r matches AuthorizeReply::Consent(p) && page_of(
                        p,
                        *q,
                        client->0.client_name@,
                    )
                },
            }
        },
{
    if !str_eq(q.response_type.as_str(), "code") {
        return AuthorizeReply::Redirect(
            error_redirect(q.redirect_uri.as_str(), "unsupported_response_type", &q.state),
        );
    }
    if !str_eq(q.code_challenge_method.as_str(), "S256") {
        return AuthorizeReply::Refused(
            refuse(400, "INVALID_PKCE", "code_challenge_method must be S256"),
        );
    }
    if !validate_resource_uri(q.resource.as_str()) {
        return AuthorizeReply::Refused(
            refuse(400, "INVALID_RESOURCE", "resource must point to a drust MCP endpoint"),
        );
    }
    if let Some(e) = check_client(
        client,
        q.redirect_uri.as_str(),
        "no such client",
        "redirect_uri not registered for this client",
    ) {
        return AuthorizeReply::Refused(e);
    }
    if !signed_in {
        let path: String = intent_path_of(q);
        return AuthorizeReply::Login {
            location: "/drust/login",
            cookie: build_set(path.as_str(), secure),
        };
    }
    let client_name: String = match client {
        Some(c) => c.client_name.clone(),
        None => String::new(),
    };
    AuthorizeReply::Consent(
        ConsentPage {
            client_name,
            resource_uri: q.resource.clone(),
            client_id: q.client_id.clone(),
            redirect_uri: q.redirect_uri.clone(),
            code_challenge: q.code_challenge.clone(),
            code_challenge_method: q.code_challenge_method.clone(),
            state: copy_or(&q.state, ""),
            scope: copy_or(&q.scope, "drust"),
        },
    )
}

// ---------------------------------------------------------------------------
// Consent
// ---------------------------------------------------------------------------

/// What an approved consent does: the code to store, then the location to
/// send the client to and the note to write.
#[derive(Debug)]
pub struct Approval {
    pub code_hash: String,
    pub row: CodeRow,
    pub location: String,
    pub note: AuditNote,
}

/// The answer to a consent form.
#[derive(Debug)]
pub enum ConsentOutcome {
    Refused(Refusal),
    Denied(String),
    Approved(Approval),
}

/// The code that a consent form asks to be stored.
pub open spec fn code_row(form: ConsentForm, admin_id: int, now: int) -> CodeRowView {
    CodeRowView {
        client_id: form.client_id@,
        admin_id,
        redirect_uri: form.redirect_uri@,
        pkce_challenge: form.code_challenge@,
        pkce_challenge_method: form.code_challenge_method@,
        resource_uri: form.resource@,
        scope: opt_view(form.scope),
        expires_at: iso_stamp(now + CODE_MS),
        consumed_at: None,
    }
}

/// Where a client is sent with a code.
pub open spec fn code_location(form: ConsentForm, code: Seq<char>) -> Seq<char> {
    form.redirect_uri@ + "?code="@ + percent(code) + "&state="@ + percent(view_or(form.state, ""@))
}

/// The note about a consent.
pub open spec fn consent_note(form: ConsentForm, admin_id: int) -> NoteView {
    done(
        "admin.oauth.consent"@,
        seq![
            ("client_id"@, FieldView::Text(form.client_id@)),
            ("actor_admin_id"@, FieldView::Number(admin_id)),
            ("resource_uri"@, FieldView::Text(form.resource@)),
        ],
    )
}

/// Answers a consent form, given the administrator of the session, the stored
/// client, a fresh code and the time. The client is looked at again because
/// it may have been revoked since the page was shown.
pub fn authorize_post(
    admin: Option<i64>,
    form: &ConsentForm,
    client: &Option<ClientRow>,
    code: &str,
    now: i64,
) -> (r: ConsentOutcome)
    requires
        in_calendar(now + CODE_MS),
    ensures
        match admin {
            None => r matches ConsentOutcome::Refused(e) && e@ == refusal(
                401,
                "UNAUTHENTICATED"@,
                "admin session required to approve OAuth consent"@,
            ),
            Some(id) => if form.decision@ != "approve"@ {
                r matches ConsentOutcome::Denied(to) && to@ == error_location(
                    form.redirect_uri@,
                    "access_denied"@,
                    opt_view(form.state),
                )
            } else {
                match client_refusal(
                    *client,
                    form.redirect_uri@,
                    "client gone or revoked"@,
                    "redirect_uri mismatch"@,
                ) {
                    Some(e) => r matches ConsentOutcome::Refused(x) && x@ == e,
                    None => {
                        &&& r matches ConsentOutcome::Approved(a)
                        &&& a.code_hash@ == token_hash(code@)
                        &&& a.row@ == code_row(*form, id as int, now as int)
                        &&& a.location@ == code_location(*form, code@)
                        &&& a.note@ == consent_note(*form, id as int)
                    },
                }
            },
        },
{
    let id: i64 = match admin {
        Some(id) => id,
        None => {
            return ConsentOutcome::Refused(
                refuse(401, "UNAUTHENTICATED", "admin session required to approve OAuth consent"),
            );
        },
    };
    if !str_eq(form.decision.as_str(), "approve") {
        return ConsentOutcome::Denied(
            error_redirect(form.redirect_uri.as_str(), "access_denied", &form.state),
        );
    }
    if let Some(e) = check_client(
        client,
        form.redirect_uri.as_str(),
        "client gone or revoked",
        "redirect_uri mismatch",
    ) {
        return ConsentOutcome::Refused(e);
    }
    let mut location: String = form.redirect_uri.clone();
    location.append("?code=");
    location.append(url_encode(code).as_str());
    location.append("&state=");
    location.append(url_encode(copy_or(&form.state, "").as_str()).as_str());
    let mut extra: Vec<(String, Field)> = Vec::new();
    extra.push(text_field("client_id", form.client_id.as_str()));
    extra.push(number_field("actor_admin_id", id));
    extra.push(text_field("resource_uri", form.resource.as_str()));
    assert(field_views(extra@) =~= consent_note(*form, id as int).extra);
    ConsentOutcome::Approved(
        Approval {
            code_hash: sha256_b64(code),
            row: CodeRow {
                client_id: form.client_id.clone(),
                admin_id: id,
                redirect_uri: form.redirect_uri.clone(),
                pkce_challenge: form.code_challenge.clone(),
                pkce_challenge_method: form.code_challenge_method.clone(),
                resource_uri: form.resource.clone(),
                scope: opt_copy(&form.scope),
                expires_at: stamp(now + CODE_MS),
                consumed_at: None,
            },
            location,
            note: note_done("admin.oauth.consent", extra),
        },
    )
}

/// A code that a consent stored is redeemed by the client that holds the
/// verifier and names the same redirect URI, until it ends.
pub proof fn law_consent_can_be_redeemed(
    form: ConsentForm,
    admin_id: int,
    now: int,
    g: CodeGrantView,
    later: int,
)
    requires
        form.code_challenge_method@ == "S256"@,
        g.client_id == form.client_id@,
        g.redirect_uri == form.redirect_uri@,
        challenge_of(g.verifier) == form.code_challenge@,
        !text_le(iso_stamp(now + CODE_MS), iso_stamp(later)),
    ensures
        code_refusal(g, code_row(form, admin_id, now), later) is None,
{
}

/// A client that is sent back with a code gets that code, and the state that it sent
/// itself, at the address that it asked for.
pub proof fn law_code_goes_back_with_the_state(form: ConsentForm, code: Seq<char>)
    requires
        !form.redirect_uri@.contains('?'),
    ensures
        path_of(code_location(form, code)) == form.redirect_uri@,
        params(code_location(form, code)) == seq![
            "code="@ + percent(code),
            "state="@ + percent(view_or(form.state, ""@)),
        ],
{
    reveal_strlit("?code=");
    reveal_strlit("?");
    reveal_strlit("code=");
    reveal_strlit("&state=");
    reveal_strlit("&");
    reveal_strlit("state=");
    let state = view_or(form.state, ""@);
    let a = "code="@ + percent(code);
    let b = "state="@ + percent(state);
    lemma_encoded_param("code="@, code);
    lemma_encoded_param("state="@, state);
    lemma_first_param(form.redirect_uri@, a);
    lemma_next_param(form.redirect_uri@ + "?"@ + a, b);
    assert(code_location(form, code) =~= form.redirect_uri@ + "?"@ + a + "&"@ + b);
    assert(seq![a].push(b) =~= seq![a, b]);
}

/// A client that is sent back with an error gets that error, and the state that it
/// sent itself, at the address that it asked for.
pub proof fn law_error_goes_back_with_the_state(
    redirect_uri: Seq<char>,
    code: Seq<char>,
    state: Option<Seq<char>>,
)
    requires
        !redirect_uri.contains('?'),
    ensures
        path_of(error_location(redirect_uri, code, state)) == redirect_uri,
        params(error_location(redirect_uri, code, state)).len() == 2,
        params(error_location(redirect_uri, code, state))[0] == "error="@ + percent(code),
        state is Some ==> params(error_location(redirect_uri, code, state))[1] == "state="@
            + percent(state->0),
{
    reveal_strlit("?error=");
    reveal_strlit("?");
    reveal_strlit("error=");
    reveal_strlit("&state=");
    reveal_strlit("&");
    reveal_strlit("state=");
    let st = match state {
        Some(s) => s,
        None => ""@,
    };
    let a = "error="@ + percent(code);
    let b = "state="@ + percent(st);
    lemma_encoded_param("error="@, code);
    lemma_encoded_param("state="@, st);
    lemma_first_param(redirect_uri, a);
    lemma_next_param(redirect_uri + "?"@ + a, b);
    assert(error_location(redirect_uri, code, state) =~= redirect_uri + "?"@ + a + "&"@ + b);
}

proof fn lemma_request_literals()
    ensures
        "/oauth/authorize?response_type=code&client_id="@ == "/oauth/authorize"@ + "?"@
            + "response_type=code"@ + "&"@ + "client_id="@,
        "&redirect_uri="@ == "&"@ + "redirect_uri="@,
        "&code_challenge="@ == "&"@ + "code_challenge="@,
        "&code_challenge_method=S256&state="@ == "&"@ + "code_challenge_method=S256"@ + "&"@
            + "state="@,
        "&resource="@ == "&"@ + "resource="@,
        "&scope="@ == "&"@ + "scope="@,
        !"/oauth/authorize"@.contains('?'),
        one_param("response_type=code"@),
        one_param("client_id="@),
        one_param("redirect_uri="@),
        one_param("code_challenge="@),
        one_param("code_challenge_method=S256"@),
        one_param("state="@),
        one_param("resource="@),
        one_param("scope="@),
{
    reveal_strlit("/oauth/authorize");
    reveal_strlit("?");
    reveal_strlit("&");
    reveal_strlit("/oauth/authorize?response_type=code&client_id=");
    reveal_strlit("response_type=code");
    reveal_strlit("client_id=");
    reveal_strlit("&redirect_uri=");
    reveal_strlit("redirect_uri=");
    reveal_strlit("&code_challenge=");
    reveal_strlit("code_challenge=");
    reveal_strlit("&code_challenge_method=S256&state=");
    reveal_strlit("code_challenge_method=S256");
    reveal_strlit("state=");
    reveal_strlit("&resource=");
    reveal_strlit("resource=");
    reveal_strlit("&scope=");
    reveal_strlit("scope=");
}

/// Texts that are put together in another grouping are the same.
proof fn lemma_regrouped(u: Seq<char>, a: Seq<char>, b: Seq<char>, c: Seq<char>)
    ensures
        u + (a + b) + c == u + a + (b + c),
{
    assert(u + (a + b) + c =~= u + a + (b + c));
}

/// The parameters of the way back.
spec fn request_params(q: AuthorizeQuery) -> Seq<Seq<char>> {
    seq![
        "response_type=code"@,
        "client_id="@ + percent(q.client_id@),
        "redirect_uri="@ + percent(q.redirect_uri@),
        "code_challenge="@ + percent(q.code_challenge@),
        "code_challenge_method=S256"@,
        "state="@ + percent(view_or(q.state, ""@)),
        "resource="@ + percent(q.resource@),
        "scope="@ + percent(view_or(q.scope, "drust"@)),
    ]
}

proof fn lemma_request_text(q: AuthorizeQuery)
    ensures
        intent_path(q) == with_params("/oauth/authorize"@, request_params(q)),
{
    lemma_request_literals();
    let ps = request_params(q);
    let base = "/oauth/authorize"@;
    let amp = "&"@;
    let s1 = seq![ps[0]];
    let s2 = s1.push(ps[1]);
    let s3 = s2.push(ps[2]);
    let s4 = s3.push(ps[3]);
    let s5 = s4.push(ps[4]);
    let s6 = s5.push(ps[5]);
    let s7 = s6.push(ps[6]);
    let s8 = s7.push(ps[7]);
    lemma_push_param(base, s1, ps[1]);
    lemma_push_param(base, s2, ps[2]);
    lemma_push_param(base, s3, ps[3]);
    lemma_push_param(base, s4, ps[4]);
    lemma_push_param(base, s5, ps[5]);
    lemma_push_param(base, s6, ps[6]);
    lemma_push_param(base, s7, ps[7]);
    assert(s8 =~= ps);
    let u1 = with_params(base, s1);
    assert(u1 == base + "?"@ + ps[0]);
    let v1 = percent(q.client_id@);
    assert(u1 + amp + "client_id="@ + v1 =~= u1 + amp + ("client_id="@ + v1));
    let u2 = with_params(base, s2);
    lemma_regrouped(u2, amp, "redirect_uri="@, percent(q.redirect_uri@));
    let u3 = with_params(base, s3);
    lemma_regrouped(u3, amp, "code_challenge="@, percent(q.code_challenge@));
    let u4 = with_params(base, s4);
    let v5 = percent(view_or(q.state, ""@));
    assert(u4 + (amp + ps[4] + amp + "state="@) + v5 =~= u4 + amp + ps[4] + amp + ("state="@ + v5));
    let u6 = with_params(base, s6);
    lemma_regrouped(u6, amp, "resource="@, percent(q.resource@));
    let u7 = with_params(base, s7);
    lemma_regrouped(u7, amp, "scope="@, percent(view_or(q.scope, "drust"@)));
}

/// Somebody who has to sign in first comes back to the very request that they came
/// with: the way back leads to the authorization page with all its parameters.
pub proof fn law_sign_in_leads_back_to_the_request(q: AuthorizeQuery)
    ensures
        path_of(intent_path(q)) == "/oauth/authorize"@,
        params(intent_path(q)) == seq![
            "response_type=code"@,
            "client_id="@ + percent(q.client_id@),
            "redirect_uri="@ + percent(q.redirect_uri@),
            "code_challenge="@ + percent(q.code_challenge@),
            "code_challenge_method=S256"@,
            "state="@ + percent(view_or(q.state, ""@)),
            "resource="@ + percent(q.resource@),
            "scope="@ + percent(view_or(q.scope, "drust"@)),
        ],
{
    lemma_request_literals();
    lemma_request_text(q);
    lemma_encoded_param("client_id="@, q.client_id@);
    lemma_encoded_param("redirect_uri="@, q.redirect_uri@);
    lemma_encoded_param("code_challenge="@, q.code_challenge@);
    lemma_encoded_param("state="@, view_or(q.state, ""@));
    lemma_encoded_param("resource="@, q.resource@);
    lemma_encoded_param("scope="@, view_or(q.scope, "drust"@));
    lemma_with_params("/oauth/authorize"@, request_params(q));
}

/// What an approval stores is what was consented to: for the client, the address,
/// the key, the resource and the scope of the form, in the name of the administrator
/// who approved, for ten minutes.
pub proof fn law_consent_is_stored_as_given(form: ConsentForm, admin_id: int, now: int)
    ensures
        code_row(form, admin_id, now).client_id == form.client_id@,
        code_row(form, admin_id, now).admin_id == admin_id,
        code_row(form, admin_id, now).redirect_uri == form.redirect_uri@,
        code_row(form, admin_id, now).pkce_challenge == form.code_challenge@,
        code_row(form, admin_id, now).pkce_challenge_method == form.code_challenge_method@,
        code_row(form, admin_id, now).resource_uri == form.resource@,
        code_row(form, admin_id, now).scope == opt_view(form.scope),
        code_row(form, admin_id, now).consumed_at is None,
        code_row(form, admin_id, now).expires_at == iso_stamp(now + 600 * 1000),
{
}

/// A client is let through exactly where it is known and registered the address to
/// which it is sent.
pub proof fn law_clients_go_where_they_registered(
    client: Option<ClientRow>,
    redirect_uri: Seq<char>,
    unknown: Seq<char>,
    mismatch: Seq<char>,
)
    ensures
        client_refusal(client, redirect_uri, unknown, mismatch) is None <==> client is Some
            && registered_uris(client->0.redirect_uris_json@).contains(redirect_uri),
        client is None ==> client_refusal(client, redirect_uri, unknown, mismatch)->0.code
            == "INVALID_CLIENT"@,
{
}

/// The endpoint of a tenant is the resource that a client may ask for, by HTTP or HTTPS;
/// an address that leaves out the host or the tenant, or that leads elsewhere, is not.
pub proof fn law_resources_are_the_endpoints_of_tenants(
    scheme: Seq<char>,
    host: Seq<char>,
    id: Seq<char>,
    last: Seq<char>,
)
    requires
        !scheme.contains('/'),
        !host.contains('/'),
        !id.contains('/'),
        !last.contains('/'),
    ensures
        mcp_resource(
            joined_with(
                seq![scheme, Seq::<char>::empty(), host, "drust"@, "t"@, id, last],
                seq!['/'],
            ),
        ) <==> (scheme == "http:"@ || scheme == "https:"@) && host.len() > 0 && id.len() > 0 && last
            == "mcp"@,
{
    reveal_strlit("drust");
    reveal_strlit("t");
    let parts = seq![scheme, Seq::<char>::empty(), host, "drust"@, "t"@, id, last];
    assert forall|i: int| 0 <= i < parts.len() implies !(#[trigger] parts[i]).contains('/') by {
        if i == 3 {
            assert(parts[3] == "drust"@);
        } else if i == 4 {
            assert(parts[4] == "t"@);
        }
    }
    law_split_undoes_join(parts, '/');
}

/// A consent that is given on the page is one to what the client asked for.
pub proof fn law_consent_is_to_what_was_asked(
    p: ConsentPage,
    q: AuthorizeQuery,
    client_name: Seq<char>,
    form: ConsentForm,
    admin_id: int,
    now: int,
)
    requires
        page_of(p, q, client_name),
        form.client_id@ == p.client_id@,
        form.redirect_uri@ == p.redirect_uri@,
        form.code_challenge@ == p.code_challenge@,
        form.code_challenge_method@ == p.code_challenge_method@,
        form.resource@ == p.resource_uri@,
        opt_view(form.scope) == Some(p.scope@),
        opt_view(form.state) == Some(p.state@),
    ensures
        ({
            let row = code_row(form, admin_id, now);
            &&& row.client_id == q.client_id@ && row.admin_id == admin_id
            &&& row.redirect_uri == q.redirect_uri@
            &&& row.pkce_challenge == q.code_challenge@
            &&& row.pkce_challenge_method == q.code_challenge_method@
            &&& row.resource_uri == q.resource@
            &&& q.scope is Some ==> row.scope == opt_view(q.scope)
            &&& q.state is Some ==> opt_view(form.state) == opt_view(q.state)
        }),
        p.client_name@ == client_name,
{
}

/// The note about a consent names the client, the administrator and the resource.
pub proof fn law_consents_are_noted(form: ConsentForm, admin_id: int)
    ensures
        ({
            let n = consent_note(form, admin_id);
            &&& n.failure is None
            &&& n.extra.contains(("client_id"@, FieldView::Text(form.client_id@)))
            &&& n.extra.contains(("actor_admin_id"@, FieldView::Number(admin_id)))
            &&& n.extra.contains(("resource_uri"@, FieldView::Text(form.resource@)))
        }),
{
    let e = consent_note(form, admin_id).extra;
    assert(e[0] == ("client_id"@, FieldView::Text(form.client_id@)));
    assert(e[1] == ("actor_admin_id"@, FieldView::Number(admin_id)));
    assert(e[2] == ("resource_uri"@, FieldView::Text(form.resource@)));
}

} // verus!
