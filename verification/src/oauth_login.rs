//! Signing in to the console through another service.
//!
//! Whatever goes wrong, the visitor lands on the login page with a code that
//! says what; what concerns a person is written to the audit log too.

use vstd::prelude::*;
use crate::audit_note::{done, failed, field_views, note_done, note_failed, note_through, number_field, text_field, through, AuditNote, Field, FieldView, NoteView, OauthNote, OauthNoteView};
use crate::text::{
    concat2, concat3, has_prefix, has_suffix, lower, opt_view, str_eq, to_lower_text,
};
use crate::url::{lemma_first_param, one_param, params, path_of};

verus! {

#[derive(Debug)]
pub struct CallbackQuery {
    pub code: String,
    pub state: String,
}

/// Whether the request reached the server's proxy by HTTPS.
pub fn secure_from_headers(forwarded_proto: Option<&str>) -> (r: bool)
    ensures
        r == (forwarded_proto matches Some(p) && p@ == "https"@),
{
    match forwarded_proto {
        Some(p) => str_eq(p, "https"),
        None => false,
    }
}

/// The login page with an error code.
pub open spec fn login_error(code: Seq<char>) -> Seq<char> {
    "/drust/login?oauth_error="@ + code
}

/// The location of the login page with an error code.
pub fn redirect_login_error(code: &str) -> (r: String)
    ensures
        r@ == login_error(code@),
{
    concat2("/drust/login?oauth_error=", code)
}

/// Where the service sends a visitor back to.
pub open spec fn callback_uri(public_url: Seq<char>, provider: Seq<char>) -> Seq<char> {
    public_url + "/drust/admin/oauth/"@ + provider + "/callback"@
}

pub fn callback_uri_of(public_url: &str, provider: &str) -> (r: String)
    ensures
        r@ == callback_uri(public_url@, provider@),
{
    let s: String = concat3(public_url, "/drust/admin/oauth/", provider);
    concat2(s.as_str(), "/callback")
}

/// Begins a sign-in: the URI the service sends the visitor back to, or the
/// page to go to where the service or the public address is not set up.
pub fn oauth_start(provider_known: bool, public_url: &str, provider: &str) -> (r: Result<String, String>)
    ensures
        if !provider_known || public_url@.len() == 0 {
            r is Err && r->Err_0@ == login_error("oauth_misconfigured"@)
        } else {
            r matches Ok(uri) && uri@ == callback_uri(public_url@, provider@)
        },
{
    if !provider_known || public_url.is_empty() {
        return Err(redirect_login_error("oauth_misconfigured"));
    }
    Ok(callback_uri_of(public_url, provider))
}

/// An address as it is written to the log: in lower case, and not at all
/// where it is none.
pub open spec fn logged_email(email: Seq<char>, valid: bool) -> Seq<char> {
    if valid {
        lower(email)
    } else {
        "<invalid>"@
    }
}

/// Prepares an address for the log, given whether it is one.
pub fn sanitize_email(email: &str, valid: bool) -> (r: String)
    ensures
        r@ == logged_email(email@, valid),
{
    if valid {
        to_lower_text(email)
    } else {
        "<invalid>".to_owned()
    }
}

/// The note about a sign-in that failed.
pub open spec fn failure_note(provider: Seq<char>, email: Option<Seq<char>>, code: Seq<char>) -> NoteView {
    through(
        failed(
            "GET /admin/oauth/"@ + provider + "/callback"@,
            "HTTP_403"@,
            ""@,
            seq![("auth_kind"@, FieldView::Text("admin"@))],
        ),
        OauthNoteView { method: "oauth_"@ + provider, email, error_code: Some(code) },
    )
}

/// Writes the note about a sign-in that failed; the address is one prepared for the log.
pub fn audit_oauth_failure(provider: &str, email: Option<String>, code: &str) -> (r: AuditNote)
    ensures
        r@ == failure_note(provider@, opt_view(email), code@),
{
    let op: String = concat3("GET /admin/oauth/", provider, "/callback");
    let mut extra: Vec<(String, Field)> = Vec::new();
    extra.push(text_field("auth_kind", "admin"));
    assert(field_views(extra@) =~= seq![("auth_kind"@, FieldView::Text("admin"@))]);
    note_through(
        note_failed(op.as_str(), "HTTP_403", "", extra),
        OauthNote {
            method: concat2("oauth_", provider),
            email,
            error_code: Some(code.to_owned()),
        },
    )
}

/// The note about a sign-in.
pub open spec fn success_note(provider: Seq<char>, email: Seq<char>, admin_id: int) -> NoteView {
    through(
        done(
            "GET /admin/oauth/"@ + provider + "/callback"@,
            seq![
                ("admin_id"@, FieldView::Number(admin_id)),
                ("auth_kind"@, FieldView::Text("admin"@)),
            ],
        ),
        OauthNoteView { method: "oauth_"@ + provider, email: Some(email), error_code: None },
    )
}

/// Writes the note about a sign-in; the address is one prepared for the log.
pub fn audit_oauth_success(provider: &str, email: String, admin_id: i64) -> (r: AuditNote)
    ensures
        r@ == success_note(provider@, email@, admin_id as int),
{
    let op: String = concat3("GET /admin/oauth/", provider, "/callback");
    let mut extra: Vec<(String, Field)> = Vec::new();
    extra.push(number_field("admin_id", admin_id));
    extra.push(text_field("auth_kind", "admin"));
    assert(field_views(extra@) =~= seq![
        ("admin_id"@, FieldView::Number(admin_id as int)),
        ("auth_kind"@, FieldView::Text("admin"@)),
    ]);
    note_through(
        note_done(op.as_str(), extra),
        OauthNote { method: concat2("oauth_", provider), email: Some(email), error_code: None },
    )
}

/// A sign-in that ends on the login page: where to go, and the note to write if any.
#[derive(Debug)]
pub struct LoginFailure {
    pub location: String,
    pub note: Option<AuditNote>,
}

/// The failure has this code and no note.
pub open spec fn silent(f: LoginFailure, code: Seq<char>) -> bool {
    f.location@ == login_error(code) && f.note is None
}

/// The failure has this code and a note about that address.
pub open spec fn noted(f: LoginFailure, provider: Seq<char>, email: Option<Seq<char>>, code: Seq<char>) -> bool {
    f.location@ == login_error(code) && (f.note matches Some(n) && n@ == failure_note(
        provider,
        email,
        code,
    ))
}

fn fail_silently(code: &str) -> (r: LoginFailure)
    ensures
        silent(r, code@),
{
    LoginFailure { location: redirect_login_error(code), note: None }
}

fn fail_noted(provider: &str, email: Option<String>, code: &str) -> (r: LoginFailure)
    ensures
        noted(r, provider@, opt_view(email), code@),
{
    LoginFailure {
        location: redirect_login_error(code),
        note: Some(audit_oauth_failure(provider, email, code)),
    }
}

/// Checks a visitor who comes back from a service and gives the verifier of
/// the proof key, without asking the service yet.
pub fn callback_checks(
    within_limit: bool,
    provider_known: bool,
    state_ok: bool,
    verifier: Option<String>,
    provider: &str,
) -> (r: Result<String, LoginFailure>)
    ensures
        if !within_limit {
            r is Err && noted(r->Err_0, provider@, None, "rate_limited"@)
        } else if !provider_known {
            r is Err && silent(r->Err_0, "oauth_misconfigured"@)
        } else if !state_ok || !(verifier matches Some(v) && v@.len() > 0) {
            r is Err && silent(r->Err_0, "oauth_state_mismatch"@)
        } else {
            r == Ok::<String, LoginFailure>(verifier->0)
        },
{
    if !within_limit {
        return Err(fail_noted(provider, None, "rate_limited"));
    }
    if !provider_known {
        return Err(fail_silently("oauth_misconfigured"));
    }
    if !state_ok {
        return Err(fail_silently("oauth_state_mismatch"));
    }
    match verifier {
        Some(v) => if v.as_str().is_empty() {
            Err(fail_silently("oauth_state_mismatch"))
        } else {
            Ok(v)
        },
        None => Err(fail_silently("oauth_state_mismatch")),
    }
}

/// The person that a service vouches for.
#[derive(Debug)]
pub struct VerifiedUser {
    pub email: String,
    pub email_verified: bool,
    /// Whether the address is one.
    pub email_valid: bool,
}

/// The administrator that the tables hold for an address.
#[derive(Debug)]
pub enum AdminLookup {
    Found(i64),
    Missing,
    Failed,
}

/// Decides whether the person that a service vouches for is let in, and as
/// which administrator.
pub fn callback_admin(
    provider: &str,
    user: &Option<VerifiedUser>,
    on_allowlist: bool,
    admin: &AdminLookup,
) -> (r: Result<i64, LoginFailure>)
    ensures
        match user {
            None => r is Err && silent(r->Err_0, "oauth_provider_error"@),
            Some(u) => {
                let email = Some(logged_email(u.email@, u.email_valid));
                if !u.email_verified {
                    r is Err && noted(r->Err_0, provider@, email, "oauth_email_unverified"@)
                } else if !on_allowlist {
                    r is Err && noted(r->Err_0, provider@, email, "oauth_not_allowed"@)
                } else {
                    match admin {
                        AdminLookup::Found(id) => r == Ok::<i64, LoginFailure>(*id),
                        AdminLookup::Missing => r is Err && noted(
                            r->Err_0,
                            provider@,
                            email,
                            "oauth_admin_email_missing"@,
                        ),
                        AdminLookup::Failed => r is Err && silent(
                            r->Err_0,
                            "oauth_provider_error"@,
                        ),
                    }
                }
            },
        },
{
    let u: &VerifiedUser = match user {
        Some(u) => u,
        None => {
            return Err(fail_silently("oauth_provider_error"));
        },
    };
    if !u.email_verified {
        let e: String = sanitize_email(u.email.as_str(), u.email_valid);
        return Err(fail_noted(provider, Some(e), "oauth_email_unverified"));
    }
    if !on_allowlist {
        let e: String = sanitize_email(u.email.as_str(), u.email_valid);
        return Err(fail_noted(provider, Some(e), "oauth_not_allowed"));
    }
    match admin {
        AdminLookup::Found(id) => Ok(*id),
        AdminLookup::Missing => {
            let e: String = sanitize_email(u.email.as_str(), u.email_valid);
            Err(fail_noted(provider, Some(e), "oauth_admin_email_missing"))
        },
        AdminLookup::Failed => Err(fail_silently("oauth_provider_error")),
    }
}

/// Where somebody who was let in goes, with the settings that their browser
/// learns.
#[derive(Debug)]
pub struct SignedIn {
    pub location: &'static str,
    pub locale_cookie: Option<String>,
    pub theme_cookie: Option<String>,
    pub note: AuditNote,
}

/// A cookie for a year.
pub open spec fn year_cookie(name: Seq<char>, value: Seq<char>) -> Seq<char> {
    name + value + "; Path=/; Max-Age=31536000; SameSite=Lax"@
}

/// Finishes a sign-in. The stored language and theme go along where they are known.
pub fn oauth_callback(
    provider: &str,
    user: &VerifiedUser,
    admin_id: i64,
    locale: &Option<String>,
    theme: &Option<String>,
    theme_known: bool,
) -> (r: SignedIn)
    ensures
        r.location@ == "/drust/admin/tenants"@,
        opt_view(r.locale_cookie) == (match locale {
            Some(l) => if l@ == "en"@ || l@ == "zh-TW"@ {
                Some(year_cookie("drust_locale="@, l@))
            } else {
                None
            },
            None => None,
        }),
        opt_view(r.theme_cookie) == (match theme {
            Some(t) => if theme_known {
                Some(year_cookie("drust_theme="@, t@))
            } else {
                None
            },
            None => None,
        }),
        r.note@ == success_note(
            provider@,
            logged_email(user.email@, user.email_valid),
            admin_id as int,
        ),
{
    let locale_cookie: Option<String> = match locale {
        Some(l) => if str_eq(l.as_str(), "en") || str_eq(l.as_str(), "zh-TW") {
            Some(
                concat3(
                    "drust_locale=",
                    l.as_str(),
                    "; Path=/; Max-Age=31536000; SameSite=Lax",
                ),
            )
        } else {
            None
        },
        None => None,
    };
    let theme_cookie: Option<String> = match theme {
        Some(t) => if theme_known {
            Some(
                concat3(
                    "drust_theme=",
                    t.as_str(),
                    "; Path=/; Max-Age=31536000; SameSite=Lax",
                ),
            )
        } else {
            None
        },
        None => None,
    };
    let email: String = sanitize_email(user.email.as_str(), user.email_valid);
    SignedIn {
        location: "/drust/admin/tenants",
        locale_cookie,
        theme_cookie,
        note: audit_oauth_success(provider, email, admin_id),
    }
}

/// Whatever goes wrong leads to the login page, which is told what it was.
pub proof fn law_failures_land_on_the_login_page(code: Seq<char>)
    requires
        one_param(code),
    ensures
        path_of(login_error(code)) == "/drust/login"@,
        params(login_error(code)) == seq!["oauth_error="@ + code],
{
    reveal_strlit("/drust/login?oauth_error=");
    reveal_strlit("/drust/login");
    reveal_strlit("?");
    reveal_strlit("oauth_error=");
    let p = "oauth_error="@ + code;
    assert forall|i: int| 0 <= i < p.len() implies #[trigger] p[i] != '&' by {
        if i >= 12 {
            assert(p[i] == code[i - 12]);
        }
    }
    assert(!"/drust/login"@.contains('?'));
    lemma_first_param("/drust/login"@, p);
    assert(login_error(code) =~= "/drust/login"@ + "?"@ + p);
}

/// What is no address is not written to the log at all, and an address only in lower
/// case.
pub proof fn law_log_holds_addresses_only(a: Seq<char>, b: Seq<char>)
    ensures
        logged_email(a, false) == logged_email(b, false),
        logged_email(a, true) == lower(a),
{
}

/// The note about a sign-in names the service, the address and the administrator and no
/// error; that about a failed one names the error.
pub proof fn law_sign_ins_are_noted(provider: Seq<char>, email: Seq<char>, admin_id: int, code: Seq<char>)
    ensures
        ({
            let n = success_note(provider, email, admin_id);
            &&& n.failure is None
            &&& n.oauth matches Some(o) && o.method == "oauth_"@ + provider && o.email == Some(email)
                && o.error_code is None
            &&& n.extra.contains(("admin_id"@, FieldView::Number(admin_id)))
        }),
        ({
            let n = failure_note(provider, Some(email), code);
            &&& n.failure is Some
            &&& n.oauth matches Some(o) && o.method == "oauth_"@ + provider && o.email == Some(email)
                && o.error_code == Some(code)
        }),
        success_note(provider, email, admin_id).op == failure_note(provider, None, code).op,
{
    assert(success_note(provider, email, admin_id).extra[0] == (
        "admin_id"@,
        FieldView::Number(admin_id),
    ));
}

/// A failure that is noted and one that is not lead to the same page.
pub proof fn law_notes_do_not_change_the_way(
    f: LoginFailure,
    g: LoginFailure,
    provider: Seq<char>,
    email: Option<Seq<char>>,
    code: Seq<char>,
)
    requires
        silent(f, code),
        noted(g, provider, email, code),
    ensures
        f.location@ == g.location@,
        f.note is None && g.note is Some,
        ((g.note->0)@).failure is Some,
{
}

/// The service sends a visitor back to this console, under the name of the service.
pub proof fn law_services_send_visitors_back(public_url: Seq<char>, provider: Seq<char>)
    ensures
        has_prefix(callback_uri(public_url, provider), public_url),
        has_suffix(callback_uri(public_url, provider), "/drust/admin/oauth/"@ + provider + "/callback"@),
        callback_uri(public_url, provider).len() == public_url.len() + ("/drust/admin/oauth/"@
            + provider + "/callback"@).len(),
{
    let u = callback_uri(public_url, provider);
    let tail = "/drust/admin/oauth/"@ + provider + "/callback"@;
    assert(u =~= public_url + tail);
    assert(u.subrange(0, public_url.len() as int) =~= public_url);
    assert(u.subrange(u.len() - tail.len(), u.len() as int) =~= tail);
}

/// A cookie for a year begins with its name and its value.
pub proof fn law_year_cookies_hold_their_value(name: Seq<char>, value: Seq<char>)
    ensures
        has_prefix(year_cookie(name, value), name + value),
        has_suffix(year_cookie(name, value), "; Path=/; Max-Age=31536000; SameSite=Lax"@),
{
    let c = year_cookie(name, value);
    let tail = "; Path=/; Max-Age=31536000; SameSite=Lax"@;
    assert(c.subrange(0, (name + value).len() as int) =~= name + value);
    assert(c.subrange(c.len() - tail.len(), c.len() as int) =~= tail);
}

} // verus!
