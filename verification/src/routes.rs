//! Signing in with a password, signing out, and the settings of an
//! administrator.

use vstd::prelude::*;
use crate::audit_note::{
    done, failed, field_views, note_done, note_failed, note_through, number_field, text_field, through,
    AuditNote, Field, FieldView, NoteView, OauthNote, OauthNoteView,
};
use crate::backups::{plain, PlainRefusal};
use crate::frame_guard::framable;
use crate::i18n::Locale;
use crate::oauth_server::return_url::{cookie_value, find_cookie};
use crate::reply::{refusal, refuse, Refusal};
use crate::text::{concat2, first_chars, has_prefix, holds, opt_view, split_on, str_eq, take_chars, views};

verus! {

fn words(status: u16, message: &str) -> (r: PlainRefusal)
    ensures
        plain(r, status, message@),
{
    PlainRefusal { status, message: message.to_owned() }
}

// ---------------------------------------------------------------------------
// Signing in
// ---------------------------------------------------------------------------

/// How somebody signs in with a password.
pub open spec fn by_password() -> OauthNoteView {
    OauthNoteView { method: "password"@, email: None, error_code: None }
}

/// The note about a sign-in that failed.
pub open spec fn login_failed_note(code: Seq<char>, message: Seq<char>) -> NoteView {
    through(
        failed(
            "POST /login"@,
            code,
            message,
            seq![("auth_kind"@, FieldView::Text("admin"@))],
        ),
        by_password(),
    )
}

/// The note about a sign-in.
pub open spec fn login_note(admin_id: int) -> NoteView {
    through(
        done(
            "POST /login"@,
            seq![
                ("admin_id"@, FieldView::Number(admin_id)),
                ("auth_kind"@, FieldView::Text("admin"@)),
            ],
        ),
        by_password(),
    )
}

fn password_method() -> (r: OauthNote)
    ensures
        r@ == by_password(),
{
    OauthNote { method: "password".to_owned(), email: None, error_code: None }
}

fn write_failed_note(code: &str, message: &str) -> (r: AuditNote)
    ensures
        r@ == login_failed_note(code@, message@),
{
    let mut extra: Vec<(String, Field)> = Vec::new();
    extra.push(text_field("auth_kind", "admin"));
    assert(field_views(extra@) =~= seq![("auth_kind"@, FieldView::Text("admin"@))]);
    note_through(note_failed("POST /login", code, message, extra), password_method())
}

/// The administrator that a name belongs to.
#[derive(Debug)]
pub struct AdminRow {
    pub id: i64,
    pub password_hash: String,
    pub locale: Option<String>,
    pub theme: Option<String>,
}

/// What a sign-in that failed answers.
#[derive(Debug)]
pub enum LoginRefusal {
    /// Too many attempts.
    Limited(Refusal),
    /// The login page with these words, and the status 401.
    Page(&'static str),
}

/// How an attempt to sign in ends.
#[derive(Debug)]
pub enum LoginOutcome {
    /// There were too many attempts.
    Limited,
    /// The name or the password is wrong.
    Refused,
    Accepted,
}

/// How an attempt ends, by whether the limit allows it, whether somebody has
/// that name, and whether the password is theirs.
pub open spec fn login_outcome(within_limit: bool, known: bool, right: bool) -> LoginOutcome {
    if !within_limit {
        LoginOutcome::Limited
    } else if known && right {
        LoginOutcome::Accepted
    } else {
        LoginOutcome::Refused
    }
}

/// A wrong password is answered like a name that nobody has, so the answer
/// does not tell whether somebody has it.
pub proof fn law_refusal_keeps_names_secret(within_limit: bool, right: bool)
    ensures
        login_outcome(within_limit, true, false) == login_outcome(within_limit, false, right),
{
}

/// Whose password is compared: that of the administrator, or a made-up one
/// where nobody has that name, so that both take as long.
pub fn hash_to_check<'a>(row: &'a Option<AdminRow>, dummy: &'a str) -> (r: &'a str)
    ensures
        r@ == (match row {
            Some(a) => a.password_hash@,
            None => dummy@,
        }),
{
    match row {
        Some(a) => a.password_hash.as_str(),
        None => dummy,
    }
}

/// Decides a sign-in. `verified` is what came of comparing the password with
/// the hash; a comparison that failed is a wrong password.
pub fn login_submit(within_limit: bool, row: &Option<AdminRow>, verified: Result<bool, String>) -> (r: Result<
    i64,
    (LoginRefusal, AuditNote),
>)
    ensures
        match login_outcome(within_limit, row is Some, verified == Ok::<bool, String>(true)) {
            LoginOutcome::Limited => {
                &&& r is Err
                &&& (r->Err_0).0 is Limited
                &&& (r->Err_0).0->Limited_0@ == refusal(429, "RATE_LIMITED_IP"@, "rate limited"@)
                &&& (r->Err_0).1@ == login_failed_note("HTTP_429"@, "rate limited"@)
            },
            LoginOutcome::Refused => {
                &&& r is Err
                &&& (r->Err_0).0 is Page
                &&& (r->Err_0).0->Page_0@ == "Invalid credentials"@
                &&& (r->Err_0).1@ == login_failed_note("HTTP_401"@, ""@)
            },
            LoginOutcome::Accepted => r == Ok::<i64, (LoginRefusal, AuditNote)>((row->0).id),
        },
{
    if !within_limit {
        return Err(
            (
                LoginRefusal::Limited(refuse(429, "RATE_LIMITED_IP", "rate limited")),
                write_failed_note("HTTP_429", "rate limited"),
            ),
        );
    }
    let right: bool = match verified {
        Ok(b) => b,
        Err(_) => false,
    };
    match row {
        Some(a) => if right {
            Ok(a.id)
        } else {
            Err((LoginRefusal::Page("Invalid credentials"), write_failed_note("HTTP_401", "")))
        },
        None => Err(
            (LoginRefusal::Page("Invalid credentials"), write_failed_note("HTTP_401", "")),
        ),
    }
}

/// How long a session lasts in seconds.
pub fn session_secs(days: u64) -> (r: i64)
    requires
        days * 86400 <= i64::MAX,
    ensures
        r == days * 86400,
{
    (days * 86400) as i64
}

/// A cookie of old that is to go.
pub const OLD_LOCALE_COOKIE: &'static str = "drust_locale=; Path=/; Max-Age=0; SameSite=Lax";

/// A cookie of old that is to go.
pub const OLD_THEME_COOKIE: &'static str = "drust_theme=; Path=/; Max-Age=0; SameSite=Lax";

/// A cookie that a browser is given.
#[derive(Debug)]
pub enum SetCookie {
    /// The session, for so many seconds.
    Session(i64),
    /// One that is to go, in full.
    Expired(&'static str),
    Locale(Locale),
    /// The theme of this code.
    Theme(String),
}

/// A cookie for contracts.
pub enum SetCookieView {
    Session(int),
    Expired(Seq<char>),
    Locale(Locale),
    Theme(Seq<char>),
}

impl View for SetCookie {
    type V = SetCookieView;

    open spec fn view(&self) -> SetCookieView {
        match *self {
            SetCookie::Session(s) => SetCookieView::Session(s as int),
            SetCookie::Expired(t) => SetCookieView::Expired(t@),
            SetCookie::Locale(l) => SetCookieView::Locale(l),
            SetCookie::Theme(t) => SetCookieView::Theme(t@),
        }
    }
}

/// The cookies for contracts.
pub open spec fn cookie_views(v: Seq<SetCookie>) -> Seq<SetCookieView> {
    v.map_values(|c: SetCookie| c@)
}

/// The cookies after a sign-in: the session, the end of those that were once
/// written for every path and would hide the ones of the settings, and what
/// the administrator chose, as far as it is known.
pub open spec fn login_cookies(secs: int, locale: Option<Locale>, theme: Option<Seq<char>>) -> Seq<SetCookieView> {
    let first = seq![
        SetCookieView::Session(secs),
        SetCookieView::Expired(OLD_LOCALE_COOKIE@),
        SetCookieView::Expired(OLD_THEME_COOKIE@),
    ];
    let second = match locale {
        Some(l) => first.push(SetCookieView::Locale(l)),
        None => first,
    };
    match theme {
        Some(t) => second.push(SetCookieView::Theme(t)),
        None => second,
    }
}

/// Where somebody goes who signed in, and what their browser is told.
#[derive(Debug)]
pub struct LoginReply {
    pub location: &'static str,
    pub cookies: Vec<SetCookie>,
    pub note: AuditNote,
}

/// Answers a sign-in. `theme` is the code of the theme that was chosen, if it
/// is one that there is.
pub fn login_reply(admin_id: i64, session_ttl_days: u64, locale: &Option<String>, theme: &Option<String>) -> (r:
    LoginReply)
    requires
        session_ttl_days * 86400 <= i64::MAX,
    ensures
        r.location@ == "/drust/admin/tenants"@,
        cookie_views(r.cookies@) == login_cookies(
            session_ttl_days * 86400,
            match locale {
                Some(l) => Locale::of_tag(l@),
                None => None,
            },
            opt_view(*theme),
        ),
        r.note@ == login_note(admin_id as int),
{
    let mut cookies: Vec<SetCookie> = Vec::new();
    cookies.push(SetCookie::Session(session_secs(session_ttl_days)));
    cookies.push(SetCookie::Expired(OLD_LOCALE_COOKIE));
    cookies.push(SetCookie::Expired(OLD_THEME_COOKIE));
    let chosen: Option<Locale> = match locale {
        Some(l) => Locale::from_tag(l.as_str()),
        None => None,
    };
    if let Some(l) = chosen {
        cookies.push(SetCookie::Locale(l));
    }
    if let Some(t) = theme {
        cookies.push(SetCookie::Theme(t.clone()));
    }
    assert(cookie_views(cookies@) =~= login_cookies(
        session_ttl_days * 86400,
        chosen,
        opt_view(*theme),
    ));
    let mut extra: Vec<(String, Field)> = Vec::new();
    extra.push(number_field("admin_id", admin_id));
    extra.push(text_field("auth_kind", "admin"));
    assert(field_views(extra@) =~= seq![
        ("admin_id"@, FieldView::Number(admin_id as int)),
        ("auth_kind"@, FieldView::Text("admin"@)),
    ]);
    LoginReply {
        location: "/drust/admin/tenants",
        cookies,
        note: note_through(note_done("POST /login", extra), password_method()),
    }
}

// ---------------------------------------------------------------------------
// Signing out
// ---------------------------------------------------------------------------

/// The session that ends when somebody signs out, if there is one.
pub fn logout_submit(cookie_header: Option<&str>) -> (r: Option<String>)
    ensures
        opt_view(r) == (match cookie_header {
            Some(h) => cookie_value(split_on(h@, ';'), "drust_session"@),
            None => None,
        }),
{
    match cookie_header {
        Some(h) => find_cookie(h, "drust_session"),
        None => None,
    }
}

// ---------------------------------------------------------------------------
// Settings
// ---------------------------------------------------------------------------

/// The language of that code.
pub open spec fn locale_of_code(code: Seq<char>) -> Option<Locale> {
    if code == Locale::En.tag() {
        Some(Locale::En)
    } else if code == Locale::ZhTw.tag() {
        Some(Locale::ZhTw)
    } else {
        None
    }
}

/// Finds the language of a code.
pub fn find_locale(code: &str) -> (r: Option<Locale>)
    ensures
        r == locale_of_code(code@),
{
    if str_eq(code, Locale::En.code()) {
        Some(Locale::En)
    } else if str_eq(code, Locale::ZhTw.code()) {
        Some(Locale::ZhTw)
    } else {
        None
    }
}

/// Checks the language of the settings.
pub fn settings_locale_save(locale: &str) -> (r: Result<Locale, PlainRefusal>)
    ensures
        match locale_of_code(locale@) {
            Some(l) => r == Ok::<Locale, PlainRefusal>(l),
            None => r is Err && plain(r->Err_0, 400, "unsupported locale"@),
        },
{
    match find_locale(locale) {
        Some(l) => Ok(l),
        None => Err(words(400, "unsupported locale")),
    }
}

/// Checks the theme of the settings against those there are.
pub fn settings_theme_save(theme: &str, themes: &Vec<String>) -> (r: Result<(), PlainRefusal>)
    ensures
        if views(themes@).contains(theme@) {
            r is Ok
        } else {
            r is Err && plain(r->Err_0, 400, "unsupported theme"@)
        },
{
    if holds(themes, theme) {
        Ok(())
    } else {
        Err(words(400, "unsupported theme"))
    }
}

/// Checks the language and the theme of the settings, in this order.
pub fn settings_combined_save(locale: &str, theme: &str, themes: &Vec<String>) -> (r: Result<
    Locale,
    PlainRefusal,
>)
    ensures
        match locale_of_code(locale@) {
            None => r is Err && plain(r->Err_0, 400, "unsupported locale"@),
            Some(l) => if views(themes@).contains(theme@) {
                r == Ok::<Locale, PlainRefusal>(l)
            } else {
                r is Err && plain(r->Err_0, 400, "unsupported theme"@)
            },
        },
{
    match settings_locale_save(locale) {
        Err(e) => Err(e),
        Ok(l) => match settings_theme_save(theme, themes) {
            Err(e) => Err(e),
            Ok(_) => Ok(l),
        },
    }
}

/// The settings that could not be stored.
#[derive(Clone, Copy, Debug, PartialEq, Eq, Structural)]
pub enum Setting {
    Locale,
    Theme,
    Both,
}

/// Answers settings after they were stored: the page to go to.
pub fn settings_reply(what: Setting, stored: Result<(), String>) -> (r: Result<&'static str, PlainRefusal>)
    ensures
        match stored {
            Ok(_) => r is Ok && r->Ok_0@ == "/drust/admin/settings"@,
            Err(e) => r is Err && plain(
                r->Err_0,
                500,
                (match what {
                    Setting::Locale => "update locale: "@,
                    Setting::Theme => "update theme: "@,
                    Setting::Both => "update settings: "@,
                }) + e@,
            ),
        },
{
    match stored {
        Ok(_) => Ok("/drust/admin/settings"),
        Err(e) => {
            let prefix: &'static str = match what {
                Setting::Locale => "update locale: ",
                Setting::Theme => "update theme: ",
                Setting::Both => "update settings: ",
            };
            Err(PlainRefusal { status: 500, message: concat2(prefix, e.as_str()) })
        },
    }
}

/// A token of an administrator as the tables hold it.
#[derive(Debug)]
pub struct PatRow {
    pub plaintext: Option<String>,
    pub token_hash: String,
    pub last_used_at: Option<String>,
}

/// The beginning of the hash of a token, by which its owner knows it.
pub fn pat_hash_prefix(row: &Option<PatRow>) -> (r: Option<String>)
    ensures
        opt_view(r) == (match row {
            Some(p) => Some(first_chars(p.token_hash@, 8)),
            None => None,
        }),
{
    match row {
        Some(p) => Some(take_chars(p.token_hash.as_str(), 8)),
        None => None,
    }
}

// ---------------------------------------------------------------------------
// Who gets where
// ---------------------------------------------------------------------------

/// The routes that are open to anybody: signing in and out, the sign-in
/// through a provider, addresses that have moved, and files whose address is
/// signed.
pub open spec fn open_route(route: Seq<char>) -> bool {
    ||| route == "/"@
    ||| route == "/login"@
    ||| route == "/logout"@
    ||| route == "/admin/oauth/{provider}/start"@
    ||| route == "/admin/oauth/{provider}/callback"@
    ||| route == "/admin/public-files"@
    ||| route == "/admin/public-files/reconcile"@
    ||| route == "/s/admin/{key}"@
    ||| route == "/s/t/{tenant}/{key}"@
}

/// Whether a route asks for a session. Every route does that is not known to
/// be open.
pub fn needs_session(route: &str) -> (r: bool)
    ensures
        r == !open_route(route@),
{
    !(str_eq(route, "/") || str_eq(route, "/login") || str_eq(route, "/logout") || str_eq(
        route,
        "/admin/oauth/{provider}/start",
    ) || str_eq(route, "/admin/oauth/{provider}/callback") || str_eq(route, "/admin/public-files")
        || str_eq(route, "/admin/public-files/reconcile") || str_eq(route, "/s/admin/{key}")
        || str_eq(route, "/s/t/{tenant}/{key}"))
}

/// A route below `/admin/` is open only where it leads to a sign-in or has
/// moved; and none of those may stand in a frame.
pub proof fn law_console_is_guarded(route: Seq<char>)
    requires
        has_prefix(route, "/admin/"@),
        open_route(route),
    ensures
        route == "/admin/oauth/{provider}/start"@ || route
            == "/admin/oauth/{provider}/callback"@ || route == "/admin/public-files"@ || route
            == "/admin/public-files/reconcile"@,
        !framable(route),
{
    reveal_strlit("/admin/");
    reveal_strlit("/");
    reveal_strlit("/login");
    reveal_strlit("/logout");
    reveal_strlit("/s/admin/{key}");
    reveal_strlit("/s/t/{tenant}/{key}");
    assert(route.subrange(0, 7)[1] == route[1]);
    assert(route.subrange(0, 7)[2] == route[2]);
}

/// Whether the body of a request to this route is limited to the size that an
/// upload may have.
pub fn takes_upload(route: &str) -> (r: bool)
    ensures
        r == (route@ == "/admin/files/upload"@ || route@ == "/admin/tenants/{id}/files/upload"@),
{
    str_eq(route, "/admin/files/upload") || str_eq(route, "/admin/tenants/{id}/files/upload")
}

/// Where a page has moved to for good, if it has.
pub fn moved_to(route: &str) -> (r: Option<&'static str>)
    ensures
        match r {
            Some(l) => {
                ||| route@ == "/admin/public-files"@ && l@ == "/admin/files"@
                ||| route@ == "/admin/public-files/reconcile"@ && route@ != "/admin/public-files"@
                    && l@ == "/admin/files/reconcile"@
            },
            None => route@ != "/admin/public-files"@ && route@
                != "/admin/public-files/reconcile"@,
        },
{
    if str_eq(route, "/admin/public-files") {
        Some("/admin/files")
    } else if str_eq(route, "/admin/public-files/reconcile") {
        Some("/admin/files/reconcile")
    } else {
        None
    }
}

/// Somebody is let in exactly where the limit allows the attempt, the name is known and
/// the password is right; beyond the limit nothing else is looked at.
pub proof fn law_only_the_right_password_lets_in(within_limit: bool, known: bool, right: bool)
    ensures
        login_outcome(within_limit, known, right) is Accepted <==> within_limit && known && right,
        login_outcome(within_limit, known, right) is Limited <==> !within_limit,
{
}

/// Somebody who signs in gets a session for its time, the cookies that would hide others
/// end, and the language and the theme go along exactly where they are known.
pub proof fn law_sign_in_sets_its_cookies(
    secs: int,
    locale: Option<Locale>,
    theme: Option<Seq<char>>,
    l: Locale,
    t: Seq<char>,
)
    ensures
        login_cookies(secs, locale, theme).contains(SetCookieView::Session(secs)),
        login_cookies(secs, locale, theme).contains(SetCookieView::Expired(OLD_LOCALE_COOKIE@)),
        login_cookies(secs, locale, theme).contains(SetCookieView::Expired(OLD_THEME_COOKIE@)),
        login_cookies(secs, locale, theme).contains(SetCookieView::Locale(l)) <==> locale == Some(l),
        login_cookies(secs, locale, theme).contains(SetCookieView::Theme(t)) <==> theme == Some(t),
{
    let c = login_cookies(secs, locale, theme);
    assert(c[0] == SetCookieView::Session(secs));
    assert(c[1] == SetCookieView::Expired(OLD_LOCALE_COOKIE@));
    assert(c[2] == SetCookieView::Expired(OLD_THEME_COOKIE@));
    if locale is Some {
        assert(c[3] == SetCookieView::Locale(locale->0));
    }
    if theme is Some {
        assert(c[c.len() - 1] == SetCookieView::Theme(theme->0));
    }
    if c.contains(SetCookieView::Locale(l)) {
        let i = choose|i: int| 0 <= i < c.len() && c[i] == SetCookieView::Locale(l);
        assert(i == 3);
    }
    if c.contains(SetCookieView::Theme(t)) {
        let i = choose|i: int| 0 <= i < c.len() && c[i] == SetCookieView::Theme(t);
        assert(i == c.len() - 1);
    }
}

/// A language of the settings is known by its own tag, and by nothing else.
pub proof fn law_settings_know_languages_by_tag(l: Locale, code: Seq<char>)
    ensures
        locale_of_code(l.tag()) == Some(l),
        locale_of_code(code) matches Some(m) ==> m.tag() == code,
{
    reveal_strlit("en");
    reveal_strlit("zh-TW");
    assert("en"@.len() == 2 && "zh-TW"@.len() == 5);
}

/// Anybody may sign in and out and follow a signed link.
pub proof fn law_doors_are_open()
    ensures
        open_route("/login"@) && open_route("/logout"@),
        open_route("/admin/oauth/{provider}/start"@),
        open_route("/admin/oauth/{provider}/callback"@),
        open_route("/s/admin/{key}"@) && open_route("/s/t/{tenant}/{key}"@),
        framable("/s/t/{tenant}/{key}"@),
{
}

/// A sign-in is noted with the administrator and no failure; one that failed with its
/// code and no administrator.
pub proof fn law_password_sign_ins_are_noted(admin_id: int, code: Seq<char>, message: Seq<char>)
    ensures
        login_note(admin_id).failure is None,
        login_note(admin_id).extra.contains(("admin_id"@, FieldView::Number(admin_id))),
        login_failed_note(code, message).failure == Some((code, message)),
        login_note(admin_id).op == login_failed_note(code, message).op,
        login_note(admin_id).oauth == login_failed_note(code, message).oauth,
        login_note(admin_id).oauth matches Some(o) && o.method == "password"@,
{
    assert(login_note(admin_id).extra[0] == ("admin_id"@, FieldView::Number(admin_id)));
}

} // verus!
