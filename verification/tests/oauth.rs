use mgmt::oauth_login::{
    callback_admin, callback_checks, oauth_callback, oauth_start, redirect_login_error, sanitize_email,
    secure_from_headers, AdminLookup, VerifiedUser,
};
use mgmt::oauth_server::pkce::verify_s256;
use mgmt::oauth_server::return_url::{build_clear, build_set, read};
use mgmt::oauth_server::storage::{
    access_hit, lookup_access_token, new_access_token, new_auth_code, new_client_id, new_refresh_token,
    sha256_b64, token_of, OauthAccessTokenHit, ACCESS_TOKEN_PREFIX, AUTH_CODE_PREFIX, CLIENT_ID_PREFIX,
    REFRESH_TOKEN_PREFIX,
};

#[test]
fn secure_from_xff_https_yes() {
    assert!(secure_from_headers(Some("https")));
}

#[test]
fn secure_from_xff_http_no() {
    assert!(!secure_from_headers(Some("http")));
}

#[test]
fn secure_no_xff_defaults_false() {
    assert!(!secure_from_headers(None));
}

#[test]
fn rfc7636_appendix_b_example() {
    let v = "dBjftJeZ4CVP-mB92K27uhbUJU1p1r_wW1gFWFOEjXk";
    let c = "E9Melhoa2OwvFrEMTJguCHaoeK1t8URWbuGJSstw-cM";
    assert!(verify_s256(v, c));
}

#[test]
fn rejects_wrong_verifier() {
    assert!(!verify_s256("wrong", "E9Melhoa2OwvFrEMTJguCHaoeK1t8URWbuGJSstw-cM"));
}

#[test]
fn read_decodes_percent_encoded_path() {
    assert_eq!(
        read(Some("drust_oauth_intent=%2Foauth%2Fauthorize%3Fa%3D1")).unwrap(),
        "/oauth/authorize?a=1"
    );
}

#[test]
fn read_returns_none_when_absent() {
    assert!(read(None).is_none());
}

#[test]
fn build_set_uses_path_drust_and_max_age_600() {
    let v = build_set("/oauth/authorize?a=1", true);
    assert!(v.contains("Path=/drust"));
    assert!(v.contains("Max-Age=600"));
    assert!(v.contains("HttpOnly"));
    assert!(v.contains("SameSite=Lax"));
}

#[test]
fn build_clear_uses_max_age_0() {
    let v = build_clear(false);
    assert!(v.contains("Max-Age=0"));
    assert!(v.contains("Path=/drust"));
    assert!(v.contains("SameSite=Lax"));
}

#[test]
fn read_ignores_other_cookies() {
    assert_eq!(
        read(Some("drust_session=abc123; drust_oauth_intent=%2Fadmin%2Ffoo")).unwrap(),
        "/admin/foo"
    );
}

#[test]
fn a_remembered_path_is_read_back_between_other_cookies() {
    for path in ["/oauth/authorize?a=1;b", "/ä", ""] {
        let set = build_set(path, false);
        let own = set.split(';').next().unwrap();
        let h = format!("a=1; xdrust_oauth_intent=2;;  {own} ; b=3; drust_oauth_intent=late");
        assert_eq!(read(Some(&h)).unwrap(), path);
    }
}

#[test]
fn a_remembered_path_is_read_back() {
    for path in ["/oauth/authorize?a=1&b=2", "/ä/ö?x=%20", ""] {
        let set = build_set(path, false);
        let cookie = set.split(';').next().unwrap().to_string();
        assert_eq!(read(Some(cookie.as_str())).unwrap(), path);
    }
}

#[test]
fn prefixes_distinct() {
    assert!(new_access_token().starts_with(ACCESS_TOKEN_PREFIX));
    assert!(new_refresh_token().starts_with(REFRESH_TOKEN_PREFIX));
    assert!(new_auth_code().starts_with(AUTH_CODE_PREFIX));
    assert!(new_client_id().starts_with(CLIENT_ID_PREFIX));
    assert_ne!(new_access_token(), new_access_token());
}

/// The table of access tokens, with one row for a token.
fn table(token: &str, expires: &str) -> rusqlite::Connection {
    let conn = rusqlite::Connection::open_in_memory().unwrap();
    conn.execute_batch(
        "CREATE TABLE t (token_hash TEXT, client_id TEXT, admin_id INTEGER, resource_uri TEXT, expires_at TEXT)",
    )
    .unwrap();
    conn.execute(
        "INSERT INTO t VALUES (?1, 'drust_client_x', 1, 'https://x/t/a/mcp', datetime('now', ?2))",
        [sha256_b64(token).as_str(), expires],
    )
    .unwrap();
    conn
}

/// The row of a token that has not ended.
fn row(conn: &rusqlite::Connection, token: &str) -> Option<(i64, String)> {
    let hash = lookup_access_token(token)?;
    let found = conn
        .query_row(
            "SELECT admin_id, client_id, resource_uri, expires_at FROM t WHERE token_hash = ?1",
            [hash],
            |r| {
                Ok(OauthAccessTokenHit {
                    admin_id: r.get(0)?,
                    client_id: r.get(1)?,
                    resource_uri: r.get(2)?,
                    expires_at: r.get(3)?,
                })
            },
        )
        .ok();
    access_hit(found, chrono::Utc::now().timestamp_millis()).map(|h| (h.admin_id, h.client_id))
}

fn ends(at: &str) -> Option<OauthAccessTokenHit> {
    Some(OauthAccessTokenHit {
        admin_id: 1,
        client_id: "c".to_string(),
        resource_uri: "r".to_string(),
        expires_at: at.to_string(),
    })
}

#[test]
fn a_token_counts_until_the_moment_it_ends() {
    // 2026-05-28T20:26:40.000Z
    let now = 1_780_000_000_000;
    assert!(access_hit(ends("2026-05-28T20:26:40.001Z"), now).is_some());
    assert!(access_hit(ends("2026-05-28T20:26:40.000Z"), now).is_none());
    assert!(access_hit(ends("2026-05-28T00:00:00.000Z"), now).is_none());
    assert!(access_hit(ends("2026-05-28 20:26:41"), now).is_some());
    assert!(access_hit(ends("2026-05-28 20:26:40"), now).is_none());
    assert!(access_hit(ends("2026-05-29 00:00:00"), now).is_some());
    assert!(access_hit(None, now).is_none());
}

#[test]
fn a_token_is_made_of_the_bytes_that_were_drawn() {
    assert_eq!(token_of("drust_at_", &[0, 1, 2]), "drust_at_AAEC");
    assert_eq!(token_of("drust_at_", &[255]), "drust_at__w");
    assert_ne!(token_of("p", &[0, 1, 2]), token_of("p", &[0, 1, 3]));
    assert_ne!(token_of("p", &[0]), token_of("p", &[0, 0]));
}

#[test]
fn lookup_access_token_returns_none_for_wrong_prefix() {
    let conn = table("drust_pat_xxx", "+1 hour");
    assert!(row(&conn, "drust_pat_xxx").is_none());
}

#[test]
fn lookup_access_token_returns_none_for_unknown_hash() {
    let conn = table(&new_access_token(), "+1 hour");
    assert!(row(&conn, "drust_at_unknown").is_none());
}

#[test]
fn lookup_access_token_finds_valid_row() {
    let token = new_access_token();
    let conn = table(&token, "+1 hour");
    assert_eq!(row(&conn, &token).unwrap(), (1, "drust_client_x".to_string()));
}

#[test]
fn lookup_access_token_rejects_expired() {
    let token = new_access_token();
    let conn = table(&token, "-1 second");
    assert!(row(&conn, &token).is_none());
}

#[test]
fn tokens_are_stored_by_their_digest() {
    assert_eq!(sha256_b64("abc"), "ungWv48Bz-pBQUDeXa4iI7ADYaOWF3qctBD_YfIAFa0");
}

#[test]
fn a_sign_in_needs_a_service_and_an_address() {
    assert_eq!(
        oauth_start(true, "https://x", "google").unwrap(),
        "https://x/drust/admin/oauth/google/callback"
    );
    assert!(oauth_start(false, "https://x", "google").is_err());
    assert!(oauth_start(true, "", "google").is_err());
    assert_eq!(redirect_login_error("c"), "/drust/login?oauth_error=c");
    assert_eq!(sanitize_email("ÄB@X.org", true), "äb@x.org");
    assert_eq!(sanitize_email("x", false), "<invalid>");
}

#[test]
fn a_callback_is_checked_in_order() {
    let code = |r: Result<String, mgmt::oauth_login::LoginFailure>| match r {
        Ok(_) => "ok".to_string(),
        Err(f) => f.location.split('=').last().unwrap().to_string(),
    };
    let v = || Some("v".to_string());
    assert_eq!(code(callback_checks(false, true, true, v(), "google")), "rate_limited");
    assert_ne!(code(callback_checks(true, false, true, v(), "google")), "ok");
    assert_ne!(code(callback_checks(true, true, false, v(), "google")), "ok");
    assert_ne!(code(callback_checks(true, true, true, None, "google")), "ok");
    assert_eq!(callback_checks(true, true, true, v(), "google").ok().unwrap(), "v");
}

fn user(verified: bool, valid: bool) -> VerifiedUser {
    VerifiedUser { email: "A@x.org".to_string(), email_verified: verified, email_valid: valid }
}

#[test]
fn only_known_people_are_let_in() {
    let f = AdminLookup::Found(7);
    assert_eq!(callback_admin("google", &Some(user(true, true)), true, &f).ok(), Some(7));
    assert!(callback_admin("google", &None, true, &f).is_err());
    assert!(callback_admin("google", &Some(user(false, true)), true, &f).is_err());
    assert!(callback_admin("google", &Some(user(true, true)), false, &f).is_err());
    assert!(callback_admin("google", &Some(user(true, true)), true, &AdminLookup::Missing).is_err());
    assert!(callback_admin("google", &Some(user(true, true)), true, &AdminLookup::Failed).is_err());
}

#[test]
fn a_sign_in_brings_its_preferences() {
    let s = oauth_callback(
        "google",
        &user(true, true),
        7,
        &Some("zh-TW".to_string()),
        &Some("dark".to_string()),
        false,
    );
    assert_eq!(s.location, "/drust/admin/tenants");
    assert!(s.locale_cookie.unwrap().contains("zh-TW"));
    assert!(s.theme_cookie.is_none());
}
