use mgmt::oauth_clients_admin::{list_clients, revoke_client, revoke_reply, RevokeStep};
use mgmt::oauth_server::authorize::{
    authorize_get, authorize_post, error_redirect, uri_registered, validate_resource_uri, AuthorizeQuery,
    AuthorizeReply, ClientRow, ConsentForm, ConsentOutcome,
};
use mgmt::oauth_server::metadata::{authorization_server, protected_resource};
use mgmt::oauth_server::register::{register_client, validate_redirect_uri, RegisterBody};
use mgmt::oauth_server::storage::{new_auth_code, sha256_b64};
use mgmt::oauth_server::token::{
    handle_code_grant, handle_refresh_grant, mint_pair, server_error, token_endpoint, CodeRow,
    GrantRequest, OauthCommand, RefreshOutcome, RefreshRow, TokenForm,
};

const NOW: i64 = 1_780_000_000_000;
const VERIFIER: &str = "dBjftJeZ4CVP-mB92K27uhbUJU1p1r_wW1gFWFOEjXk";
const CHALLENGE: &str = "E9Melhoa2OwvFrEMTJguCHaoeK1t8URWbuGJSstw-cM";
const RESOURCE: &str = "https://x.org/drust/t/acme/mcp";

fn client() -> Option<ClientRow> {
    Some(ClientRow {
        client_name: "Editor".to_string(),
        redirect_uris_json: "[\"http://localhost:99/cb\"]".to_string(),
    })
}

fn query() -> AuthorizeQuery {
    AuthorizeQuery {
        response_type: "code".to_string(),
        client_id: "c".to_string(),
        redirect_uri: "http://localhost:99/cb".to_string(),
        code_challenge: CHALLENGE.to_string(),
        code_challenge_method: "S256".to_string(),
        state: Some("s t".to_string()),
        resource: RESOURCE.to_string(),
        scope: None,
    }
}

fn consent(decision: &str) -> ConsentForm {
    let q = query();
    ConsentForm {
        client_id: q.client_id,
        redirect_uri: q.redirect_uri,
        code_challenge: q.code_challenge,
        code_challenge_method: q.code_challenge_method,
        state: q.state,
        resource: q.resource,
        scope: q.scope,
        decision: decision.to_string(),
    }
}

fn form(code: &str) -> TokenForm {
    TokenForm {
        grant_type: "authorization_code".to_string(),
        code: Some(code.to_string()),
        code_verifier: Some(VERIFIER.to_string()),
        redirect_uri: Some("http://localhost:99/cb".to_string()),
        client_id: Some("c".to_string()),
        refresh_token: None,
        resource: None,
    }
}

fn approved(code: &str) -> CodeRow {
    match authorize_post(Some(4), &consent("approve"), &client(), code, NOW) {
        ConsentOutcome::Approved(a) => {
            assert_eq!(a.code_hash, sha256_b64(code));
            assert!(a.location.starts_with("http://localhost:99/cb?code="));
            assert!(a.location.contains("state=s%20t"));
            a.row
        }
        _ => panic!("approved"),
    }
}

#[test]
fn a_consent_is_redeemed_for_tokens() {
    let code = new_auth_code();
    let row = approved(&code);
    let g = match token_endpoint(&form(&code)).unwrap() {
        GrantRequest::Code(g) => g,
        _ => panic!("a code"),
    };
    assert_eq!(g.code_hash, sha256_b64(&code));
    let pair = mint_pair();
    let issue = handle_code_grant(&g, &Some(row), &pair, NOW + 1000).unwrap();
    assert_eq!(issue.reply.access_token, pair.access);
    assert_eq!(issue.reply.token_type, "Bearer");
    assert_eq!(issue.reply.expires_in, 3600);
    assert!(matches!(&issue.commands[0], OauthCommand::ConsumeCode { code_hash, .. } if *code_hash == g.code_hash));
    let stored: Vec<&OauthCommand> = issue
        .commands
        .iter()
        .filter(|c| matches!(c, OauthCommand::InsertAccess { .. } | OauthCommand::InsertRefresh { .. }))
        .collect();
    assert_eq!(stored.len(), 2);
}

fn refused(code_row: CodeRow, change: fn(&mut TokenForm), now: i64) -> String {
    let code = "drust_ac_x";
    let mut f = form(code);
    change(&mut f);
    let g = match token_endpoint(&f) {
        Ok(GrantRequest::Code(g)) => g,
        Ok(_) => panic!("a code"),
        Err(e) => return e.error,
    };
    handle_code_grant(&g, &Some(code_row), &mint_pair(), now).err().unwrap().error
}

#[test]
fn a_code_is_refused_where_anything_is_off() {
    let row = || approved("drust_ac_x");
    assert_eq!(refused(row(), |f| f.code_verifier = Some("wrong".to_string()), NOW), "invalid_grant");
    assert_eq!(refused(row(), |f| f.client_id = Some("d".to_string()), NOW), "invalid_grant");
    assert_eq!(refused(row(), |f| f.redirect_uri = Some("https://x".to_string()), NOW), "invalid_grant");
    assert_eq!(refused(row(), |f| f.code = None, NOW), "invalid_request");
    assert_eq!(refused(row(), |_| (), NOW + 600_000), "invalid_grant");
    let mut used = row();
    used.consumed_at = Some("t".to_string());
    assert_eq!(refused(used, |_| (), NOW), "invalid_grant");
    let mut f = form("x");
    f.grant_type = "password".to_string();
    assert_eq!(token_endpoint(&f).err().unwrap().error, "unsupported_grant_type");
    let g = match token_endpoint(&form("x")).unwrap() {
        GrantRequest::Code(g) => g,
        _ => panic!("a code"),
    };
    assert!(handle_code_grant(&g, &None, &mint_pair(), NOW).is_err());
    assert_eq!(server_error("m".to_string()).status, 500);
}

fn refresh_row(issue_at: i64) -> (String, RefreshRow) {
    let code = "drust_ac_x";
    let g = match token_endpoint(&form(code)).unwrap() {
        GrantRequest::Code(g) => g,
        _ => panic!("a code"),
    };
    let pair = mint_pair();
    let issue = handle_code_grant(&g, &Some(approved(code)), &pair, issue_at).unwrap();
    for c in issue.commands {
        if let OauthCommand::InsertRefresh { hash, row } = c {
            assert_eq!(hash, sha256_b64(&pair.refresh));
            return (hash, RefreshRow { token: row, rotated_to_hash: None });
        }
    }
    panic!("no refresh token")
}

#[test]
fn a_refresh_token_is_good_once() {
    let (hash, row) = refresh_row(NOW);
    let pair = mint_pair();
    match handle_refresh_grant(&hash, &Some(row), &pair, NOW + 5000) {
        RefreshOutcome::Issued(i) => {
            assert_eq!(i.reply.refresh_token, pair.refresh);
            assert!(i.commands.iter().any(
                |c| matches!(c, OauthCommand::RotateRefresh { to, .. } if *to == sha256_b64(&pair.refresh))
            ));
        }
        _ => panic!("issued"),
    }
    let (hash, mut row) = refresh_row(NOW);
    row.rotated_to_hash = Some("other".to_string());
    match handle_refresh_grant(&hash, &Some(row), &mint_pair(), NOW + 5000) {
        RefreshOutcome::Reused(r) => {
            assert!(r.commands.iter().any(|c| matches!(c, OauthCommand::DeleteAccess { .. })));
            assert!(r.commands.iter().any(|c| matches!(c, OauthCommand::DeleteRefresh { .. })));
            assert_eq!(r.refusal.error, "invalid_grant");
        }
        _ => panic!("reused"),
    }
    let (hash, row) = refresh_row(NOW);
    assert!(matches!(
        handle_refresh_grant(&hash, &Some(row), &mint_pair(), NOW + 2_592_000_000),
        RefreshOutcome::Refused(_)
    ));
    assert!(matches!(
        handle_refresh_grant("h", &None, &mint_pair(), NOW),
        RefreshOutcome::Refused(_)
    ));
    let mut f = form("x");
    f.grant_type = "refresh_token".to_string();
    assert_eq!(token_endpoint(&f).err().unwrap().error, "invalid_request");
    f.refresh_token = Some("r".to_string());
    assert!(matches!(token_endpoint(&f), Ok(GrantRequest::Refresh(h)) if h == sha256_b64("r")));
}

#[test]
fn a_request_for_consent_is_checked_in_order() {
    let mut q = query();
    q.response_type = "token".to_string();
    assert!(matches!(
        authorize_get(&q, &client(), true, true),
        AuthorizeReply::Redirect(to) if to.contains("error=unsupported_response_type")
    ));
    let mut q = query();
    q.code_challenge_method = "plain".to_string();
    assert!(matches!(
        authorize_get(&q, &client(), true, true),
        AuthorizeReply::Refused(r) if r.code == "INVALID_PKCE"
    ));
    let mut q = query();
    q.resource = "https://x.org/other".to_string();
    assert!(matches!(
        authorize_get(&q, &client(), true, true),
        AuthorizeReply::Refused(r) if r.code == "INVALID_RESOURCE"
    ));
    assert!(matches!(authorize_get(&query(), &None, true, true), AuthorizeReply::Refused(_)));
    let mut q = query();
    q.redirect_uri = "http://localhost:98/cb".to_string();
    assert!(matches!(authorize_get(&q, &client(), true, true), AuthorizeReply::Refused(_)));
    assert!(matches!(
        authorize_get(&query(), &client(), false, true),
        AuthorizeReply::Login { location: "/drust/login", cookie } if cookie.starts_with("drust_oauth_intent=")
    ));
    assert!(matches!(
        authorize_get(&query(), &client(), true, true),
        AuthorizeReply::Consent(p) if p.client_name == "Editor" && p.resource_uri == RESOURCE
    ));
}

#[test]
fn a_denied_consent_is_told_to_the_client() {
    assert!(matches!(
        authorize_post(Some(4), &consent("deny"), &client(), "c", NOW),
        ConsentOutcome::Denied(to) if to.contains("error=access_denied")
    ));
    assert!(matches!(
        authorize_post(None, &consent("approve"), &client(), "c", NOW),
        ConsentOutcome::Refused(r) if r.status == 401
    ));
    assert!(matches!(
        authorize_post(Some(4), &consent("approve"), &None, "c", NOW),
        ConsentOutcome::Refused(_)
    ));
    assert!(error_redirect("https://a/b", "e", &None).contains("error=e"));
}

#[test]
fn only_endpoints_of_tenants_are_resources() {
    assert!(validate_resource_uri(RESOURCE));
    assert!(!validate_resource_uri("https://x.org/drust/t/acme"));
    assert!(!validate_resource_uri(""));
    assert!(uri_registered("[\"a\",\"b\"]", "b"));
    assert!(!uri_registered("[\"a\"]", "b"));
    assert!(!uri_registered("no json", "b"));
}

fn registration(uris: &[&str]) -> RegisterBody {
    RegisterBody {
        client_name: "Editor".to_string(),
        redirect_uris: uris.iter().map(|u| u.to_string()).collect(),
        grant_types: None,
        response_types: None,
        token_endpoint_auth_method: None,
    }
}

#[test]
fn a_client_is_registered_with_its_addresses() {
    let r = register_client(&registration(&["https://a/b"]), true, "drust_client_x").unwrap();
    assert_eq!(r.redirect_uris_json, "[\"https://a/b\"]");
    assert!(uri_registered(&r.redirect_uris_json, "https://a/b"));
    assert_eq!(r.reply.grant_types, vec!["authorization_code", "refresh_token"]);
    assert!(register_client(&registration(&["http://evil"]), true, "c").is_err());
    assert!(register_client(&registration(&[]), true, "c").is_err());
    assert!(register_client(&registration(&["https://a"]), false, "c").is_err());
    assert!(validate_redirect_uri("http://localhost:3/x").is_ok());
    assert!(validate_redirect_uri("http://127.0.0.1/x").is_ok());
    assert!(validate_redirect_uri("http://[::1]/x").is_ok());
    assert!(validate_redirect_uri("ftp://a").is_err());
    // Quotes in an address survive.
    let odd = register_client(&registration(&["https://a/\"\\"]), true, "c").unwrap();
    assert!(uri_registered(&odd.redirect_uris_json, "https://a/\"\\"));
}

#[test]
fn the_server_describes_itself() {
    let m = authorization_server("https://x.org//");
    assert_eq!(m.issuer, "https://x.org/drust");
    assert_eq!(m.token_endpoint, "https://x.org/drust/oauth/token");
    let p = protected_resource("https://x.org");
    assert_eq!(p.resource, "https://x.org/drust/t/{tenant}/mcp");
}

#[test]
fn a_client_is_revoked_by_an_owner() {
    assert_eq!(list_clients(false, Ok(())).unwrap_err().code, "NOT_OWNER");
    assert_eq!(list_clients(true, Err("e".to_string())).unwrap_err().code, "DB_ERROR");
    assert!(list_clients(true, Ok(())).is_ok());
    let (name, steps) = revoke_client(true, Ok(()), Some("Editor".to_string()), 4).unwrap();
    assert_eq!(name, "Editor");
    assert_eq!(
        steps,
        vec![
            RevokeStep::Mark(4),
            RevokeStep::DeleteAccess,
            RevokeStep::DeleteRefresh,
            RevokeStep::DeleteCodes
        ]
    );
    assert_eq!(revoke_client(true, Ok(()), None, 4).unwrap_err().code, "INVALID_CLIENT");
    assert_eq!(revoke_client(false, Ok(()), None, 4).unwrap_err().status, 403);
    assert_eq!(revoke_client(true, Err("e".to_string()), None, 4).unwrap_err().status, 500);
    assert_eq!(revoke_reply(Ok(()), "c", "Editor", 4).unwrap().op, "admin.oauth.client_revoke");
    assert!(revoke_reply(Err("e".to_string()), "c", "Editor", 4).is_err());
}
