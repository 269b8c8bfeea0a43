use mgmt::admin_pat::PatCommand;
use mgmt::cli_device::{
    after_redeem, after_start_attempt, approved_token, build_csrf_cookie, check_csrf, csrf_for, deny_note,
    device_approve, device_code_hash, device_page, device_poll, device_start, generate_device_code,
    generate_user_code, read_cookie, render_approval_page, render_approved_page, render_denied_page,
    render_not_found_page, user_code_of, ApproveNext, PollAnswer, PollRow, PollStep, RedeemedToken,
    StartNext, StartReq,
};

const ALPHABET: &str = "ABCDEFGHJKMNPQRSTVWXYZ23456789";

#[test]
fn user_code_excludes_confusables_and_is_grouped() {
    for _ in 0..200 {
        let c = generate_user_code();
        assert_eq!(c.len(), 9);
        assert_eq!(&c[4..5], "-");
        for ch in c.chars().filter(|c| *c != '-') {
            assert!(!"ILOU01".contains(ch), "confusable {ch} leaked into {c}");
            assert!(ALPHABET.contains(ch));
        }
    }
}

#[test]
fn a_user_code_is_made_of_the_places_that_were_drawn() {
    assert_eq!(user_code_of(&vec![0, 1, 2, 3, 4, 5, 6, 7]), "2345-6789");
    assert_eq!(user_code_of(&vec![29, 28, 27, 26, 25, 24, 23, 22]), "ZYXW-VTSR");
}

#[test]
fn an_approval_stores_a_labelled_token() {
    match approved_token(7, "laptop", "abc", 60) {
        PatCommand::Insert { admin_id, hash, plaintext, label, ttl_secs } => {
            assert_eq!((admin_id, plaintext.as_str()), (7, "abc"));
            assert_eq!(hash, "ungWv48Bz-pBQUDeXa4iI7ADYaOWF3qctBD_YfIAFa0");
            assert_eq!((label.as_deref(), ttl_secs), (Some("laptop"), Some(60)));
        }
        other => panic!("{other:?}"),
    }
}

#[test]
fn csrf_is_bound_to_user_code() {
    let secret = [7u8; 32];
    let a = csrf_for(&secret, "ABCD-EFGH");
    assert_eq!(a, csrf_for(&secret, "ABCD-EFGH"));
    assert_ne!(a, csrf_for(&secret, "WXYZ-2345"));
    assert!(check_csrf(&secret, Some("drust_cli_csrf=forged"), "forged", "ABCD-EFGH").is_err());
    let cookie = format!("drust_cli_csrf={a}");
    assert!(check_csrf(&secret, Some(cookie.as_str()), &a, "ABCD-EFGH").is_ok());
    // Neither the cookie nor the form alone is enough.
    assert!(check_csrf(&secret, None, &a, "ABCD-EFGH").is_err());
    assert!(check_csrf(&secret, Some(cookie.as_str()), "", "ABCD-EFGH").is_err());
    assert_ne!(a, csrf_for(&[8u8; 32], "ABCD-EFGH"));
}

#[test]
fn device_code_is_high_entropy_and_hashes_stably() {
    let a = generate_device_code();
    let b = generate_device_code();
    assert_ne!(a, b);
    assert!(a.len() >= 20);
    assert_eq!(device_code_hash(&a), device_code_hash(&a));
    assert!(!device_code_hash(&a).contains(&a));
}

#[test]
fn the_hmac_is_the_known_one() {
    // A well-known test vector.
    assert_eq!(
        csrf_for(&[0x0bu8; 20], "Hi There"),
        "sDRMYdjbOFNcqK_OrwvxK4gdwgDJgz2nJuk3bC4yz_c"
    );
}

#[test]
fn a_client_is_named() {
    let named = Some(StartReq { client_name: Some("  my laptop ".to_string()) });
    assert_eq!(device_start(true, &named).unwrap(), "my laptop");
    let blank = Some(StartReq { client_name: Some("  ".to_string()) });
    assert_eq!(device_start(true, &blank).unwrap(), "drust-cli");
    assert_eq!(device_start(true, &None).unwrap(), "drust-cli");
    let e = device_start(false, &None).unwrap_err();
    assert_eq!((e.status, e.code.as_str()), (429, "RATE_LIMITED_IP"));
}

#[test]
fn a_collision_is_tried_eight_times() {
    match after_start_attempt(true, 0, "dc", "ABCD-EFGH", "https://x", "/b") {
        StartNext::Done(g) => {
            assert_eq!(g.device_code, "dc");
            assert_eq!(g.user_code, "ABCD-EFGH");
            assert!(g.verification_uri_complete.contains("ABCD-EFGH"));
        }
        _ => panic!("it was stored"),
    }
    assert!(matches!(after_start_attempt(false, 0, "d", "u", "", ""), StartNext::Retry));
    assert!(matches!(after_start_attempt(false, 6, "d", "u", "", ""), StartNext::Retry));
    assert!(matches!(after_start_attempt(false, 7, "d", "u", "", ""), StartNext::Failed(_)));
}

fn row(status: &str, expired: bool, since: Option<i64>) -> Result<Option<PollRow>, ()> {
    Ok(Some(PollRow {
        status: status.to_string(),
        expired,
        since_last_ms: since,
        admin_id: Some(3),
    }))
}

fn status_of(s: PollStep) -> (&'static str, bool) {
    match s {
        PollStep::Answer(PollAnswer::Status(t)) => (t, false),
        PollStep::Touch(PollAnswer::Status(t)) => (t, true),
        _ => panic!("no status"),
    }
}

#[test]
fn polls_are_answered_by_the_row() {
    assert_eq!(status_of(device_poll(true, &row("pending", true, None))).0, "expired");
    assert_eq!(status_of(device_poll(true, &row("denied", false, None))).0, "denied");
    assert_eq!(status_of(device_poll(true, &row("pending", false, Some(60_000)))), ("pending", true));
    assert_eq!(status_of(device_poll(true, &row("pending", false, Some(10)))).0, "slow_down");
    assert!(matches!(device_poll(true, &row("approved", false, None)), PollStep::Redeem));
    assert!(matches!(
        device_poll(false, &row("pending", false, None)),
        PollStep::Answer(PollAnswer::Refused(r)) if r.status == 429
    ));
}

#[test]
fn a_token_is_handed_over_with_its_end() {
    let t = RedeemedToken {
        plaintext: Some("tok".to_string()),
        expires_at: Some("e".to_string()),
        email: None,
    };
    match after_redeem(Some(t), Some(3)) {
        PollAnswer::Approved { access_token, admin_id, .. } => {
            assert_eq!(access_token, "tok");
            assert_eq!(admin_id, Some(3));
        }
        _ => panic!("it was approved"),
    }
    assert!(matches!(after_redeem(None, None), PollAnswer::Status("expired")));
    let gone = RedeemedToken { plaintext: None, expires_at: None, email: None };
    assert!(matches!(
        after_redeem(Some(gone), None),
        PollAnswer::Refused(r) if r.code == "DEVICE_TOKEN_MISSING"
    ));
}

#[test]
fn cookies_are_read_by_name() {
    assert_eq!(read_cookie(Some("a=1; b=2"), "b").as_deref(), Some("2"));
    assert_eq!(read_cookie(Some("ab=1"), "b"), None);
    assert_eq!(read_cookie(None, "b"), None);
    assert_eq!(
        build_csrf_cookie("x", "/drust", true),
        "drust_cli_csrf=x; Path=/drust; HttpOnly; SameSite=Lax; Secure"
    );
}

#[test]
fn pages_escape_what_strangers_wrote() {
    let p = render_approval_page("/b", "<script>", Some("a&b@x"), "ABCD-EFGH", "tok");
    assert!(!p.contains("<script>"));
    assert!(p.contains("&lt;script&gt;"));
    assert!(p.contains("a&amp;b@x"));
    assert!(p.contains("ABCD-EFGH"));
    assert!(render_not_found_page().contains("Code not found"));
    assert!(render_denied_page().contains("Request denied"));
    assert!(render_approved_page().contains("Device authorized"));
}

#[test]
fn the_page_of_a_pending_code_sets_a_cookie() {
    let secret = [1u8; 32];
    let (page, cookie) = device_page(&secret, "/b", "/drust", false, "ABCD-EFGH", Some("c"), None);
    let token = csrf_for(&secret, "ABCD-EFGH");
    assert!(page.contains(&token));
    assert!(cookie.unwrap().contains(&token));
    let (page, cookie) = device_page(&secret, "/b", "/drust", false, "ABCD-EFGH", None, None);
    assert!(page.contains("Code not found"));
    assert!(cookie.is_none());
}

#[test]
fn approval_and_denial_are_noted() {
    assert_eq!(deny_note(3, "ABCD-EFGH").op, "POST /auth/cli/device/deny");
    assert!(matches!(device_approve(3, None, true), ApproveNext::NotFound(_)));
    assert!(matches!(
        device_approve(3, Some("c"), false),
        ApproveNext::Refused(r) if r.code == "DEVICE_MINT_FAILED"
    ));
    assert!(matches!(device_approve(3, Some("c"), true), ApproveNext::Approved { .. }));
}
