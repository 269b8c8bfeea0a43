use mgmt::admin_mcp_pat::{
    after_ensure_insert, after_reread, auto_mcp_name, auto_mcp_row, ensure, remint, EnsureNext,
};
use mgmt::admin_pat::{
    after_refresh_revoke, cli_bearer, cli_pat_ttl_secs, cli_token_logout, cli_token_refresh,
    cli_token_revoke, cli_whoami, exchange_aftermath, generate_cli_token, generate_token,
    labeled_revocation, resolve_cli_caller, CliCaller, PatCommand,
};
use mgmt::admin_rooms::{evict_all_rooms_handler, evict_room_handler};
use mgmt::admin_team::{
    after_insert, batch_invite_admin, batch_max, batch_reply, change_role, choose_username, first_token,
    insert_one_admin, invite_admin, invite_reply, is_valid_role, owner_guard, remove_admin,
    require_manage_members, team_page_or_json, validate_email, BatchInviteBody, BatchSkip, Caller, InviteBody,
    InviteOutcome, RoleBody, RoleDecision, SkipReason,
};
use mgmt::admin_tokens::{mint, mint_reply, mint_row, revoke_self, MintBody};
use mgmt::oauth_server::storage::sha256_b64;
use mgmt::pat_evict::PatReach;
use mgmt::quota_admin::{
    check_quota_request, create_quota_request, decide_aftermath, decide_quota_request, patch_quota_reply,
    patch_tenant_quota, quota_request_reply, DecideBody, PendingRequest, QuotaRequestBody, QuotaTierBody,
    TenantQuota,
};

fn boss() -> Caller {
    Caller { id: 1, email: Some("boss@x.org".to_string()) }
}

fn invite(email: &str, role: Option<&str>) -> InviteBody {
    InviteBody { email: email.to_string(), role: role.map(|r| r.to_string()) }
}

fn role(r: &str) -> RoleBody {
    RoleBody { role: r.to_string() }
}

#[test]
fn roles_are_checked() {
    for r in ["owner", "admin", "member"] {
        assert!(is_valid_role(r));
    }
    assert!(!is_valid_role("root"));
    assert!(owner_guard("owner").is_ok());
    assert_eq!(owner_guard("admin").unwrap_err().code, "NOT_OWNER");
    assert!(require_manage_members("admin").is_ok());
    assert!(require_manage_members("member").is_err());
    assert_eq!(team_page_or_json("member").unwrap_err().code, "TEAM_REQUIRES_MANAGEMENT");
}

#[test]
fn addresses_are_checked() {
    for e in ["a@b.c", "first.last+tag@example.org"] {
        assert!(validate_email(e), "{e}");
    }
    for e in ["", "a", "a@", "@b.c", "a@b", "a b@c.d"] {
        assert!(!validate_email(e), "{e}");
    }
}

#[test]
fn a_name_is_found_that_is_free() {
    assert_eq!(choose_username("kael@x.org", &vec![]), "kael");
    let taken = vec!["kael".to_string(), "kael-2".to_string(), "kael2".to_string()];
    let n = choose_username("kael@x.org", &taken);
    assert!(!taken.contains(&n));
    assert!(n.starts_with("kael"));
}

#[test]
fn an_invitation_is_checked_and_answered() {
    let i = invite_admin("owner", &invite("  New@X.org ", None)).unwrap();
    assert_eq!((i.email.as_str(), i.role.as_str()), ("new@x.org", "member"));
    assert_eq!(invite_admin("owner", &invite("bad", None)).unwrap_err().code, "INVALID_EMAIL");
    assert!(invite_admin("member", &invite("a@b.c", None)).is_err());
    assert!(invite_admin("admin", &invite("a@b.c", Some("owner"))).is_err());
    assert!(invite_admin("owner", &invite("a@b.c", Some("king"))).is_err());
    let done = invite_reply(&boss(), i, Ok(InviteOutcome::Created { id: 8 })).unwrap();
    assert_eq!((done.id, done.email.as_str()), (8, "new@x.org"));
    assert_eq!(done.note.actor.unwrap().0, 1);
    let again = invite_admin("owner", &invite("new@x.org", None)).unwrap();
    let taken =
        invite_reply(&boss(), again, Ok(InviteOutcome::Skipped { reason: SkipReason::Exists }));
    assert_eq!(taken.unwrap_err().code, "ADMIN_EMAIL_TAKEN");
}

#[test]
fn a_new_admin_can_only_sign_in_through_a_service() {
    let a = insert_one_admin("a@b.c", "admin", false, &vec![]).unwrap();
    assert_eq!(a.password_hash, "$oauth-only$");
    assert_eq!(insert_one_admin("x", "admin", false, &vec![]).unwrap_err(), SkipReason::Invalid);
    assert_eq!(insert_one_admin("a@b.c", "admin", true, &vec![]).unwrap_err(), SkipReason::Exists);
    assert!(matches!(after_insert(Ok(3)), Ok(InviteOutcome::Created { id: 3 })));
    assert!(matches!(
        after_insert(Err("UNIQUE constraint failed".to_string())),
        Ok(InviteOutcome::Skipped { reason: SkipReason::Exists })
    ));
    assert!(after_insert(Err("io".to_string())).is_err());
}

#[test]
fn a_batch_is_answered_line_by_line() {
    let body = BatchInviteBody {
        emails: vec!["A@b.c".to_string(), "a@B.c".to_string(), "bad".to_string()],
        role: None,
    };
    assert_eq!(batch_invite_admin("owner", &body, 2).unwrap_err().code, "TOO_MANY");
    let b = batch_invite_admin("owner", &body, 9).unwrap();
    assert_eq!(b.emails[0], "a@b.c");
    let outcomes: Vec<InviteOutcome> = b
        .emails
        .iter()
        .enumerate()
        .map(|(i, e)| {
            if e == "bad" {
                InviteOutcome::Skipped { reason: SkipReason::Invalid }
            } else {
                InviteOutcome::Created { id: i as i64 }
            }
        })
        .collect();
    let r = batch_reply(&boss(), &b, &outcomes);
    assert_eq!(r.status, 201);
    assert_eq!(r.created.len() + r.skipped.len(), body.emails.len());
    assert_eq!(r.created, vec![(0, "a@b.c".to_string())]);
    let skipped: Vec<(&str, &str)> = r.skipped.iter().map(|(e, w)| (e.as_str(), w.as_str())).collect();
    assert_eq!(skipped, vec![("bad", "invalid"), ("a@b.c", "duplicate")]);
    assert_eq!(r.notes.len(), r.created.len());
    assert!(batch_max(None) > 0);
    assert_eq!(batch_max(Some("7")), 7);
    assert_eq!(batch_max(Some("x")), batch_max(None));
}

#[test]
fn a_new_admin_starts_with_a_token() {
    match first_token(7, "abc") {
        PatCommand::Insert { admin_id, hash, plaintext, label, ttl_secs } => {
            assert_eq!((admin_id, plaintext.as_str()), (7, "abc"));
            assert_eq!(hash, "ungWv48Bz-pBQUDeXa4iI7ADYaOWF3qctBD_YfIAFa0");
            assert!(label.is_none() && ttl_secs.is_none());
        }
        other => panic!("{other:?}"),
    }
}

#[test]
fn a_named_token_is_stored_by_its_hash() {
    let t = mint_row(7, "ci", "abc");
    assert_eq!((t.admin_id, t.name.as_str(), t.kind), (7, "ci", None));
    assert_eq!(t.hash, "ungWv48Bz-pBQUDeXa4iI7ADYaOWF3qctBD_YfIAFa0");
    let m = auto_mcp_row(7, "abc");
    assert_eq!((m.admin_id, m.name.as_str(), m.kind), (7, "auto-mcp-ungWv48Bz-pB", Some("auto_mcp")));
    assert_eq!(m.hash, t.hash);
}

#[test]
fn a_line_that_repeats_an_address_is_reported() {
    let lines = ["a@x.com", " A@X.com ", "", "b@x.com", "a@x.com", "  "];
    let body = BatchInviteBody { emails: lines.iter().map(|l| l.to_string()).collect(), role: None };
    let b = batch_invite_admin("owner", &body, 9).unwrap();
    assert_eq!(b.emails, vec!["a@x.com", "b@x.com"]);
    assert_eq!(b.repeated, vec!["a@x.com", "a@x.com"]);
    let outcomes = vec![
        InviteOutcome::Created { id: 4 },
        InviteOutcome::Skipped { reason: SkipReason::Exists },
    ];
    let r = batch_reply(&boss(), &b, &outcomes);
    assert_eq!((r.status, r.created), (201, vec![(4, "a@x.com".to_string())]));
    assert_eq!(
        r.skipped,
        vec![
            ("b@x.com".to_string(), BatchSkip::Exists),
            ("a@x.com".to_string(), BatchSkip::Duplicate),
            ("a@x.com".to_string(), BatchSkip::Duplicate),
        ]
    );
}

#[test]
fn the_last_owner_stays() {
    assert!(matches!(
        change_role("owner", Some("owner"), &role("member"), false),
        RoleDecision::Refused(_)
    ));
    assert!(matches!(
        change_role("owner", Some("owner"), &role("member"), true),
        RoleDecision::Update
    ));
    assert!(matches!(
        change_role("owner", Some("admin"), &role("admin"), true),
        RoleDecision::Unchanged
    ));
    assert!(matches!(change_role("owner", None, &role("admin"), true), RoleDecision::Refused(_)));
    assert!(matches!(
        change_role("member", Some("member"), &role("owner"), true),
        RoleDecision::Refused(_)
    ));
    assert!(remove_admin("owner", Some("owner"), false).is_err());
    assert!(remove_admin("owner", Some("owner"), true).is_ok());
    assert!(remove_admin("admin", Some("member"), true).is_ok());
    assert!(remove_admin("admin", Some("owner"), true).is_err());
    assert!(remove_admin("owner", None, true).is_err());
}

#[test]
fn tokens_have_their_prefixes() {
    assert!(generate_token().starts_with("drust_pat_"));
    assert!(generate_cli_token().starts_with("drust_pat_cli_"));
    assert_ne!(generate_token(), generate_token());
}

fn cli(label: Option<&str>) -> CliCaller {
    CliCaller { token_id: 5, admin_id: 6, email: None, label: label.map(|l| l.to_string()) }
}

#[test]
fn a_bearer_is_looked_up_by_its_digest() {
    let t = "drust_pat_cli_abc";
    assert_eq!(cli_bearer(Some(&format!("Bearer {t}"))).unwrap(), sha256_b64(t));
    assert_eq!(cli_bearer(None).unwrap_err().code, "CLI_AUTH_REQUIRED");
    assert!(cli_bearer(Some("Basic x")).is_err());
    let w = cli_whoami(&cli(None), "https://x.org");
    assert_eq!(w.admin_id, 6);
    assert_eq!(w.console.host, "https://x.org");
    assert_eq!(cli_pat_ttl_secs(None), 86_400);
    assert_eq!(cli_pat_ttl_secs(Some("60")), 60);
    assert_eq!(cli_pat_ttl_secs(Some("-1")), 86_400);
}

#[test]
fn a_labeled_token_is_exchanged() {
    let p = cli_token_refresh(&cli(Some("laptop")), "new", 60).unwrap();
    assert!(matches!(p.revoke, PatCommand::RevokeActive { id: 5 }));
    assert!(matches!(
        p.insert,
        PatCommand::Insert { admin_id: 6, hash, ttl_secs: Some(60), .. } if hash == sha256_b64("new")
    ));
    assert_eq!(cli_token_refresh(&cli(None), "n", 60).unwrap_err().code, "NOT_A_CLI_TOKEN");
    assert!(after_refresh_revoke(1).is_ok());
    assert_eq!(after_refresh_revoke(0).unwrap_err().code, "CLI_TOKEN_ALREADY_ROTATED");
    assert!(exchange_aftermath(6, &PatReach::HostWide).sensitive);
    assert!(!cli_token_logout(&cli(None), 0, &PatReach::HostWide).revoked);
    assert_eq!(
        cli_token_revoke(6, 0, &PatReach::HostWide, "").unwrap_err().code,
        "CLI_TOKEN_NOT_FOUND"
    );
    assert_eq!(
        cli_token_revoke(6, 1, &PatReach::HostWide, "/r").unwrap().location,
        "/r/admin/settings"
    );
    assert!(matches!(labeled_revocation(5, 6), PatCommand::RevokeLabeled { id: 5, admin_id: 6 }));
}

#[test]
fn a_machine_token_is_shown_once() {
    let known = ensure(Some("abcdefghij")).unwrap();
    assert!(known.token.is_none());
    assert!(!known.just_minted);
    assert!(ensure(None).is_none());
    assert!(auto_mcp_name("abcdefghij").starts_with("auto-mcp-"));
    match after_ensure_insert(1, "plain", Ok(())) {
        EnsureNext::Minted { reply, .. } => {
            assert_eq!(reply.token.as_deref(), Some("plain"));
            assert!(reply.just_minted);
        }
        _ => panic!("minted"),
    }
    assert!(matches!(
        after_ensure_insert(1, "p", Err("UNIQUE".to_string())),
        EnsureNext::Reread
    ));
    assert!(matches!(
        after_ensure_insert(1, "p", Err("io".to_string())),
        EnsureNext::Refused(_)
    ));
    assert!(after_reread(Err("io".to_string())).is_err());
    assert!(after_reread(Ok("h".to_string())).unwrap().token.is_none());
    assert_eq!(remint(1, "p", Ok(())).unwrap().reply.token.as_deref(), Some("p"));
    assert!(remint(1, "p", Err("io".to_string())).is_err());
}

#[test]
fn named_tokens_are_minted_and_revoked() {
    assert_eq!(mint(&MintBody { name: " ci ".to_string() }).unwrap(), "ci");
    assert!(mint(&MintBody { name: "  ".to_string() }).is_err());
    assert!(mint(&MintBody { name: "x".repeat(500) }).is_err());
    let m = mint_reply(&boss(), "ci".to_string(), "plain".to_string(), Ok(3)).unwrap();
    assert_eq!((m.id, m.plaintext_token.as_str()), (3, "plain"));
    let taken = mint_reply(&boss(), "ci".to_string(), "p".to_string(), Err("UNIQUE".to_string()));
    assert_eq!(taken.unwrap_err().code, "TOKEN_NAME_TAKEN");
    assert!(revoke_self(&boss(), 3, Some("ci"), Ok(1)).is_ok());
    assert_eq!(revoke_self(&boss(), 3, None, Ok(1)).unwrap_err().status, 404);
    assert_eq!(revoke_self(&boss(), 3, Some("ci"), Ok(0)).unwrap_err().status, 404);
    assert_eq!(revoke_self(&boss(), 3, Some("ci"), Err("io".to_string())).unwrap_err().status, 500);
}

#[test]
fn a_quota_grows_by_request() {
    let ask = |t: i64, reason: Option<&str>| {
        check_quota_request(&QuotaRequestBody {
            requested_tier: t,
            reason: reason.map(|r| r.to_string()),
        })
    };
    assert_eq!(ask(2, Some(" more ")).unwrap().as_deref(), Some("more"));
    assert_eq!(ask(2, Some("  ")).unwrap(), None);
    assert!(ask(0, None).is_err());
    assert!(ask(1001, None).is_err());
    let found = |tier, pending| TenantQuota::Found { tier, pending };
    assert!(create_quota_request(3, &found(2, false)).is_ok());
    assert_eq!(create_quota_request(2, &found(2, false)).unwrap_err().code, "QUOTA_TIER_NOT_INCREASE");
    assert_eq!(create_quota_request(3, &found(2, true)).unwrap_err().code, "QUOTA_REQUEST_PENDING");
    assert_eq!(create_quota_request(3, &TenantQuota::Missing).unwrap_err().code, "TENANT_NOT_FOUND");
    assert_eq!(quota_request_reply(1, "t", 3, Ok(9)).unwrap().status, "pending");
    assert!(quota_request_reply(1, "t", 3, Err("io".to_string())).is_err());
    assert!(patch_tenant_quota(true, &QuotaTierBody { tier: 1000 }).is_ok());
    assert_eq!(
        patch_tenant_quota(true, &QuotaTierBody { tier: 1001 }).unwrap_err().code,
        "QUOTA_TIER_INVALID"
    );
    assert_eq!(patch_tenant_quota(false, &QuotaTierBody { tier: 1 }).unwrap_err().code, "NOT_OWNER");
    assert_eq!(patch_quota_reply(1, "t", 3, Ok(1)).unwrap().clear_tenant.as_deref(), Some("t"));
    assert_eq!(patch_quota_reply(1, "t", 3, Ok(0)).unwrap_err().status, 404);
    let p = PendingRequest { tenant_id: "t".to_string(), requested_tier: 3 };
    let yes = DecideBody { action: "approve".to_string() };
    let d = decide_quota_request(&yes, &Some(p)).unwrap();
    assert_eq!((d.approve, d.set_tier, d.status), (true, Some(3), "approved"));
    let p = PendingRequest { tenant_id: "t".to_string(), requested_tier: 3 };
    let no = DecideBody { action: "reject".to_string() };
    assert_eq!(decide_quota_request(&no, &Some(p)).unwrap().set_tier, None);
    let odd = DecideBody { action: "maybe".to_string() };
    assert_eq!(decide_quota_request(&odd, &None).unwrap_err().code, "QUOTA_DECISION_INVALID");
    assert_eq!(decide_quota_request(&yes, &None).unwrap_err().code, "QUOTA_REQUEST_NOT_FOUND");
    let p = PendingRequest { tenant_id: "t".to_string(), requested_tier: 3 };
    assert_eq!(decide_aftermath(1, 9, &p, true).clear_tenant.as_deref(), Some("t"));
    assert_eq!(decide_aftermath(1, 9, &p, false).clear_tenant, None);
}

#[test]
fn rooms_are_closed_and_counted() {
    let all = evict_all_rooms_handler(1, "t", None, 3, 9).unwrap();
    assert_eq!((all.rooms_evicted, all.subscribers_dropped), (3, 9));
    assert_eq!(all.note.tenant, "t");
    let bad = evict_all_rooms_handler(1, "t", Some("bad id".to_string()), 3, 9).unwrap_err();
    assert_eq!((bad.status, bad.message.as_str()), (400, "bad id"));
    let one = evict_room_handler(1, "t", "chat", None, None, true, 2).unwrap();
    assert!(one.evicted);
    assert_eq!(one.room, "chat");
    let bad = evict_room_handler(1, "t", "chat", None, Some("ROOM_INVALID"), true, 2).unwrap_err();
    assert_eq!(bad.code, "ROOM_INVALID");
}

#[test]
fn a_token_without_a_row_is_refused() {
    assert_eq!(resolve_cli_caller(Some(cli(Some("laptop")))).unwrap().token_id, 5);
    let e = resolve_cli_caller(None).unwrap_err();
    assert_eq!((e.status, e.code.as_str()), (401, "CLI_AUTH_REQUIRED"));
    assert_eq!(e.message, "CLI personal access token required or expired");
}
