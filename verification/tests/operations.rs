use mgmt::clock::{stamp, until_three};
use mgmt::cron_admin::{create, create_payload, ops_error_text, target_text, CronCreateForm, OpsError};
use mgmt::functions_admin::{
    invoke_check, invoke_event, last_run, op_name, set_invoke_acl, sha_short, triggers_summary, write_event,
    Afterwards, FunctionLookup, FunctionOp, InvokeForm, LogRow, TriggerSpec,
};
use mgmt::i18n::Locale;
use mgmt::reply::wants_page;
use mgmt::request_janitor::{prune_counts, retention_runs};
use mgmt::routes::{
    hash_to_check, login_reply, login_submit, logout_submit, moved_to, needs_session, pat_hash_prefix,
    session_secs, settings_combined_save, settings_locale_save, settings_reply, settings_theme_save,
    takes_upload, AdminRow, LoginRefusal, PatRow, SetCookie, Setting,
};
use mgmt::stats::{sample_all, sample_bytes, sampler_runs, Look};

#[test]
fn failures_of_jobs_have_their_words() {
    let w = |e: OpsError| ops_error_text(&e, 4096);
    assert_eq!(w(OpsError::InvalidName), "CRON_INVALID_NAME: job name must match [a-z0-9_-]{1,64}");
    assert_eq!(
        w(OpsError::InvalidSchedule("x".to_string())),
        "CRON_INVALID_SCHEDULE: invalid cron schedule: x"
    );
    assert_eq!(w(OpsError::JobLimit(20)), "CRON_JOB_LIMIT: per-tenant cron job limit reached (20)");
    assert_eq!(
        w(OpsError::PayloadTooLarge),
        "CRON_PAYLOAD_TOO_LARGE: payload must be a JSON object of at most 4096 bytes"
    );
    assert_eq!(
        w(OpsError::RpcUserId),
        "CRON_RPC_USER_ID: rpc declares :user_id — cron has no user identity to bind"
    );
    assert_eq!(w(OpsError::NotFound), "CRON_NOT_FOUND: no such cron job");
    assert!(w(OpsError::TargetNotFound).starts_with("CRON_TARGET_NOT_FOUND"));
    assert!(w(OpsError::Duplicate).starts_with("CRON_DUPLICATE"));
    assert_eq!(w(OpsError::Db("io".to_string())), "INTERNAL_ERROR: io");
}

#[test]
fn jobs_are_made_switched_and_deleted() {
    let form = |payload: &str| CronCreateForm {
        name: "n".to_string(),
        schedule: "* * * * *".to_string(),
        target_kind: "rpc".to_string(),
        target_name: "f".to_string(),
        payload: payload.to_string(),
    };
    assert_eq!(create_payload(&form(" {} ")).as_deref(), Some("{}"));
    assert_eq!(create_payload(&form(" \n")), None);
    assert_eq!(target_text("rpc", "f"), "rpc:f");
    let url = "/r/admin/tenants/t/_cron";
    assert_eq!(create(Ok(()), 1, "/r", "t").unwrap(), ("cron.create", url.to_string()));
    assert!(create(Err(OpsError::Duplicate), 1, "/r", "t").is_err());
    use_toggle(url);
}

fn use_toggle(url: &str) {
    assert!(mgmt::cron_admin::toggle(true, Ok(false), 1).unwrap());
    assert_eq!(mgmt::cron_admin::toggle(true, Err(OpsError::NotFound), 1).unwrap_err().status, 404);
    assert_eq!(mgmt::cron_admin::toggle(true, Err(OpsError::Duplicate), 1).unwrap_err().status, 500);
    assert_eq!(mgmt::cron_admin::toggle(false, Ok(true), 1).unwrap_err().message, "no such tenant");
    assert_eq!(mgmt::cron_admin::toggle_reply(Ok(()), 1, "/r", "t").unwrap().0, "cron.update");
    let done = mgmt::cron_admin::delete(true, Ok(()), 1, "/r", "t").unwrap();
    assert_eq!((done.0, done.1.as_str()), (Some("cron.delete"), url));
    // A job that was gone already counts as deleted.
    let gone = mgmt::cron_admin::delete(true, Err(OpsError::NotFound), 1, "/r", "t").unwrap();
    assert_eq!(gone.0, None);
    assert!(mgmt::cron_admin::delete(true, Err(OpsError::Duplicate), 1, "/r", "t").is_err());
}

#[test]
fn triggers_are_summed_up() {
    let t = Some(vec![
        TriggerSpec::Record {
            collection: "posts".to_string(),
            events: vec!["insert".to_string(), "update".to_string()],
        },
        TriggerSpec::FileUploaded,
    ]);
    assert_eq!(triggers_summary(&t, "raw"), "record.insert|update:posts, file.uploaded");
    assert_eq!(triggers_summary(&None, "raw"), "raw");
    assert_eq!(triggers_summary(&Some(vec![]), "raw"), "");
    assert_eq!(sha_short("0123456789abcdef"), "0123456789ab");
    assert_eq!(sha_short("012"), "012");
    let log = LogRow { status: "ok".to_string(), created_at: "c".to_string() };
    assert_eq!(last_run(&vec![log]), ("ok".to_string(), "c".to_string()));
    assert_eq!(last_run(&vec![]), (String::new(), String::new()));
}

#[test]
fn functions_are_switched_and_deleted() {
    let found = |active| FunctionLookup::Found { active };
    assert!(!mgmt::functions_admin::toggle(true, found(true)).unwrap());
    assert_eq!(mgmt::functions_admin::toggle(true, FunctionLookup::Missing).unwrap_err().status, 404);
    assert_eq!(
        mgmt::functions_admin::toggle(true, FunctionLookup::Failed("x".to_string())).unwrap_err().status,
        500
    );
    assert_eq!(mgmt::functions_admin::toggle(false, found(true)).unwrap_err().message, "no such tenant");
    let (steps, url) = mgmt::functions_admin::toggle_reply(Ok(()), "/r", "t").unwrap();
    assert_eq!(steps, vec![Afterwards::ForgetTriggers, Afterwards::Note(FunctionOp::Update)]);
    assert_eq!(url, "/r/admin/tenants/t/_functions");
    assert!(set_invoke_acl(true, Ok(true), "", "t").is_ok());
    assert_eq!(set_invoke_acl(true, Ok(false), "", "t").unwrap_err().message, "no such function");
    assert_eq!(
        mgmt::functions_admin::delete(true, Ok(true), "", "t").unwrap().0,
        Some(FunctionOp::Delete)
    );
    assert_eq!(mgmt::functions_admin::delete(true, Ok(false), "", "t").unwrap().0, None);
    assert!(mgmt::functions_admin::delete(true, Err("x".to_string()), "", "t").is_err());
    assert_eq!(op_name(FunctionOp::Delete), "function.delete");
    assert!(invoke_check(false, FunctionLookup::Missing).is_ok());
    assert!(invoke_check(true, FunctionLookup::Missing).is_err());
}

#[test]
fn an_event_that_is_no_json_becomes_a_text() {
    let event = |s: &str| invoke_event(&InvokeForm { event: s.to_string() });
    assert_eq!(event(" {\"a\": 1} "), "{\"a\": 1}");
    assert_eq!(event("hi \"you\""), "\"hi \\\"you\\\"\"");
    assert_eq!(event(""), "\"\"");
    assert_eq!(write_event(" x ", false), "\" x \"");
    assert_eq!(write_event(" x ", true), "x");
}

#[test]
fn a_failed_sweep_leaves_the_other_alone() {
    assert_eq!(prune_counts(Err("x".to_string()), Ok(4)), (0, 4));
    assert_eq!(prune_counts(Ok(2), Err("x".to_string())), (2, 0));
    assert!(retention_runs(0, 1) && retention_runs(1, 0));
    assert!(!retention_runs(0, 0));
}

#[test]
fn the_next_sweep_is_at_three() {
    let day = 86_400_000i64;
    assert_eq!(until_three(0), 10_800_000);
    assert_eq!(until_three(10_800_000), day as u64);
    assert_eq!(until_three(10_799_999), 1);
    assert_eq!(until_three(-1), 10_800_001);
    assert_eq!(until_three(20 * day + 14_400_000), 82_800_000);
    assert_eq!(stamp(0), "1970-01-01T00:00:00.000Z");
    assert_eq!(stamp(1_780_000_000_123), "2026-05-28T20:26:40.123Z");
}

fn admin() -> Option<AdminRow> {
    Some(AdminRow {
        id: 5,
        password_hash: "hash".to_string(),
        locale: Some("zh-TW".to_string()),
        theme: None,
    })
}

#[test]
fn a_refused_sign_in_tells_nothing() {
    assert_eq!(login_submit(true, &admin(), Ok(true)).ok(), Some(5));
    let wrong = login_submit(true, &admin(), Ok(false)).err().unwrap();
    let nobody = login_submit(true, &None, Ok(true)).err().unwrap();
    let failed = login_submit(true, &admin(), Err("x".to_string())).err().unwrap();
    for r in [wrong, nobody, failed] {
        assert!(matches!(r.0, LoginRefusal::Page("Invalid credentials")));
        assert_eq!(r.1.failure.unwrap(), ("HTTP_401".to_string(), String::new()));
    }
    let limited = login_submit(false, &admin(), Ok(true)).err().unwrap();
    assert!(matches!(limited.0, LoginRefusal::Limited(r) if r.code == "RATE_LIMITED_IP"));
    assert_eq!(hash_to_check(&admin(), "dummy"), "hash");
    assert_eq!(hash_to_check(&None, "dummy"), "dummy");
    assert_eq!(session_secs(7), 604_800);
}

#[test]
fn a_sign_in_sets_its_cookies_in_order() {
    let r = login_reply(5, 7, &Some("zh-TW".to_string()), &Some("dark".to_string()));
    assert_eq!(r.location, "/drust/admin/tenants");
    assert_eq!(r.cookies.len(), 5);
    assert!(matches!(r.cookies[0], SetCookie::Session(604_800)));
    assert!(matches!(r.cookies[1], SetCookie::Expired(c) if c.starts_with("drust_locale=;")));
    assert!(matches!(r.cookies[2], SetCookie::Expired(c) if c.starts_with("drust_theme=;")));
    assert!(matches!(r.cookies[3], SetCookie::Locale(Locale::ZhTw)));
    assert!(matches!(&r.cookies[4], SetCookie::Theme(t) if t == "dark"));
    assert_eq!(r.note.op, "POST /login");
    assert_eq!(login_reply(5, 7, &Some("fr".to_string()), &None).cookies.len(), 3);
    assert_eq!(logout_submit(Some("a=1; drust_session=tok")).as_deref(), Some("tok"));
    assert_eq!(logout_submit(Some("a=1")), None);
    assert_eq!(logout_submit(None), None);
}

#[test]
fn settings_are_checked() {
    let themes = vec!["light".to_string(), "dark".to_string()];
    assert_eq!(settings_locale_save("zh-TW").unwrap(), Locale::ZhTw);
    assert_eq!(settings_locale_save("zh").unwrap_err().message, "unsupported locale");
    assert!(settings_theme_save("dark", &themes).is_ok());
    assert_eq!(settings_theme_save("neon", &themes).unwrap_err().message, "unsupported theme");
    assert_eq!(settings_combined_save("en", "dark", &themes).unwrap(), Locale::En);
    assert_eq!(
        settings_combined_save("xx", "neon", &themes).unwrap_err().message,
        "unsupported locale"
    );
    assert_eq!(settings_reply(Setting::Both, Ok(())).unwrap(), "/drust/admin/settings");
    assert_eq!(
        settings_reply(Setting::Theme, Err("io".to_string())).unwrap_err().message,
        "update theme: io"
    );
    let pat = PatRow {
        plaintext: None,
        token_hash: "abcdefghij".to_string(),
        last_used_at: None,
    };
    assert_eq!(pat_hash_prefix(&Some(pat)).as_deref(), Some("abcdefgh"));
    assert_eq!(pat_hash_prefix(&None), None);
}

#[test]
fn routes_ask_for_a_session() {
    for open in ["/", "/login", "/logout", "/s/admin/{key}", "/admin/oauth/{provider}/start"] {
        assert!(!needs_session(open), "{open}");
    }
    for guarded in ["/admin/tenants", "/admin/settings", "/admin/files/upload", "/new"] {
        assert!(needs_session(guarded), "{guarded}");
    }
    assert!(takes_upload("/admin/files/upload"));
    assert!(!takes_upload("/admin/files"));
    assert_eq!(moved_to("/admin/public-files"), Some("/admin/files"));
    assert_eq!(moved_to("/admin/public-files/reconcile"), Some("/admin/files/reconcile"));
    assert_eq!(moved_to("/admin/files"), None);
}

#[test]
fn a_tenant_that_cannot_be_read_keeps_its_sizes() {
    assert_eq!(sample_bytes(Some(4096), Some(77)), (4096, 77));
    assert_eq!(sample_bytes(None, Some(77)), (0, 0));
    assert_eq!(sample_bytes(Some(4096), None), (0, 0));
    let look = |id: &str, n: Option<u64>| Look { id: id.to_string(), file_len: n, files_total: Some(1) };
    let rows = sample_all(&vec![look("a", Some(10)), look("b", None), look("c", Some(30))]);
    let seen: Vec<(&str, i64, i64)> =
        rows.iter().map(|s| (s.id.as_str(), s.db_bytes, s.files_bytes)).collect();
    assert_eq!(seen, vec![("a", 10, 1), ("c", 30, 1)]);
    assert!(sampler_runs(300) && !sampler_runs(0));
}

#[test]
fn a_browser_gets_a_page() {
    assert!(wants_page(Some("text/html,application/xhtml+xml")));
    assert!(!wants_page(Some("text/html, application/json")));
    assert!(!wants_page(Some("*/*")));
    assert!(!wants_page(None));
}
