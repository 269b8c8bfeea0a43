use chrono::{Duration, Utc};
use mgmt::audit::{
    audit_admin, audit_json, audit_tenant_json, audit_tenant_page, base_link, browse_page, build_body_ctx, distinct_ops_capped,
    enumerate_audit_files, extra_of_row, format_ts_display, overview_of, parse_jsonl_line, parse_lines,
    percentile, plan, read_file, resolve_tenant_name, row_to_entry, scan_window, tenant_summaries,
    ts_display_of, url_with, AuditContent, AuditEntry, AuditEntryView, AuditQuery, AuditRow, AuditScope,
    FileRead, OverviewRows, TenantSummary, TopTenant, Window,
};
use mgmt::json::{object_names, Json};
use mgmt::script_json::escape_json_for_script;
use std::io::Write;

fn entry_line(ts: &str, tenant: &str, op: &str, status: &str, ms: u64) -> String {
    format!(
        r#"{{"ts":"{ts}","tenant":"{tenant}","token_hint":"hash0001","op":"{op}","status":"{status}","duration_ms":{ms}}}"#
    )
}

fn mk_entry(ts: &str, tenant: &str, op: &str, status: &str, ms: u64) -> AuditEntry {
    let line = entry_line(ts, tenant, op, status, ms);
    parse_jsonl_line(&line).unwrap()
}

fn name(id: &str, name: &str) -> TenantSummary {
    TenantSummary { id: id.to_string(), name: name.to_string() }
}

fn file(name: String, text: &str) -> FileRead {
    read_file(&name, Some(text.as_bytes().to_vec()))
}

fn gz(text: &str) -> Vec<u8> {
    let mut enc = flate2::write::GzEncoder::new(Vec::new(), flate2::Compression::default());
    enc.write_all(text.as_bytes()).unwrap();
    enc.finish().unwrap()
}

#[test]
fn window_parses_known_values() {
    assert_eq!(Window::from_str_or_default("1h"), Window::H1);
    assert_eq!(Window::from_str_or_default("24h"), Window::H24);
    assert_eq!(Window::from_str_or_default("7d"), Window::D7);
}

#[test]
fn window_falls_back_to_1h_on_unknown() {
    assert_eq!(Window::from_str_or_default(""), Window::H1);
    assert_eq!(Window::from_str_or_default("garbage"), Window::H1);
    assert_eq!(Window::from_str_or_default("30d"), Window::H1);
}

#[test]
fn window_seconds() {
    assert_eq!(Window::H1.seconds(), 3600);
    assert_eq!(Window::H24.seconds(), 86_400);
    assert_eq!(Window::D7.seconds(), 604_800);
}

#[test]
fn window_is_found_by_its_name() {
    for w in [Window::H1, Window::H24, Window::D7] {
        assert_eq!(Window::from_str_or_default(w.as_str()), w);
    }
}

#[test]
fn parse_valid_line() {
    let line = r#"{"ts":"2026-05-05T01:00:00.000Z","tenant":"acme","token_hint":"abcd1234","op":"GET /records","status":"ok","duration_ms":42}"#;
    let entry = parse_jsonl_line(line).expect("Some(_)");
    assert_eq!(entry.tenant, "acme");
    assert_eq!(entry.duration_ms, 42);
    assert_eq!(entry.status, "ok");
}

#[test]
fn parse_malformed_line_returns_none() {
    assert!(parse_jsonl_line("not json").is_none());
    assert!(parse_jsonl_line(r#"{"ts":"x"}"#).is_none());
}

#[test]
fn parse_empty_line_returns_none() {
    assert!(parse_jsonl_line("").is_none());
    assert!(parse_jsonl_line("   \t").is_none());
}

#[test]
fn parse_keeps_unknown_fields() {
    let line = r#"{"ts":"t","tenant":"a","token_hint":"h","op":"o","status":"error","duration_ms":1,"error_code":"X","record_id":-3,"zeta":[1,true],"alpha":{"k":null}}"#;
    let e = parse_jsonl_line(line).unwrap();
    assert_eq!(e.error_code.as_deref(), Some("X"));
    assert_eq!(e.record_id, Some(-3));
    assert_eq!(e.collection, None);
    let keys: Vec<&str> = e.extra.iter().map(|f| f.0.as_str()).collect();
    assert_eq!(keys, vec!["alpha", "zeta"]);
}

#[test]
fn parse_wants_a_count_for_the_duration() {
    let with = |d: &str| {
        format!(
            r#"{{"ts":"t","tenant":"a","token_hint":"h","op":"o","status":"ok","duration_ms":{d}}}"#
        )
    };
    assert!(parse_jsonl_line(&with("0")).is_some());
    assert!(parse_jsonl_line(&with("18446744073709551615")).is_some());
    assert!(parse_jsonl_line(&with("-1")).is_none());
    assert!(parse_jsonl_line(&with("1.5")).is_none());
    assert!(parse_jsonl_line(&with("\"1\"")).is_none());
}

#[test]
fn enumerate_empty_dir_returns_empty() {
    let now = Utc::now().timestamp_millis();
    let files = enumerate_audit_files(&vec![], Window::H24, now);
    assert!(files.is_empty());
}

#[test]
fn enumerate_picks_today_and_yesterday_for_24h() {
    let now = Utc::now();
    let today = now.format("%Y-%m-%d").to_string();
    let yesterday = (now - Duration::days(1)).format("%Y-%m-%d").to_string();
    let earlier = (now - Duration::days(5)).format("%Y-%m-%d").to_string();
    let dir = vec![
        format!("audit-{today}.jsonl"),
        format!("audit-{yesterday}.jsonl"),
        format!("audit-{earlier}.jsonl.1.gz"),
        "unrelated.txt".to_string(),
    ];
    let names = enumerate_audit_files(&dir, Window::H24, now.timestamp_millis());
    assert!(names.contains(&format!("audit-{today}.jsonl")));
    assert!(names.contains(&format!("audit-{yesterday}.jsonl")));
    assert!(!names.contains(&format!("audit-{earlier}.jsonl.1.gz")));
    assert!(!names.iter().any(|n| n == "unrelated.txt"));
}

#[test]
fn enumerate_picks_archives_for_7d() {
    let now = Utc::now();
    let today = now.format("%Y-%m-%d").to_string();
    let day3 = (now - Duration::days(3)).format("%Y-%m-%d").to_string();
    let day10 = (now - Duration::days(10)).format("%Y-%m-%d").to_string();
    let dir = vec![
        format!("audit-{today}.jsonl"),
        format!("audit-{day3}.jsonl.1.gz"),
        format!("audit-{day10}.jsonl.5.gz"),
    ];
    let names = enumerate_audit_files(&dir, Window::D7, now.timestamp_millis());
    assert!(names.contains(&format!("audit-{today}.jsonl")));
    assert!(names.contains(&format!("audit-{day3}.jsonl.1.gz")));
    assert!(!names.contains(&format!("audit-{day10}.jsonl.5.gz")));
}

#[test]
fn enumerate_ignores_wrong_names() {
    let now = Utc::now().timestamp_millis();
    let dir = vec![
        "foo.jsonl".to_string(),
        "audit-bad-date.jsonl".to_string(),
        "audit-2026-13-99.jsonl".to_string(),
        "audit-2026-05-05.jsonl.bak".to_string(),
    ];
    assert!(enumerate_audit_files(&dir, Window::H24, now).is_empty());
}

#[test]
fn enumerate_skips_non_ascii_names_without_panic() {
    let now = Utc::now();
    let today = now.format("%Y-%m-%d").to_string();
    let dir = vec!["audit-abcdefghi😀.jsonl".to_string(), format!("audit-{today}.jsonl")];
    let names = enumerate_audit_files(&dir, Window::H24, now.timestamp_millis());
    assert_eq!(names, vec![format!("audit-{today}.jsonl")]);
}

#[test]
fn enumerate_puts_the_newest_first() {
    let now = Utc::now();
    let day = |n: i64| (now - Duration::days(n)).format("%Y-%m-%d").to_string();
    let dir = vec![
        format!("audit-{}.jsonl.1.gz", day(3)),
        format!("audit-{}.jsonl", day(0)),
        format!("audit-{}.jsonl", day(1)),
    ];
    let names = enumerate_audit_files(&dir, Window::D7, now.timestamp_millis());
    let want = vec![dir[1].clone(), dir[2].clone(), dir[0].clone()];
    assert_eq!(names, want);
}

#[test]
fn scan_window_empty_dir() {
    let now = Utc::now().timestamp_millis();
    let res = scan_window(&vec![], Window::H24, now);
    assert!(res.entries.is_empty());
    assert_eq!(res.parse_errors, 0);
    assert!(res.archive_errors.is_empty());
}

#[test]
fn scan_window_reads_plain_jsonl() {
    let now = Utc::now();
    let today = now.format("%Y-%m-%d").to_string();
    let lines = format!(
        "{}\n{}\n{}\n",
        entry_line(&format!("{today}T00:01:00.000Z"), "acme", "GET", "ok", 10),
        entry_line(&format!("{today}T00:02:00.000Z"), "beta", "POST", "error", 20),
        entry_line(&format!("{today}T00:03:00.000Z"), "acme", "DELETE", "ok", 5),
    );
    let files = vec![file(format!("audit-{today}.jsonl"), &lines)];
    let res = scan_window(&files, Window::H24, now.timestamp_millis());
    assert_eq!(res.entries.len(), 3);
    assert_eq!(res.parse_errors, 0);
    // The newest comes first.
    assert_eq!(res.entries[0].op, "DELETE");
    assert_eq!(res.entries[2].op, "GET");
}

#[test]
fn scan_window_skips_malformed_lines_with_counter() {
    let now = Utc::now();
    let today = now.format("%Y-%m-%d").to_string();
    let lines = format!(
        "{}\nnot json\n\n{}\n",
        entry_line(&format!("{today}T00:01:00.000Z"), "acme", "GET", "ok", 10),
        entry_line(&format!("{today}T00:02:00.000Z"), "beta", "POST", "error", 20),
    );
    let files = vec![file(format!("audit-{today}.jsonl"), &lines)];
    let res = scan_window(&files, Window::H24, now.timestamp_millis());
    assert_eq!(res.entries.len(), 2);
    assert_eq!(res.parse_errors, 1);
}

#[test]
fn scan_window_reads_gz_archives_for_7d() {
    let now = Utc::now();
    let today = now.format("%Y-%m-%d").to_string();
    let day3 = (now - Duration::days(3)).format("%Y-%m-%d").to_string();
    let plain = format!(
        "{}\n",
        entry_line(&format!("{today}T00:01:00.000Z"), "acme", "GET", "ok", 10)
    );
    let packed = gz(&format!(
        "{}\n{}\n",
        entry_line(&format!("{day3}T12:00:00.000Z"), "beta", "POST", "ok", 50),
        entry_line(&format!("{day3}T12:01:00.000Z"), "beta", "GET", "ok", 7),
    ));
    let files = vec![
        file(format!("audit-{today}.jsonl"), &plain),
        read_file(&format!("audit-{day3}.jsonl.1.gz"), Some(packed)),
    ];
    let res = scan_window(&files, Window::D7, now.timestamp_millis());
    assert_eq!(res.entries.len(), 3);
    assert!(res.archive_errors.is_empty());
}

#[test]
fn scan_window_corrupt_gz_records_archive_error() {
    let now = Utc::now();
    let day3 = (now - Duration::days(3)).format("%Y-%m-%d").to_string();
    let files = vec![read_file(
        &format!("audit-{day3}.jsonl.1.gz"),
        Some(b"this is not gzip".to_vec()),
    )];
    let res = scan_window(&files, Window::D7, now.timestamp_millis());
    assert!(res.entries.is_empty());
    assert_eq!(res.archive_errors.len(), 1);
    assert!(res.archive_errors[0].contains("audit-"));
}

#[test]
fn scan_window_leaves_old_entries_out() {
    let now = Utc::now();
    let old = (now - Duration::hours(2)).format("%Y-%m-%dT%H:%M:%S%.3fZ").to_string();
    let new = (now - Duration::minutes(2)).format("%Y-%m-%dT%H:%M:%S%.3fZ").to_string();
    let text = format!(
        "{}\n{}\n",
        entry_line(&old, "a", "old", "ok", 1),
        entry_line(&new, "a", "new", "ok", 1)
    );
    let files = vec![file("audit-x.jsonl".to_string(), &text)];
    let res = scan_window(&files, Window::H1, now.timestamp_millis());
    let ops: Vec<&str> = res.entries.iter().map(|e| e.op.as_str()).collect();
    assert_eq!(ops, vec!["new"]);
}

#[test]
fn lines_are_counted_as_entries_or_faults() {
    let lines: Vec<String> = vec![
        entry_line("t1", "a", "x", "ok", 1),
        "   ".to_string(),
        "{".to_string(),
        entry_line("t2", "a", "y", "ok", 2),
    ];
    let (entries, faults) = parse_lines(&lines);
    assert_eq!(entries.len(), 2);
    assert_eq!(entries[1].op, "y");
    assert_eq!(faults, 1);
}

#[test]
fn resolve_tenant_name_handles_sentinels() {
    let map = vec![name("a", "Alpha"), name("b", "Beta")];
    assert_eq!(resolve_tenant_name(&map, "a"), "Alpha");
    assert_eq!(resolve_tenant_name(&map, "b"), "Beta");
    assert_eq!(resolve_tenant_name(&map, "-"), "admin");
    assert_eq!(resolve_tenant_name(&map, "ghost-id"), "ghost-id");
}

#[test]
fn distinct_ops_capped_returns_sorted_and_caps() {
    let entries = vec![
        mk_entry("2026-05-20T12:00:00.000Z", "t", "POST /records", "ok", 1),
        mk_entry("2026-05-20T12:00:01.000Z", "t", "GET /records", "ok", 1),
        mk_entry("2026-05-20T12:00:02.000Z", "t", "GET /records", "ok", 1),
        mk_entry("2026-05-20T12:00:03.000Z", "t", "DELETE /records", "ok", 1),
    ];
    let ops = distinct_ops_capped(&entries, 200);
    assert_eq!(ops, vec!["DELETE /records", "GET /records", "POST /records"]);
}

#[test]
fn distinct_ops_capped_truncates_at_limit() {
    let entries: Vec<AuditEntry> = (0..500)
        .map(|i| mk_entry("2026-05-20T12:00:00.000Z", "t", &format!("op-{i:04}"), "ok", 1))
        .collect();
    let ops = distinct_ops_capped(&entries, 200);
    assert_eq!(ops.len(), 200);
}

#[test]
fn tenant_summaries_sorted_by_name() {
    let map = vec![name("z-id", "Alpha"), name("a-id", "Charlie"), name("m-id", "Bravo")];
    let v = tenant_summaries(&map);
    let names: Vec<&str> = v.iter().map(|t| t.name.as_str()).collect();
    assert_eq!(names, vec!["Alpha", "Bravo", "Charlie"]);
}

#[test]
fn a_line_that_names_a_field_twice_is_no_entry() {
    let rest = r#""tenant":"a","token_hint":"h","op":"o","status":"ok","duration_ms":1"#;
    let read = |start: &str| parse_jsonl_line(&format!("{{{start},{rest}}}"));
    assert_eq!(read(r#""ts":"x""#).unwrap().ts, "x");
    assert!(read(r#""ts":"x","ts":"y""#).is_none());
    assert!(read(r#""ts" : "x" , "\u0074s" : "x""#).is_none());
    assert!(read(r#""collection":null,"ts":"x","collection":null"#).is_none());
    // Names of other members, and names further inside, may come again.
    let e = read(r#""ts":"x","more":{"ts":1,"ts":2},"k":[{"op":"a"}],"k":",\"ts\":""#).unwrap();
    assert_eq!((e.ts.as_str(), e.extra.len()), ("x", 2));
    let lines = vec![
        format!("{{\"ts\":\"x\",{rest}}}"),
        format!("{{\"ts\":\"x\",\"ts\":\"x\",{rest}}}"),
        String::new(),
    ];
    let (entries, faults) = parse_lines(&lines);
    assert_eq!((entries.len(), faults), (1, 1));
}

#[test]
fn the_names_of_an_object_are_read_as_often_as_they_come() {
    let names = |t: &str| object_names(t);
    assert_eq!(names(r#" { "a" : [1,{"b":2}] , "c":"}" , "a":null } "#).unwrap(), vec!["a", "c", "a"]);
    assert_eq!(names("{ }").unwrap(), Vec::<String>::new());
    assert_eq!(names(r#"{"é\n":1}"#).unwrap(), vec!["é\n"]);
    assert!(names("[1]").is_none() && names("").is_none() && names(r#"{"a" 1}"#).is_none());
    assert!(names(r#"{"a":1"#).is_none() && names(r#"{1:1}"#).is_none());
}

#[test]
fn tenants_of_one_name_are_listed_by_their_ids() {
    let ids = |v: Vec<TenantSummary>| {
        let ids: Vec<String> = tenant_summaries(&v).into_iter().map(|t| t.id).collect();
        ids
    };
    let one = ids(vec![name("b", "Acme"), name("a", "Acme"), name("c", "Abc")]);
    let other = ids(vec![name("a", "Acme"), name("c", "Abc"), name("b", "Acme")]);
    assert_eq!(one, vec!["c", "a", "b"]);
    assert_eq!(one, other);
}

#[test]
fn entries_json_escapes_script_closer_in_op() {
    let mut e = mk_entry(
        "2026-05-20T12:00:00.000Z",
        "acme",
        "GET /records/</script><script>x</script>",
        "ok",
        5,
    );
    e.extra.push(("k".to_string(), Json::Text("v".to_string())));
    let view = AuditEntryView::from_entry(&e, "Acme Inc");
    let mut object = serde_json::Map::new();
    object.insert("op".to_string(), serde_json::Value::String(view.op));
    let raw = serde_json::to_string(&vec![serde_json::Value::Object(object)]).unwrap();
    assert!(raw.contains("</script>"));
    let safe = escape_json_for_script(&raw);
    assert!(!safe.contains("</script>"));
    assert!(safe.contains("<\\/script>"));
    let parsed: serde_json::Value = serde_json::from_str(&safe).unwrap();
    assert_eq!(parsed[0]["op"], "GET /records/</script><script>x</script>");
}

#[test]
fn a_shown_entry_has_its_extra_fields_apart() {
    let mut e = mk_entry("2026-05-20T12:00:00.000Z", "acme", "GET /x", "ok", 5);
    e.extra.push(("auth_kind".to_string(), Json::Text("user".to_string())));
    let view = AuditEntryView::from_entry(&e, "Acme Inc");
    assert_eq!(view.tenant_name, "Acme Inc");
    assert_eq!(view.tenant, "acme");
    assert_eq!(view.extra.len(), 1);
    assert_eq!(view.extra[0].0, "auth_kind");
    assert_eq!(view.ts_display, "05-20 12:00:00");
}

#[test]
fn a_point_in_time_is_shown_short() {
    assert_eq!(format_ts_display("2026-05-20T12:34:56.789Z"), "05-20 12:34:56");
    assert_eq!(format_ts_display("yesterday"), "yesterday");
    assert_eq!(ts_display_of(None, "raw"), "raw");
    assert_eq!(ts_display_of(Some("short".to_string()), "raw"), "short");
}

#[test]
fn percentiles_go_by_the_nearest_rank() {
    let v: Vec<u64> = (1..=100).collect();
    assert_eq!(percentile(&v, 50), 50);
    assert_eq!(percentile(&v, 99), 99);
    assert_eq!(percentile(&v, 100), 100);
    assert_eq!(percentile(&v, 0), 1);
    assert_eq!(percentile(&vec![7, 9], 50), 7);
    assert_eq!(percentile(&vec![7, 9], 51), 9);
    assert_eq!(percentile(&vec![], 50), 0);
    // At least that share of the values is no greater.
    for p in 1u8..=100 {
        let x = percentile(&v, p);
        let below = v.iter().filter(|y| **y <= x).count();
        assert!(below * 100 >= p as usize * v.len());
    }
}

#[test]
fn an_overview_counts_and_sorts() {
    let rows = OverviewRows {
        totals: Some((4, 1)),
        durations: Some(vec![40, 10, 30, 20]),
        top_tenants: Some(vec![TopTenant {
            tenant: "a".to_string(),
            tenant_name: "Alpha".to_string(),
            count: 4,
            errors: 1,
        }]),
        top_slow_ops: Some(vec![mk_entry("t", "a", "slow", "ok", 40)]),
    };
    let o = overview_of(rows, false, 3);
    assert_eq!((o.total, o.error_count), (4, 1));
    assert_eq!((o.p50_ms, o.p99_ms), (20, 40));
    assert_eq!(o.top_tenants.len(), 1);
    assert_eq!(o.top_slow_ops[0].op, "slow");
    assert_eq!(o.dropped_total, 3);

    let nothing = OverviewRows {
        totals: Some((0, 0)),
        durations: Some(vec![]),
        top_tenants: None,
        top_slow_ops: None,
    };
    let o = overview_of(nothing, false, 5);
    assert_eq!((o.total, o.dropped_total), (0, 5));
}

#[test]
fn a_tenant_page_stays_in_its_tenant() {
    let q = AuditQuery {
        tab: Some("browse".to_string()),
        window: Some("7d".to_string()),
        tenant: Some("other".to_string()),
        op: Some(String::new()),
        status: Some("error".to_string()),
        before_ts: None,
        auto: Some("1".to_string()),
    };
    let p = plan(&AuditScope::Tenant("mine".to_string()), &q, 1_780_000_000_000);
    assert_eq!(p.tenant_filter.as_deref(), Some("mine"));
    assert_eq!(p.tab, "browse");
    assert_eq!(p.window, Window::D7);
    assert_eq!(p.op_filter, None);
    assert_eq!(p.status_filter, "error");
    assert_eq!(p.limit, 101);
    assert_eq!(p.cutoff_ts, "2026-05-21T20:26:40.000Z");
    let h = plan(&AuditScope::Host, &q, 1_780_000_000_000);
    assert_eq!(h.tenant_filter.as_deref(), Some("other"));
}

#[test]
fn links_keep_what_was_chosen() {
    assert_eq!(base_link(&AuditScope::Host, "/r"), "/r/admin/audit");
    assert_eq!(base_link(&AuditScope::Tenant("t1".to_string()), ""), "/admin/tenants/t1/_logs");
    assert_eq!(
        url_with("/b", "browse", "1h", false, &vec![("op", "GET /x")]),
        "/b?tab=browse&window=1h&op=GET%20%2Fx"
    );
    let auto = url_with("/b", "overview", "7d", true, &vec![]);
    assert!(auto.starts_with("/b?tab=overview&window=7d"));
    assert!(auto.contains("auto="));
}

#[test]
fn a_full_page_has_a_next_one() {
    let rows: Vec<AuditEntry> =
        (0..101).map(|i| mk_entry(&format!("t{i:03}"), "a", "x", "ok", 1)).collect();
    let page = browse_page(rows, &vec![name("a", "Alpha")]);
    assert_eq!(page.entries.len(), 100);
    assert_eq!(page.next_cursor.as_deref(), Some("t099"));
    assert_eq!(page.entries_view[0].tenant_name, "Alpha");
    assert_eq!(page.distinct_ops, vec!["x"]);
    let short: Vec<AuditEntry> = (0..100).map(|_| mk_entry("t", "a", "x", "ok", 1)).collect();
    assert_eq!(browse_page(short, &vec![]).next_cursor, None);
}

#[test]
fn a_row_becomes_an_entry() {
    let row = AuditRow {
        ts: "t".to_string(),
        tenant: "a".to_string(),
        token_hint: "h".to_string(),
        op: "o".to_string(),
        status: "ok".to_string(),
        duration_ms: 9,
        error_code: None,
        auth_method: Some("password".to_string()),
        oauth_email: None,
        oauth_error_code: None,
        caller_ip: Some("10.0.0.1".to_string()),
        user_agent: None,
        extra: Some(r#"{"k":"v"}"#.to_string()),
        actor_admin_id: Some(4),
        actor_email_snapshot: None,
    };
    let e = row_to_entry(row);
    assert_eq!(e.duration_ms, 9);
    assert_eq!(e.auth_method.as_deref(), Some("password"));
    assert_eq!(e.actor_admin_id, Some(4));
    let keys: Vec<&str> = e.extra.iter().map(|f| f.0.as_str()).collect();
    assert!(keys.contains(&"k"));
    assert!(keys.contains(&"caller_ip"));
    assert!(!keys.contains(&"user_agent"));
    assert!(extra_of_row(None, None, None).is_empty());
}

#[test]
fn an_entry_of_the_console_says_what_was_done() {
    let e = audit_admin("t1", "cron.create", "nightly", 1_780_000_000, 0);
    assert_eq!(e.ts, "2026-05-28T20:26:40+00:00");
    assert_eq!(e.token_hint, "admin-ui");
    assert_eq!(e.op, "cron.create");
    assert_eq!(e.collection.as_deref(), Some("nightly"));
    assert_eq!(e.status, "ok");
    assert!(e.extra.is_empty());
}

#[test]
fn a_file_is_read_by_its_name() {
    let lines = |name: &str, bytes: &[u8]| read_file(name, Some(bytes.to_vec())).lines;
    assert_eq!(lines("a.jsonl", b"x\ny"), Some(vec!["x".to_string(), "y".to_string()]));
    assert_eq!(lines("a.jsonl", b"\xff"), None);
    assert_eq!(lines("a.jsonl.1.gz", &gz("x")), Some(vec!["x".to_string()]));
    assert_eq!(lines("a.jsonl.1.gz", b"x"), None);
    // An archive that was cut off is no archive.
    let whole = gz("some text that is long enough to be cut");
    assert_eq!(lines("a.jsonl.1.gz", &whole[..whole.len() - 4]), None);
    assert!(read_file("a", None).lines.is_none());
}

fn chosen(tab: &str) -> AuditQuery {
    AuditQuery {
        tab: Some(tab.to_string()),
        window: Some("1h".to_string()),
        tenant: Some("a".to_string()),
        op: Some("GET /x".to_string()),
        status: None,
        before_ts: None,
        auto: None,
    }
}

fn four_requests() -> OverviewRows {
    OverviewRows {
        totals: Some((4, 1)),
        durations: Some(vec![40, 10, 30, 20]),
        top_tenants: Some(vec![TopTenant {
            tenant: "a".to_string(),
            tenant_name: String::new(),
            count: 4,
            errors: 1,
        }]),
        top_slow_ops: Some(vec![mk_entry("t", "a", "slow", "ok", 40)]),
    }
}

#[test]
fn a_page_of_the_log_is_put_together() {
    let names = vec![name("b", "Zeta"), name("a", "Alpha")];
    let p = plan(&AuditScope::Host, &chosen("browse"), 1_780_000_000_000);
    let rows: Vec<AuditEntry> =
        (0..101).map(|i| mk_entry(&format!("t{i:03}"), "a", "GET /x", "ok", 1)).collect();
    let content = AuditContent::Browse(browse_page(rows, &names), Some("[\"</script>\"]".to_string()));
    let c = build_body_ctx(p, AuditScope::Host, "/r", &names, content);
    assert!(c.is_host_scope && c.overview.is_none());
    assert_eq!(c.entries.len(), 100);
    assert_eq!(c.entries_json, "[\"<\\/script>\"]");
    assert_eq!(
        c.next_page_link.as_deref(),
        Some("/r/admin/audit?tab=browse&window=1h&tenant=a&op=GET%20%2Fx&status=all&before_ts=t099")
    );
    assert_eq!(c.window_choices.iter().map(|w| w.active).collect::<Vec<_>>(), vec![true, false, false]);
    assert_eq!(c.tenants.iter().map(|t| t.name.as_str()).collect::<Vec<_>>(), vec!["Alpha", "Zeta"]);

    let scope = AuditScope::Tenant("a".to_string());
    let p = plan(&scope, &chosen("overview"), 1_780_000_000_000);
    let content = AuditContent::Overview(overview_of(four_requests(), true, 0));
    let c = build_body_ctx(p, scope, "", &names, content);
    assert!(!c.is_host_scope && c.tenants.is_empty() && c.tenant_filter.is_none());
    assert_eq!(c.entries_json, "[]");
    assert_eq!(c.top_slow_ops_view[0].tenant_name, "Alpha");
    assert_eq!(c.refresh_link, "/admin/tenants/a/_logs?tab=overview&window=1h");
}

#[test]
fn programs_get_the_same_log() {
    let names = vec![name("a", "Alpha")];
    let p = plan(&AuditScope::Host, &chosen("overview"), 1_780_000_000_000);
    let j = audit_json(p, &names, AuditContent::Overview(overview_of(four_requests(), false, 3)));
    assert_eq!((j.tab, j.window, j.tenant.as_deref()), ("overview", "1h", Some("a")));
    let o = j.overview.unwrap();
    assert_eq!((o.total, o.error_count, o.p50_ms, o.p99_ms, o.dropped_total), (4, 1, 20, 40, 3));
    assert_eq!(o.top_tenants[0].tenant_name, "Alpha");
    assert_eq!(o.top_slow_ops[0].op, "slow");
    assert!(j.entries.is_none() && j.next_before_ts.is_none());

    let p = plan(&AuditScope::Host, &chosen("browse"), 1_780_000_000_000);
    let rows = vec![mk_entry("t", "a", "x", "ok", 1)];
    let j = audit_json(p, &names, AuditContent::Browse(browse_page(rows, &names), None));
    assert!(j.overview.is_none() && j.next_before_ts.is_none());
    assert_eq!(j.entries.unwrap()[0].tenant_name, "Alpha");
}

#[test]
fn the_log_of_a_tenant_needs_the_tenant() {
    assert_eq!(audit_tenant_page(Some("Alpha".to_string())).unwrap(), "Alpha");
    let e = audit_tenant_page(None).unwrap_err();
    assert_eq!((e.status, e.message.as_str()), (404, "tenant not found"));
    assert!(audit_tenant_json(true).is_ok());
    let e = audit_tenant_json(false).unwrap_err();
    assert_eq!((e.status, e.code.as_str(), e.message.as_str()), (404, "TENANT_NOT_FOUND", "no such tenant"));
}
