use mgmt::browse::{
    admin_update_policies, anon_cap_choices, check_described, check_description, check_index_tenant,
    collection_rows_page, collections_page, description_reply, editor_json_payloads, explain_failed,
    fields_with_badges, index_marks, legacy_redirect, map_index_admin_error, mask_sensitive_columns,
    policy_json_payloads, read_anon_caps, setting_url, update_anon_caps, update_realtime,
    AdminCreateIndexBody, AdminPoliciesBody, AnonCapsForm, BrowseQs, CollectionLookup, CollectionsPage,
    Described, DescriptionRefusal, Field, IndexInfo, PolicyFaults, PolicyRefusal, RealtimeForm, SettingStep,
};
use mgmt::json::Json;

const MASK: &str = "\u{25cf}\u{25cf}\u{25cf}\u{25cf}";

fn text(s: &str) -> serde_json::Value {
    serde_json::Value::String(s.to_string())
}

#[test]
fn fields_payload_escapes_hostile_description() {
    let mut field = serde_json::Map::new();
    field.insert("name".to_string(), text("n"));
    field.insert("description".to_string(), text("</script><img src=x onerror=alert(1)>"));
    let fields = serde_json::to_string(&vec![serde_json::Value::Object(field)]).ok();
    let (fields_json, tid_json, coll_json) = editor_json_payloads(fields, "t-1", "posts");
    assert!(fields_json.contains("onerror=alert(1)"));
    assert!(!fields_json.contains("</script>"));
    assert!(fields_json.contains("<\\/script>"));
    assert_eq!(tid_json, "\"t-1\"");
    assert_eq!(coll_json, "\"posts\"");
}

#[test]
fn policies_payload_escapes_hostile_literal() {
    let mut eq = serde_json::Map::new();
    eq.insert("$eq".to_string(), text("</script><img src=x onerror=alert(1)>"));
    let mut leaf = serde_json::Map::new();
    leaf.insert("title".to_string(), serde_json::Value::Object(eq));
    let raw = serde_json::to_string(&serde_json::Value::Object(leaf)).unwrap();
    let (policies_json, _) = policy_json_payloads(Some(raw.clone()), &None);
    assert!(policies_json.contains("onerror=alert(1)"));
    assert!(!policies_json.contains("</script>"));
    assert!(policies_json.contains("<\\/script>"));
    assert!(raw.contains("</script>"));
}

#[test]
fn owner_field_payload_uses_escaper() {
    let (_, none_json) = policy_json_payloads(Some("{}".to_string()), &None);
    assert_eq!(none_json, "null");
    let (_, some_json) =
        policy_json_payloads(Some("{}".to_string()), &Some("user_id".to_string()));
    assert_eq!(some_json, "\"user_id\"");
}

#[test]
fn mask_oauth_client_secret() {
    let (_cols, rows) = mask_sensitive_columns(
        "_system_oauth_providers",
        vec!["provider".into(), "client_secret".into()],
        vec![vec!["google".into(), "supersecret".into()]],
    );
    assert_eq!(rows[0][1], MASK);
    assert_eq!(rows[0][0], "google");
}

#[test]
fn mask_webhook_secret() {
    let (_cols, rows) = mask_sensitive_columns(
        "_system_webhooks",
        vec!["url".into(), "secret".into()],
        vec![vec!["https://x".into(), "deadbeef".into()]],
    );
    assert_eq!(rows[0][1], MASK);
}

#[test]
fn mask_still_masks_password_hash() {
    let (_cols, rows) = mask_sensitive_columns(
        "_system_users",
        vec!["email".into(), "password_hash".into()],
        vec![vec!["a@b".into(), "$argon2$".into()]],
    );
    assert_eq!(rows[0][1], MASK);
}

#[test]
fn other_collections_show_everything() {
    let (_cols, rows) = mask_sensitive_columns(
        "posts",
        vec!["secret".into()],
        vec![vec!["shown".into()]],
    );
    assert_eq!(rows[0][0], "shown");
}

fn qs(tab: Option<&str>) -> BrowseQs {
    BrowseQs {
        filter: None,
        sort: None,
        page: None,
        per_page: None,
        tab: tab.map(|t| t.to_string()),
        desc_error: None,
    }
}

#[test]
fn old_tabs_lead_to_the_new_views() {
    assert_eq!(
        legacy_redirect(&qs(Some("schema")), "/r", "t", "c").as_deref(),
        Some("/r/admin/tenants/t/collections/c?view=definition")
    );
    assert_eq!(
        legacy_redirect(&qs(Some("anon")), "", "t", "c").as_deref(),
        Some("/admin/tenants/t/collections/c?view=table")
    );
    assert_eq!(legacy_redirect(&qs(None), "", "t", "c"), None);
}

#[test]
fn the_first_collection_is_opened() {
    let go = collections_page(true, None, "t", Ok(vec!["a".to_string(), "b".to_string()]), "/r");
    assert!(matches!(go, Ok(CollectionsPage::Go(to)) if to == "/r/admin/tenants/t/collections/a"));
    let empty = collections_page(true, None, "t", Ok(vec![]), "/r");
    assert!(matches!(empty, Ok(CollectionsPage::Empty { tenant_name }) if tenant_name == "t"));
    assert_eq!(collections_page(false, None, "t", Ok(vec![]), "").err().unwrap().status, 404);
    assert_eq!(
        collections_page(true, None, "t", Err("e".to_string()), "").err().unwrap().status,
        500
    );
}

#[test]
fn a_collection_is_looked_up_before_it_is_shown() {
    let n = || Some("N".to_string());
    assert_eq!(collection_rows_page(n(), Ok(()), CollectionLookup::Found, Ok(())).unwrap(), "N");
    let missing = collection_rows_page(n(), Ok(()), CollectionLookup::Missing, Ok(())).unwrap_err();
    assert_eq!((missing.status, missing.message.as_str()), (404, "collection not found"));
    let gone = collection_rows_page(None, Ok(()), CollectionLookup::Found, Ok(())).unwrap_err();
    assert_eq!(gone.message, "no such tenant");
    let failed = collection_rows_page(n(), Err("io".to_string()), CollectionLookup::Found, Ok(()));
    assert_eq!(failed.unwrap_err().message, "io");
}

#[test]
fn indexed_fields_are_marked() {
    let f = |name: &str| Field {
        name: name.to_string(),
        sql_type: "TEXT".to_string(),
        nullable: true,
        pk: false,
        default_value: None,
        foreign_key: None,
        description: None,
    };
    let i = IndexInfo { name: "i".to_string(), fields: vec!["b".to_string()] };
    let rows = fields_with_badges(&vec![f("a"), f("b")], &vec![i]);
    assert!(!rows[0].is_indexed);
    assert!(rows[1].is_indexed);
}

#[test]
fn verbs_of_the_form_are_read() {
    let form = AnonCapsForm { caps: vec!["select".to_string(), "drop".to_string()] };
    let caps = read_anon_caps(&form);
    assert!(caps.select && !caps.insert && !caps.update && !caps.delete);
    let shown: Vec<(&str, bool)> = anon_cap_choices(caps);
    assert_eq!(
        shown,
        vec![("select", true), ("insert", false), ("update", false), ("delete", false)]
    );
    let steps = update_anon_caps(true, &form).unwrap();
    assert!(matches!(steps[0], SettingStep::WriteCaps(c) if c == caps));
    assert!(matches!(steps[1], SettingStep::ForgetSchema));
    assert!(update_anon_caps(false, &form).is_err());
}

#[test]
fn streams_end_last() {
    let off = update_realtime(true, &RealtimeForm { enabled: None }).unwrap();
    assert!(matches!(off[0], SettingStep::WriteRealtime(false)));
    assert!(matches!(off[1], SettingStep::ForgetSchema));
    assert!(matches!(off[2], SettingStep::EndStreams));
    let on = update_realtime(true, &RealtimeForm { enabled: Some("on".to_string()) }).unwrap();
    assert_eq!(on.len(), 2);
    assert_eq!(setting_url("/r", "t", "c", "anon"), "/r/admin/tenants/t/collections/c?tab=anon");
}

fn no_faults() -> PolicyFaults {
    PolicyFaults { select: None, insert: None, update: None, delete: None }
}

fn body() -> AdminPoliciesBody {
    AdminPoliciesBody { select: Some(Json::Null), insert: None, update: None, delete: None }
}

#[test]
fn policies_are_written_together_or_not_at_all() {
    let ok = admin_update_policies(true, false, Ok(()), CollectionLookup::Found, body(), no_faults());
    assert!(matches!(ok, Ok(b) if b.select.is_some() && b.insert.is_none()));
    let mut faults = no_faults();
    faults.select = Some("bad".to_string());
    let bad = admin_update_policies(true, false, Ok(()), CollectionLookup::Found, body(), faults);
    assert!(bad.is_err());
    // A fault of a policy that is not given does not count.
    let mut other = no_faults();
    other.insert = Some("bad".to_string());
    assert!(
        admin_update_policies(true, false, Ok(()), CollectionLookup::Found, body(), other).is_ok()
    );
    let kept = admin_update_policies(true, true, Ok(()), CollectionLookup::Found, body(), no_faults());
    assert!(matches!(kept, Err(PolicyRefusal::Coded(r)) if r.status == 403));
}

#[test]
fn index_errors_have_their_codes() {
    let cases = [
        ("no such collection: x", 404, "NOT_FOUND"),
        ("field z not found on collection x", 404, "FIELD_NOT_FOUND"),
        ("LARGE_TABLE: 9", 409, "LARGE_TABLE"),
        ("index i already exists", 409, "INDEX_EXISTS"),
        ("UNIQUE constraint failed", 409, "UNIQUE_VIOLATION"),
    ];
    for (msg, status, code) in cases {
        let r = map_index_admin_error(msg);
        assert_eq!((r.status, r.code.as_str(), r.message.as_str()), (status, code, msg));
    }
    let both = AdminCreateIndexBody { fields: vec![], unique: Some(true), force: None };
    assert_eq!(index_marks(&both), (true, false));
    assert!(check_index_tenant(false, Ok(())).is_err());
    assert!(check_index_tenant(true, Ok(())).is_ok());
}

#[test]
fn explain_errors_have_their_codes() {
    assert_eq!(explain_failed("not authorized").code, "SQL_NOT_ALLOWED");
    assert_eq!(explain_failed("near \"x\"").code, "SQL_PARSE_ERROR");
    assert_eq!(explain_failed("boom").code, "SQL_ERROR");
}

#[test]
fn an_empty_description_is_removed() {
    let ok = |s: &str| -> Result<String, String> { Ok(s.to_string()) };
    let c = check_description(Described::Field, true, false, ok("text"), "", "t", "c");
    assert!(matches!(c, Ok(Some(s)) if s == "text"));
    let none = check_description(Described::Field, true, false, ok(""), "", "t", "c");
    assert!(matches!(none, Ok(None)));
    let bad = check_description(
        Described::Index,
        true,
        false,
        Err("TOO_LONG".to_string()),
        "/r",
        "t",
        "c",
    );
    assert!(matches!(bad, Err(DescriptionRefusal::Go(to)) if to.contains("TOO_LONG")));
    let names = vec!["a".to_string()];
    assert!(check_described(Described::Field, Ok(()), CollectionLookup::Found, &names, "a").is_ok());
    assert!(check_described(Described::Field, Ok(()), CollectionLookup::Found, &names, "b").is_err());
    assert_eq!(
        description_reply(Described::Index, Ok(()), "/r", "t", "c").unwrap(),
        "/r/admin/tenants/t/collections/c?tab=indexes"
    );
}
