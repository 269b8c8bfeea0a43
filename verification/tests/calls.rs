use mgmt::i18n::{init_bundles, Locale, Translator};
use mgmt::rpc_admin::{
    bind_failed, coerce_form_string, collect_values, find_for_edit, find_for_test, param_ty_to_str,
    query_outcome, read_form, read_outcome, render_form_with_error, response_to_error_text, rpc_delete,
    rpc_edit_form, rpc_index, rpc_new_form, rpc_save, rpc_save_reply, rpc_test_run, save_error_code,
    show_result, test_params, validation_for, write_cell, write_for, write_outcome, BindError, Cell, Coerced,
    Deleted, ParamSpec, ParamType, QueryResult, RpcFormBody, RpcKind, RpcListQs, RpcLookup, RpcMode,
    RpcQueryResult, RpcTestRunForm, RpcWrite, RunPlan, StoredRpc, Validated, Validation, WriteRun,
};

fn rpc(name: &str, anon: bool) -> StoredRpc {
    StoredRpc {
        name: name.to_string(),
        description: None,
        sql: "SELECT 1".to_string(),
        params: vec![],
        anon_callable: anon,
        mode: RpcMode::Read,
        kind: RpcKind::Sql,
        query_json: None,
    }
}

fn body(kind: Option<&str>, anon: bool) -> RpcFormBody {
    RpcFormBody {
        name: "f".to_string(),
        description: Some("d".to_string()),
        sql: "SELECT 2".to_string(),
        params_json: "[]".to_string(),
        anon_callable: if anon { Some("on".to_string()) } else { None },
        mode: None,
        kind: kind.map(|k| k.to_string()),
        query_json: Some("{}".to_string()),
    }
}

#[test]
fn functions_are_listed_in_pages() {
    let all: Vec<StoredRpc> = (0..45).map(|i| rpc(&format!("f{i:02}"), i % 2 == 0)).collect();
    let p = rpc_index(all, &RpcListQs { page: Some(2), per_page: None }, "/r", "t");
    assert_eq!(p.total_rpcs, 45);
    assert_eq!(p.total_anon_callable, 23);
    assert_eq!((p.page, p.total_pages), (2, 3));
    assert_eq!(p.rpcs.len(), 20);
    assert_eq!(p.rpcs[0].name, "f20");
    assert_eq!(p.prev_url.as_deref(), Some("/r/admin/tenants/t/_rpc?page=1"));
    assert_eq!(p.next_url.as_deref(), Some("/r/admin/tenants/t/_rpc?page=3"));
    let last = rpc_index(vec![], &RpcListQs { page: Some(9), per_page: Some(50) }, "", "t");
    assert_eq!((last.page, last.total_pages), (1, 1));
    assert!(last.rpcs.is_empty());
}

#[test]
fn a_function_is_looked_up() {
    let n = || Some("N".to_string());
    assert!(find_for_test(n(), Ok(()), RpcLookup::Found(rpc("f", false))).is_ok());
    assert_eq!(find_for_test(None, Ok(()), RpcLookup::Missing).unwrap_err().message, "tenant not found");
    assert_eq!(find_for_test(n(), Ok(()), RpcLookup::Missing).unwrap_err().message, "no such rpc");
    assert_eq!(find_for_edit(None, Ok(()), RpcLookup::Missing).unwrap_err().message, "no such rpc");
    assert_eq!(
        find_for_edit(None, Ok(()), RpcLookup::Found(rpc("f", false))).unwrap_err().message,
        "tenant not found"
    );
}

#[test]
fn forms_are_filled() {
    let new = rpc_new_form();
    assert_eq!((new.form_mode, new.form_kind, new.form_params_json.as_str()), ("read", "sql", "[]"));
    let edit = rpc_edit_form(&rpc("f", true), None);
    assert!(edit.editing && edit.form_anon_callable);
    assert_eq!(edit.form_sql, "SELECT 1");
    let again = render_form_with_error(&body(None, true), true, "m".to_string(), None);
    assert_eq!(again.error.as_deref(), Some("m"));
    assert_eq!(param_ty_to_str(ParamType::Integer), "integer");
    assert_eq!(RpcMode::Write.as_str(), "write");
    assert_eq!(RpcKind::Query.as_str(), "query");
}

#[test]
fn widening_is_validated() {
    // SQL always is.
    assert!(matches!(validation_for(&read_form(&body(None, false)), &None), Validation::Sql));
    // A template is where it is new or where anybody may call it now.
    let q = read_form(&body(Some("query"), false));
    assert!(matches!(validation_for(&q, &None), Validation::Template));
    let mut stored = rpc("f", false);
    stored.kind = RpcKind::Query;
    stored.query_json = Some("{}".to_string());
    let wide = read_form(&body(Some("query"), true));
    assert!(matches!(validation_for(&wide, &Some(stored)), Validation::Template));
}

#[test]
fn a_save_is_refused_in_order() {
    let f = body(None, false);
    let e = rpc_save(&f, Some("shape".to_string()), Some("p".to_string()), Validated::Passed, false);
    let e = e.err().unwrap();
    assert_eq!(e.error_code.as_deref(), Some("RPC_KIND_INVALID"));
    let e = rpc_save(&f, None, Some("p".to_string()), Validated::Passed, false).err().unwrap();
    assert_eq!((e.error.as_deref(), e.error_code), (Some("p"), None));
    let e = rpc_save(&f, None, None, Validated::Rejected("x".to_string()), false).err().unwrap();
    assert_eq!(e.error_code.as_deref(), Some("INVALID_SQL_FOR_MODE"));
    let e = rpc_save(&f, None, None, Validated::Failed("io".to_string()), true).err().unwrap();
    assert!(e.editing);
    assert!(matches!(
        rpc_save(&f, None, None, Validated::Passed, false),
        Ok(RpcWrite::Create { name, .. }) if name == "f"
    ));
    assert!(matches!(write_for(&f, true), RpcWrite::Update { .. }));
    assert_eq!(save_error_code("PROTECTED_COLLECTION x", RpcKind::Query), "PROTECTED_COLLECTION");
    assert_eq!(save_error_code("COLLECTION_NOT_FOUND", RpcKind::Query), "COLLECTION_NOT_FOUND");
    assert_eq!(save_error_code("x", RpcKind::Query), "RPC_QUERY_TEMPLATE_INVALID");
    assert_eq!(
        rpc_save_reply(&f, "/r", "t", Ok(()), false).ok().unwrap(),
        "/r/admin/tenants/t/_rpc"
    );
    assert!(rpc_save_reply(&f, "/r", "t", Err("e".to_string()), false).is_err());
    assert!(rpc_delete(true, Deleted::Missing, "", "t").is_ok());
    assert!(rpc_delete(true, Deleted::Failed("e".to_string()), "", "t").is_err());
    assert!(rpc_delete(false, Deleted::Done, "", "t").is_err());
}

fn run_form(pairs: &[(&str, &str)]) -> RpcTestRunForm {
    RpcTestRunForm { fields: pairs.iter().map(|p| (p.0.to_string(), p.1.to_string())).collect() }
}

#[test]
fn a_test_run_keeps_nothing_unless_asked() {
    let plain = run_form(&[]);
    let keep = run_form(&[("actually_commit", "1")]);
    let dry = run_form(&[("dry_run", "1")]);
    assert!(!plain.actually_commit());
    assert!(keep.actually_commit());
    assert!(dry.wants_query_plan_or_dry_run());
    assert!(matches!(
        rpc_test_run(RpcKind::Sql, RpcMode::Write, &plain),
        Ok(RunPlan::Write { dry_run: true })
    ));
    assert!(matches!(
        rpc_test_run(RpcKind::Sql, RpcMode::Write, &keep),
        Ok(RunPlan::Write { dry_run: false })
    ));
    assert!(matches!(rpc_test_run(RpcKind::Sql, RpcMode::Read, &dry), Ok(RunPlan::Read)));
    assert!(matches!(rpc_test_run(RpcKind::Query, RpcMode::Read, &plain), Ok(RunPlan::Query)));
    assert_eq!(rpc_test_run(RpcKind::Query, RpcMode::Read, &dry).err().unwrap().status, 400);
}

#[test]
fn values_are_read_by_their_type() {
    assert!(matches!(coerce_form_string(ParamType::Integer, "-7", true), Coerced::Integer(-7)));
    assert!(matches!(coerce_form_string(ParamType::Integer, "x", false), Coerced::Text(s) if s == "x"));
    assert!(matches!(coerce_form_string(ParamType::Boolean, "true", false), Coerced::Boolean(true)));
    assert!(matches!(coerce_form_string(ParamType::Real, "1.5", true), Coerced::Real(s) if s == "1.5"));
    assert!(matches!(coerce_form_string(ParamType::Text, "a", false), Coerced::Text(s) if s == "a"));
    let params = vec![ParamSpec {
        name: "n".to_string(),
        ty: ParamType::Integer,
        required: true,
        default_json: Some("3".to_string()),
    }];
    let v = collect_values(&params, &run_form(&[("p_n", "4")]), &vec![true]);
    assert_eq!(v.len(), 1);
    assert_eq!(v[0].0, "n");
    let shown = test_params(&params, &None);
    assert_eq!((shown[0].ty, shown[0].default_display.as_str()), ("integer", "3"));
}

#[test]
fn results_are_shown() {
    let q = QueryResult {
        column_names: vec!["a".to_string()],
        rows: vec![vec![Cell::Null], vec![Cell::Text("x".to_string())]],
        truncated: true,
    };
    let r = show_result(q);
    assert_eq!((r.row_count, r.truncated), (2, true));
    assert_eq!(r.rows[1][0], "x");
    assert_eq!(write_cell(&Cell::Null), "NULL");
    assert_eq!(write_cell(&Cell::Other("1".to_string())), "1");
    let failed = read_outcome(Err("e".to_string()), vec![], 5, "{}".to_string());
    assert_eq!(failed.error.as_deref(), Some("e"));
    let query = query_outcome(
        Ok(RpcQueryResult { envelope_json: "{}".to_string(), total: 1, row_count: 1 }),
        5,
        "{}".to_string(),
    );
    assert_eq!(query.query_result.unwrap().total, 1);
}

#[test]
fn failed_runs_say_why() {
    let b = init_bundles(
        "[_meta]\nsentinel = \"x\"\n[tenant_rpc.errors]\nuser_id_binding_required = \"sign in\"\n",
        "[_meta]\nsentinel = \"x\"\n",
    )
    .unwrap();
    let t = Translator::new(&b, Locale::En);
    let user = bind_failed(
        RpcMode::Write,
        BindError::Missing("user_id".to_string()),
        "m".to_string(),
        &t,
        "{}".to_string(),
    );
    assert_eq!(user.error.as_deref(), Some("sign in"));
    assert!(user.dry_run);
    let other = bind_failed(RpcMode::Read, BindError::Other, "m".to_string(), &t, "{}".to_string());
    assert_eq!(other.error.as_deref(), Some("m"));
    let commit = write_outcome(
        WriteRun::CommitFailed("busy".to_string()),
        vec![],
        1,
        "{}".to_string(),
        &t,
    );
    assert_eq!(commit.error.as_deref(), Some("TX_COMMIT_FAILED: busy"));
    let stmt = write_outcome(
        WriteRun::StatementFailed {
            index: 2,
            message: "boom".to_string(),
            capture_limit_exceeded: false,
        },
        vec![],
        1,
        "{}".to_string(),
        &t,
    );
    assert_eq!(stmt.statement_count, 2);
    assert!(stmt.error.unwrap().contains("boom"));
    let fine = write_outcome(
        WriteRun::Done { rows: None, dry_run: false, affected_rows: 3, statement_count: 1 },
        vec![],
        1,
        "{}".to_string(),
        &t,
    );
    assert_eq!((fine.affected_rows, fine.dry_run), (3, false));
}

#[test]
fn refusals_are_put_in_words() {
    let both = response_to_error_text("{\"error_code\":\"X\",\"message\":\"m\"}");
    assert!(both.contains('X') && both.contains('m'));
    assert_eq!(response_to_error_text("plain"), "plain");
}
