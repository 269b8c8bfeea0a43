use mgmt::browse::CollectionLookup;
use mgmt::collection_list::{
    admin_list, check_target, default_page, default_per_page, filter_triples_to_ast, format_blob_cell,
    list_note, list_queries, request_filter, system_column_labels, triple_to_node, write_single,
    write_sql_name, FilterAst, FilterTriple, ListRequest, ListRows, SortDir, SortSpec, SqlValue,
};
use mgmt::i18n::{init_bundles, Locale, Translator};
use mgmt::json::Json;
use mgmt::paging::{clamp_page, total_pages};

fn triple(field: &str, op: &str, value: Json) -> FilterTriple {
    FilterTriple { field: field.into(), op: op.into(), value }
}

fn text(s: &str) -> Json {
    Json::Text(s.to_string())
}

fn number(s: &str) -> Json {
    Json::Number(s.to_string())
}

/// The condition as SQL, with the values to bind.
fn compile(f: &FilterAst, binds: &mut Vec<String>) -> String {
    match f {
        FilterAst::And(parts) => {
            if parts.is_empty() {
                return "1=1".to_string();
            }
            let inner: Vec<String> = parts.iter().map(|p| compile(p, binds)).collect();
            format!("({})", inner.join(" AND "))
        }
        FilterAst::Leaf { field, op, value } => {
            let sign = match op.as_str() {
                "eq" => "=",
                "gte" => ">=",
                "lte" => "<=",
                "gt" => ">",
                "like" => "LIKE",
                "is_null" => return format!("{} IS NULL", write_sql_name(field)),
                other => panic!("unexpected {other}"),
            };
            match value {
                Json::Text(s) | Json::Number(s) => binds.push(s.clone()),
                other => panic!("unexpected {other:?}"),
            }
            format!("{} {sign} ?", write_sql_name(field))
        }
    }
}

fn compiled(t: Vec<FilterTriple>) -> (String, Vec<String>) {
    let ast = filter_triples_to_ast(&t).unwrap();
    let mut binds: Vec<String> = Vec::new();
    let sql = compile(&ast, &mut binds);
    (sql, binds)
}

#[test]
fn empty_triples_match_all() {
    let (sql, _) = compiled(vec![]);
    assert_eq!(sql, "1=1");
}

#[test]
fn eq_passes_through() {
    let (sql, binds) = compiled(vec![triple("name", "eq", text("Kael"))]);
    assert_eq!(sql, r#"("name" = ?)"#);
    assert_eq!(binds.len(), 1);
}

#[test]
fn contains_rewrites_to_like_with_percent_wraps() {
    let (sql, binds) = compiled(vec![triple("name", "contains", text("ael"))]);
    assert_eq!(sql, r#"("name" LIKE ?)"#);
    assert_eq!(binds, vec!["%ael%"]);
}

#[test]
fn starts_with_appends_percent() {
    let (_, binds) = compiled(vec![triple("name", "starts_with", text("Ka"))]);
    assert_eq!(binds[0], "Ka%");
}

#[test]
fn between_expands_to_gte_and_lte() {
    let pair = Json::List(vec![number("10"), number("20")]);
    let (sql, binds) = compiled(vec![triple("age", "between", pair)]);
    assert_eq!(sql, r#"(("age" >= ? AND "age" <= ?))"#);
    assert_eq!(binds.len(), 2);
}

#[test]
fn is_true_becomes_eq_1() {
    let (sql, binds) = compiled(vec![triple("active", "is_true", Json::Flag(true))]);
    assert_eq!(sql, r#"("active" = ?)"#);
    assert_eq!(binds, vec!["1"]);
}

#[test]
fn is_null_passes_through() {
    let (sql, binds) = compiled(vec![triple("note", "is_null", Json::Flag(true))]);
    assert_eq!(sql, r#"("note" IS NULL)"#);
    assert!(binds.is_empty());
}

#[test]
fn unknown_op_errors() {
    let t = vec![triple("a", "matches_regex", text("x"))];
    let err = filter_triples_to_ast(&t).unwrap_err();
    assert!(err.contains("unknown op"));
    assert_eq!(err, "unknown op \"matches_regex\"");
}

#[test]
fn multiple_triples_andd_together() {
    let t = vec![triple("a", "eq", number("1")), triple("b", "gt", number("2"))];
    match filter_triples_to_ast(&t).unwrap() {
        FilterAst::And(and) => assert_eq!(and.len(), 2),
        _ => panic!("expected And"),
    }
}

#[test]
fn operands_have_to_fit() {
    let err = |op: &str, v: Json| triple_to_node(&triple("a", op, v)).err().unwrap();
    assert_eq!(err("contains", number("1")), "contains requires string");
    assert_eq!(err("starts_with", Json::Null), "starts_with requires string");
    assert_eq!(err("ends_with", Json::Null), "ends_with requires string");
    assert_eq!(err("between", text("x")), "between requires 2-element array");
    assert_eq!(err("between", Json::List(vec![])), "between requires exactly 2 elements");
    // An odd operator is quoted as a debugger would.
    assert_eq!(err("a\"\n", Json::Null), "unknown op \"a\\\"\\n\"");
}

#[test]
fn names_are_quoted_for_sql() {
    assert_eq!(write_sql_name("a\"b"), "\"a\"\"b\"");
    assert_eq!(write_sql_name(""), "\"\"");
}

fn request(sort: Option<&str>) -> ListRequest {
    ListRequest {
        filters: vec![],
        sort: sort.map(|f| SortSpec { field: f.to_string(), dir: SortDir::Desc }),
        page: 3,
        per_page: 20,
    }
}

#[test]
fn queries_are_made_of_the_request() {
    let fields = vec!["id".to_string(), "name".to_string()];
    let q = list_queries("posts", Ok("1=1".to_string()), &fields, &request(Some("name"))).unwrap();
    assert_eq!((q.page, q.per_page), (3, 20));
    assert!(q.list_sql.contains("\"posts\""));
    assert!(q.list_sql.contains("ORDER BY \"name\" DESC"));
    assert!(q.list_sql.contains("LIMIT 20 OFFSET 40"));
    assert!(q.count_sql.starts_with("SELECT COUNT(*)"));
    let e = list_queries("posts", Ok("1=1".to_string()), &fields, &request(Some("x"))).unwrap_err();
    assert_eq!(e.code, "UNKNOWN_SORT_FIELD");
    assert_eq!(e.message, "sort field \"x\" not in schema");
    let e = list_queries("posts", Err("bad".to_string()), &fields, &request(None)).unwrap_err();
    assert_eq!((e.status, e.code.as_str()), (400, "INVALID_FILTER"));
    assert_eq!((default_page(), default_per_page()), (1, 50));
}

#[test]
fn a_list_names_what_is_missing() {
    assert_eq!(
        check_target(false, Ok(()), CollectionLookup::Found).unwrap_err().code,
        "TENANT_NOT_FOUND"
    );
    assert!(check_target(true, Ok(()), CollectionLookup::Missing).is_err());
    assert!(check_target(true, Ok(()), CollectionLookup::Found).is_ok());
    let mut bad = request(None);
    bad.filters.push(triple("a", "nope", Json::Null));
    assert_eq!(request_filter(&bad).err().unwrap().code, "INVALID_FILTER");
}

#[test]
fn single_precision_numbers_have_two_decimals() {
    let mut bits: Vec<u32> = vec![
        0.0f32.to_bits(),
        (-0.0f32).to_bits(),
        f32::NAN.to_bits(),
        f32::INFINITY.to_bits(),
        f32::NEG_INFINITY.to_bits(),
        f32::MIN_POSITIVE.to_bits(),
        f32::MAX.to_bits(),
        f32::MIN.to_bits(),
        1,
        0x007f_ffff,
        0.125f32.to_bits(),
        0.375f32.to_bits(),
        (-0.005f32).to_bits(),
        0.995f32.to_bits(),
    ];
    for k in 0..2000u32 {
        bits.push((k as f32 / 8.0).to_bits());
        bits.push((k as f32 * 0.005).to_bits());
        bits.push(k.wrapping_mul(0x9e37_79b9));
    }
    for e in 0..256u32 {
        for m in [0, 1, 0x40_0000, 0x7f_ffff, 0x12_3456] {
            bits.push(e << 23 | m);
            bits.push(1 << 31 | e << 23 | m);
        }
    }
    for b in bits {
        assert_eq!(write_single(b), format!("{:.2}", f32::from_bits(b)), "{b:#x}");
    }
}

#[test]
fn vectors_show_their_beginning() {
    let bytes = |v: &[f32]| -> Vec<u8> { v.iter().flat_map(|f| f.to_le_bytes()).collect() };
    let dims = vec![("v".to_string(), 4u32)];
    assert_eq!(
        format_blob_cell("v", &bytes(&[1.0, -0.5, 0.25, 9.0]), &dims),
        "[vec dim=4 · 1.00, -0.50, 0.25, …]"
    );
    assert_eq!(format_blob_cell("v", &bytes(&[1.0]), &dims), "[blob bytes=4]");
    assert_eq!(format_blob_cell("w", &vec![1, 2, 3], &dims), "[blob bytes=3]");
    let two = vec![("v".to_string(), 2u32)];
    assert_eq!(format_blob_cell("v", &bytes(&[1.0, 2.0]), &two), "[vec dim=2 · 1.00, 2.00]");
}

#[test]
fn a_page_of_rows_is_answered() {
    let b = init_bundles(
        "[_meta]\nsentinel = \"x\"\n[system_users.col]\nid = \"Id\"\n",
        "[_meta]\nsentinel = \"x\"\n",
    )
    .unwrap();
    let t = Translator::new(&b, Locale::En);
    let fields = vec!["id".to_string(), "name".to_string()];
    let q = list_queries("_system_users", Ok("1=1".to_string()), &fields, &request(None)).unwrap();
    let rows = ListRows {
        columns: fields.clone(),
        rows: vec![vec![SqlValue::Integer(-4), SqlValue::Null]],
        dims: vec![],
    };
    let page = admin_list("_system_users", &q, Ok(rows), Ok(41), &t).unwrap();
    assert_eq!(page.rows, vec![vec!["-4".to_string(), "NULL".to_string()]]);
    assert_eq!(page.total, 41);
    assert_eq!(page.total_pages, 3);
    assert_eq!(page.column_labels.unwrap(), vec!["Id", "name"]);
    assert!(system_column_labels("posts", &fields, &t).is_none());
    let failed = admin_list("posts", &q, Err("io".to_string()), Ok(0), &t);
    let note = list_note("t1", &failed);
    assert_eq!(note.tenant, "t1");
    assert!(note.failure.is_some());
    let fine = list_note("t1", &admin_list("p", &q, Ok(ListRows { columns: vec![], rows: vec![], dims: vec![] }), Ok(0), &t));
    assert!(fine.failure.is_none());
}

#[test]
fn pages_cover_every_row() {
    assert_eq!(total_pages(0, 10), 1);
    assert_eq!(total_pages(10, 10), 1);
    assert_eq!(total_pages(11, 10), 2);
    assert_eq!(clamp_page(None, 3), 1);
    assert_eq!(clamp_page(Some(0), 3), 1);
    assert_eq!(clamp_page(Some(9), 3), 3);
    assert_eq!(clamp_page(Some(2), 3), 2);
}
