use mgmt::frame_guard::{frame_guard_headers, may_be_framed};
use mgmt::json::Json;
use mgmt::public_files::{
    admin_sign_url, after_put, build_disk_view, check_meta, check_storage, check_upload, choose_type,
    content_type_for, delete_reply, extension, insert_failed, list_page, load_failed, parse_upload_fields,
    plan_delete, plan_list, prepare_upload, prepare_upload_as, reconcile, show_files, sign_reply,
    stream_error_of, upload_refused, AdminSignRequest, AfterPut, Counts, DeletePlan, DiskStats, Disposition,
    FileRow, KeyRow, ListQs, SignPlan, StoredObject, UploadError, UploadFields, UploadPart,
};
use mgmt::signed_bytes::{
    disposition_text, is_download, respond, signed_bytes, storage_failed, visibility_of, FileLookup, SigQs,
    StoredFile, Visibility,
};

fn row(key: &str, size: i64) -> FileRow {
    FileRow {
        id: 1,
        key: key.to_string(),
        original_name: "a.png".to_string(),
        content_type: "image/png".to_string(),
        size_bytes: size,
        uploaded_at: "u".to_string(),
        visibility: "public".to_string(),
    }
}

fn qs(page: Option<u32>, per_page: Option<u32>, vis: Option<&str>) -> ListQs {
    ListQs { page, per_page, vis: vis.map(|v| v.to_string()) }
}

#[test]
fn a_list_of_files_is_paged() {
    let p = plan_list(&qs(Some(2), Some(10), Some("private")));
    assert_eq!((p.page, p.per_page, p.filter, p.offset), (2, 10, "private", 10));
    let d = plan_list(&qs(Some(0), Some(7), Some("odd")));
    assert_eq!((d.page, d.per_page, d.filter, d.offset), (1, 25, "all", 0));
    let counts = Counts { total: 60, public: 40, private: 20 };
    let page = list_page(&p, &vec![row("k", 2048)], counts, 1 << 20, "https://x.org/", 50 << 20);
    assert_eq!(page.total_files, 20);
    assert_eq!(page.total_pages, 2);
    assert_eq!(page.max_upload_mb, 50);
    assert_eq!(page.total_bytes_human, "1.0 MB");
    assert_eq!(
        page.prev_url.as_deref(),
        Some("/drust/admin/files?page=1&per_page=10&vis=private")
    );
    assert_eq!(page.next_url, None);
    assert_eq!(page.files[0].public_url, "https://x.org/public/k");
    assert_eq!(page.files[0].size_human, "2.0 KB");
    let chosen: Vec<u32> =
        page.per_page_options.iter().filter(|o| o.selected).map(|o| o.value).collect();
    assert_eq!(chosen, vec![10]);
    // A size below zero shows as none.
    assert_eq!(show_files(&vec![row("k", -1)], "")[0].size_human, "0 B");
}

#[test]
fn the_disk_is_shown_in_gigabytes() {
    let d = DiskStats {
        used_bytes: 3_221_225_472,
        total_bytes: 10_737_418_240,
        free_pct: 70,
        free_pct_text: "70.0".to_string(),
    };
    let v = build_disk_view(&Some(d));
    let by_float = |n: u64| format!("{:.1}", n as f64 / 1_073_741_824.0);
    assert_eq!(v.used_gb, by_float(3_221_225_472));
    assert_eq!(v.total_gb, by_float(10_737_418_240));
    assert_eq!(v.free_pct_display, "70.0");
    assert_eq!(v.free_pct, 70);
    assert_eq!(build_disk_view(&None).used_gb, "?");
    assert_eq!(build_disk_view(&None).free_pct, 100);
    for k in 0..4000u64 {
        let n = k.wrapping_mul(0x9e37_79b9_7f4a_7c15) >> (k % 30);
        let d = DiskStats {
            used_bytes: n,
            total_bytes: n / 3,
            free_pct: 1,
            free_pct_text: String::new(),
        };
        let v = build_disk_view(&Some(d));
        assert_eq!(v.used_gb, by_float(n), "{n}");
        assert_eq!(v.total_gb, by_float(n / 3));
    }
}

fn file_part(name: Option<&str>) -> UploadPart {
    UploadPart::File {
        name: name.map(|n| n.to_string()),
        content_type: None,
        body: vec![1, 2, 3],
    }
}

fn text_part(field: &str, value: &str) -> UploadPart {
    UploadPart::Text { field: field.to_string(), value: value.to_string() }
}

fn fields(parts: Vec<UploadPart>) -> Result<UploadFields, String> {
    parse_upload_fields(parts).map_err(|e| upload_refused(e).message)
}

#[test]
fn a_form_is_read_part_by_part() {
    let f = fields(vec![
        file_part(Some("a.PNG")),
        text_part("visibility", "private"),
        text_part("disposition", "attachment"),
        text_part("meta", "{\"k\":1}"),
    ])
    .unwrap();
    assert_eq!(f.original_name, "a.PNG");
    assert_eq!(f.body, vec![1, 2, 3]);
    assert!(matches!(f.visibility, Visibility::Private));
    assert!(matches!(f.disposition, Disposition::Attachment));
    assert_eq!(f.meta_json.as_deref(), Some("{\"k\":1}"));
    assert!(fields(vec![]).is_err());
    assert!(fields(vec![file_part(Some("a")), text_part("visibility", "odd")]).is_err());
    assert!(fields(vec![file_part(Some("a")), text_part("meta", "[")]).is_err());
    assert!(fields(vec![file_part(Some("a")), text_part("meta", "3")]).is_err());
    assert!(fields(vec![UploadPart::FileFailed("x".to_string())]).is_err());
    assert!(fields(vec![UploadPart::FormFailed("x".to_string())]).is_err());
}

#[test]
fn a_stream_that_is_too_long_is_told_apart() {
    let large = stream_error_of("body too large", "p: ", "Body Too LARGE".to_string());
    assert!(matches!(&large, UploadError::TooLarge(m) if m == "Body Too LARGE"));
    assert_eq!(upload_refused(large).status, 413);
    let other = stream_error_of("reset", "p: ", "Reset".to_string());
    assert!(matches!(&other, UploadError::Bad(m) if m == "p: Reset"));
    assert_eq!(upload_refused(other).status, 400);
    let e = parse_upload_fields(vec![UploadPart::FileFailed("Too LARGE".to_string())]);
    assert!(matches!(e, Err(UploadError::TooLarge(_))));
    assert!(check_meta(&Ok(Json::Object(vec![]))).is_none());
    assert!(check_meta(&Ok(Json::Null)).is_some());
    assert!(check_meta(&Err("e".to_string())).is_some());
}

#[test]
fn an_upload_is_refused_before_it_is_read() {
    let disk = |pct: u8| {
        Some(DiskStats {
            used_bytes: 1,
            total_bytes: 2,
            free_pct: pct,
            free_pct_text: format!("{pct}.0"),
        })
    };
    assert!(check_upload(true, &disk(50), 20, Some("10"), 1 << 20).is_ok());
    assert_eq!(check_upload(false, &None, 20, None, 1).unwrap_err().status, 503);
    let full = check_upload(true, &disk(19), 20, None, 1).unwrap_err();
    assert_eq!(full.status, 507);
    assert_eq!(full.message, "disk too full: 19.0% free, minimum 20% required");
    let long = check_upload(true, &None, 20, Some("1048577"), 1 << 20).unwrap_err();
    assert_eq!(long.status, 413);
    assert_eq!(long.message, "upload exceeds 1 MB limit (1048577 bytes provided)");
    assert!(check_upload(true, &None, 20, Some("x"), 1).is_ok());
}

#[test]
fn a_name_tells_the_type() {
    assert_eq!(extension("a.tar.gz").as_deref(), Some("gz"));
    assert_eq!(extension("none"), None);
    assert_eq!(extension(".hidden"), None);
    assert_eq!(content_type_for(&None, "a.png").as_deref(), Some("image/png"));
    assert_eq!(content_type_for(&None, "a.html").as_deref(), Some("text/html"));
    assert_eq!(content_type_for(&Some("x/y".to_string()), "a.png").as_deref(), Some("x/y"));
    assert_eq!(choose_type(&None, None), None);
    assert_eq!(choose_type(&None, Some("a/b".to_string())).as_deref(), Some("a/b"));
}

#[test]
fn an_upload_is_stored_under_a_fresh_key() {
    let f = || fields(vec![file_part(Some("a.png"))]).unwrap();
    let u = prepare_upload_as(f(), "id", "no-store");
    assert_eq!(u.key, "id.png");
    assert_eq!(u.size, 3);
    assert_eq!(u.cache_control, "no-store");
    assert_eq!(u.content_type.as_deref(), Some("image/png"));
    let a = prepare_upload(f(), "");
    let b = prepare_upload(f(), "");
    assert_ne!(a.key, b.key);
    assert_eq!(a.key.len(), 40);
    let (step, reply) = after_put(Err("down".to_string()));
    assert!(matches!(step, AfterPut::RemoveRow));
    assert_eq!(reply.unwrap_err().message, "garage put: down");
    assert!(matches!(after_put(Ok(())).0, AfterPut::Done));
    assert_eq!(insert_failed("x").message, "db insert: x");
    assert_eq!(load_failed("x").message, "load: x");
}

#[test]
fn a_deletion_takes_the_object_first() {
    assert!(matches!(plan_delete(true, None), Ok(DeletePlan::Nothing)));
    assert!(matches!(plan_delete(true, Some("k".to_string())), Ok(DeletePlan::Object(k)) if k == "k"));
    assert_eq!(plan_delete(false, None).err().unwrap().status, 503);
    assert_eq!(
        delete_reply(Err("o".to_string()), Err("r".to_string())).unwrap_err().message,
        "garage delete: o"
    );
    assert_eq!(delete_reply(Ok(()), Err("r".to_string())).unwrap_err().message, "db delete: r");
    assert_eq!(delete_reply(Ok(()), Ok(())).unwrap(), "/drust/admin/files");
    assert!(check_storage(true).is_ok());
    assert!(check_storage(false).is_err());
}

#[test]
fn objects_and_rows_are_held_against_each_other() {
    let o = |k: &str| StoredObject { key: k.to_string(), size: 1024 };
    let r = |k: &str| KeyRow { id: 1, key: k.to_string(), original_name: k.to_string() };
    let out = reconcile(&vec![o("a"), o("b")], &vec![r("b"), r("c")]);
    assert_eq!(out.orphan_objects.len(), 1);
    assert_eq!(out.orphan_objects[0].key, "a");
    assert_eq!(out.orphan_objects[0].size_human, "1.0 KB");
    assert_eq!(out.dangling_rows.len(), 1);
    assert_eq!(out.dangling_rows[0].key, "c");
}

fn stored(visibility: &str) -> StoredFile {
    StoredFile {
        original_name: "naïve \"a\".txt".to_string(),
        content_type: None,
        content_disposition: None,
        cache_control: None,
        visibility: visibility.to_string(),
    }
}

#[test]
fn links_are_signed_for_a_week_at_most() {
    let ask = |secs: Option<u64>| AdminSignRequest { expires_in: secs, download: Some(true) };
    let private = FileLookup::Found(stored("private"));
    assert_eq!(admin_sign_url(&ask(Some(0)), &private, true).unwrap_err().status, 400);
    assert_eq!(admin_sign_url(&ask(Some(604_801)), &private, true).unwrap_err().status, 400);
    match admin_sign_url(&ask(Some(60)), &private, true).unwrap() {
        SignPlan::Signed { lifetime, download_name } => {
            assert_eq!(lifetime, 60);
            assert!(download_name.is_some());
        }
        SignPlan::Public => panic!("private"),
    }
    let public = FileLookup::Found(stored("public"));
    assert!(matches!(admin_sign_url(&ask(None), &public, false), Ok(SignPlan::Public)));
    assert_eq!(admin_sign_url(&ask(None), &private, false).unwrap_err().status, 503);
    assert_eq!(admin_sign_url(&ask(None), &FileLookup::Missing, true).unwrap_err().status, 404);
    let a = sign_reply(Ok("u".to_string()), 60, 1_780_000_000, 5_000_000).unwrap();
    assert_eq!(a.expires_at.as_deref(), Some("2026-05-28T20:27:40.005+00:00"));
    assert_eq!(sign_reply(Err("k".to_string()), 60, 0, 0).unwrap_err().message, "sign: k");
}

#[test]
fn signed_files_are_sent_with_their_headers() {
    let d = SigQs { e: 1, t: "t".to_string(), d: Some("1".to_string()) };
    assert!(is_download(&d));
    assert!(!is_download(&SigQs { e: 1, t: "t".to_string(), d: None }));
    assert!(matches!(visibility_of("public"), Visibility::Public));
    assert!(matches!(visibility_of("?"), Visibility::Private));
    let h = respond(&stored("private"), "naive", true);
    assert_eq!(h.content_type, "application/octet-stream");
    assert_eq!(h.cache_control, "private, no-store");
    assert!(h.content_disposition.starts_with("attachment; "));
    assert!(h.content_disposition.contains("na%C3%AFve"));
    assert!(disposition_text("inline", "a", "b").starts_with("inline"));
    assert_eq!(signed_bytes(false, true, FileLookup::Missing).unwrap_err().status, 403);
    assert_eq!(signed_bytes(true, false, FileLookup::Missing).unwrap_err().status, 503);
    assert_eq!(signed_bytes(true, true, FileLookup::Missing).unwrap_err().status, 404);
    assert_eq!(
        signed_bytes(true, true, FileLookup::Failed("x".to_string())).unwrap_err().status,
        500
    );
    let closed = signed_bytes(true, true, FileLookup::NoTenant("gone".to_string())).unwrap_err();
    assert_eq!((closed.status, closed.message.as_str()), (404, "tenant: gone"));
    let (_, v) = signed_bytes(true, true, FileLookup::Found(stored("public"))).unwrap();
    assert!(matches!(v, Visibility::Public));
    assert_eq!(storage_failed("x").message, "get: x");
}

#[test]
fn pages_stay_out_of_frames() {
    let h = frame_guard_headers(None);
    assert_eq!(h.content_security_policy, "frame-ancestors 'none'");
    assert_eq!(h.x_frame_options, "DENY");
    let kept = frame_guard_headers(Some("sandbox".to_string()));
    assert_eq!(kept.content_security_policy, "sandbox");
    assert!(may_be_framed("/s/t/{tenant}/{key}"));
    assert!(!may_be_framed("/s/admin/{key}"));
    assert!(!may_be_framed("/login"));
}
