use mgmt::backups::{
    check_backup, download_one, extract_meta_and_sizes, humanize_age, inspect, is_safe_backup_filename,
    is_uuid_like, join_path, list_page, parse_tenant_db_path, restore_entry, restore_flash,
    restore_reply, restore_tenant, ArchiveEntry, BackupFile, BackupTenant, BackupsState, InspectQs,
    RestoreEntry, RestoreForm, Unpacked,
};
use std::io::Read;

#[test]
fn rejects_non_backup_filenames() {
    assert!(!is_safe_backup_filename(""));
    assert!(!is_safe_backup_filename("../etc/passwd"));
    assert!(!is_safe_backup_filename("drust-foo.txt"));
    assert!(!is_safe_backup_filename("evil/drust-2026.tar.zst"));
    assert!(!is_safe_backup_filename(".."));
    assert!(!is_safe_backup_filename("."));
}

#[test]
fn accepts_real_backup_names() {
    assert!(is_safe_backup_filename("drust-2026-04-20-191001.tar.zst"));
    assert!(is_safe_backup_filename("drust-2026-05-05-030000.tar.zst"));
}

#[test]
fn parse_tenant_db_path_handles_prefix_variants() {
    assert_eq!(parse_tenant_db_path("tenants/abc/data.sqlite"), Some("abc".to_string()));
    assert_eq!(parse_tenant_db_path("./tenants/abc/data.sqlite"), Some("abc".to_string()));
    assert_eq!(parse_tenant_db_path("tenants/abc/meta.json"), None);
    assert_eq!(parse_tenant_db_path("meta.sqlite"), None);
    assert_eq!(parse_tenant_db_path("tenants//data.sqlite"), None);
}

#[test]
fn uuid_like_accepts_valid_and_rejects_traversal() {
    assert!(is_uuid_like("d26a0119-5633-41d0-8ea8-388f12105f26"));
    assert!(is_uuid_like("00000000-0000-0000-0000-000000000000"));
    assert!(!is_uuid_like(""));
    assert!(!is_uuid_like("../etc"));
    assert!(!is_uuid_like("d26a0119-5633-41d0-8ea8-388f12105f2"));
    assert!(!is_uuid_like("d26a0119-5633-41d0-8ea8-388f12105f266"));
    assert!(!is_uuid_like("d26a0119_5633-41d0-8ea8-388f12105f26"));
    assert!(!is_uuid_like("d26a0119-5633-41d0-8ea8-388f12105f2g"));
}

#[test]
fn extract_meta_and_sizes_round_trip() {
    let mut tar_buf: Vec<u8> = Vec::new();
    {
        let mut builder = tar::Builder::new(&mut tar_buf);
        let sqlite_header = b"SQLite format 3\0".to_vec();
        let mut header = tar::Header::new_gnu();
        header.set_path("meta.sqlite").unwrap();
        header.set_size(sqlite_header.len() as u64);
        header.set_mode(0o644);
        header.set_cksum();
        builder.append(&header, sqlite_header.as_slice()).unwrap();

        let tdb = vec![0u8; 137];
        let mut th = tar::Header::new_gnu();
        th.set_path("tenants/abc-tenant/data.sqlite").unwrap();
        th.set_size(tdb.len() as u64);
        th.set_mode(0o644);
        th.set_cksum();
        builder.append(&th, tdb.as_slice()).unwrap();
        builder.finish().unwrap();
    }
    let compressed = zstd::encode_all(tar_buf.as_slice(), 0).unwrap();

    let unpacked = zstd::decode_all(compressed.as_slice()).unwrap();
    let mut archive = tar::Archive::new(unpacked.as_slice());
    let mut entries: Vec<ArchiveEntry> = Vec::new();
    let mut meta = [0u8; 16];
    for e in archive.entries().unwrap() {
        let mut e = e.unwrap();
        let path = e.path().unwrap().to_string_lossy().into_owned();
        if path == "meta.sqlite" {
            e.read_exact(&mut meta).unwrap();
        }
        entries.push(ArchiveEntry {
            path,
            is_regular: e.header().entry_type().is_file(),
            size: e.size(),
        });
    }
    let sizes = extract_meta_and_sizes(&entries).unwrap();
    assert_eq!(sizes, vec![("abc-tenant".to_string(), 137)]);
    assert_eq!(&meta, b"SQLite format 3\0");
}

#[test]
fn an_archive_without_the_main_database_is_refused() {
    let entries = vec![ArchiveEntry {
        path: "tenants/a/data.sqlite".to_string(),
        is_regular: true,
        size: 1,
    }];
    assert!(extract_meta_and_sizes(&entries).is_err());
    let dir = vec![ArchiveEntry { path: "./meta.sqlite".to_string(), is_regular: false, size: 0 }];
    assert!(extract_meta_and_sizes(&dir).is_err());
}

#[test]
fn ages_are_shown_in_the_largest_unit() {
    assert_eq!(humanize_age(-1), "future");
    assert_eq!(humanize_age(59), "59s ago");
    assert_eq!(humanize_age(60), "1m ago");
    assert_eq!(humanize_age(3600), "1h ago");
    assert_eq!(humanize_age(86_400 * 3 + 5), "3d ago");
}

#[test]
fn snapshots_are_listed_newest_first() {
    let f = |name: &str, size: u64| BackupFile {
        name: name.to_string(),
        is_file: true,
        size,
        mtime_ms: 1_780_000_000_000,
        age_secs: 120,
    };
    let files = vec![
        f("drust-2026-04-20-191001.tar.zst", 1024),
        f("notes.txt", 99),
        f("drust-2026-05-05-030000.tar.zst", 1024),
    ];
    let l = list_page(&files);
    let names: Vec<&str> = l.rows.iter().map(|r| r.filename.as_str()).collect();
    assert_eq!(names, vec!["drust-2026-05-05-030000.tar.zst", "drust-2026-04-20-191001.tar.zst"]);
    assert_eq!(l.rows[0].size_human, "1.0 KB");
    assert_eq!(l.total_size_human, "2.0 KB");
    assert_eq!(l.rows[0].age_human, "2m ago");
    assert!(l.rows[0].mtime_iso.starts_with("2026-05-28"));
}

#[test]
fn a_backup_is_checked_before_it_is_opened() {
    assert_eq!(check_backup("../x", true).unwrap_err().status, 400);
    assert_eq!(check_backup("drust-1.tar.zst", false).unwrap_err().status, 404);
    assert!(check_backup("drust-1.tar.zst", true).is_ok());
}

#[test]
fn tenants_of_a_snapshot_show_their_sizes() {
    let t = |id: &str| BackupTenant {
        id: id.to_string(),
        name: "N".to_string(),
        created_at: "c".to_string(),
    };
    let rows = inspect(&vec![t("a"), t("b")], &vec![("a".to_string(), 2048)]);
    assert_eq!(rows[0].db_size_human, "2.0 KB");
    assert!(rows[0].db_present);
    assert!(!rows[1].db_present);
}

#[test]
fn a_restore_goes_into_a_directory_of_its_own() {
    let id = "d26a0119-5633-41d0-8ea8-388f12105f26";
    let state = BackupsState { data_dir: "/data".to_string() };
    let form = RestoreForm { tenant_id: id.to_string() };
    let p = restore_tenant(&state, "drust-1.tar.zst", &form, true, 1_780_000_000_000).unwrap();
    assert_eq!(p.want_db, format!("tenants/{id}/data.sqlite"));
    assert!(p.dest_dir.starts_with("/data/"));
    assert!(p.dest_dir.contains(id));
    assert!(matches!(
        restore_entry(&p, &format!("./tenants/{id}/data.sqlite")),
        RestoreEntry::Database
    ));
    assert!(matches!(restore_entry(&p, "meta.sqlite"), RestoreEntry::Skip));

    let bad = RestoreForm { tenant_id: "../x".to_string() };
    assert!(restore_tenant(&state, "drust-1.tar.zst", &bad, true, 0).is_err());
    assert!(restore_tenant(&state, "evil", &form, true, 0).is_err());
}

#[test]
fn a_failed_restore_is_cleaned_up() {
    let ok = restore_reply("f", "t", "/d e", Unpacked::Done { wrote_db: true }).unwrap();
    assert_eq!(ok, "/drust/admin/backups/f/inspect?restored=t&dest=%2Fd%20e");
    let nothing = match restore_reply("f", "t", "/d", Unpacked::Done { wrote_db: false }) {
        Err(f) => f,
        Ok(_) => panic!("nothing was written"),
    };
    assert!(nothing.remove_dest);
    let failed = match restore_reply("f", "t", "/d", Unpacked::Failed("x".to_string())) {
        Err(f) => f,
        Ok(_) => panic!("it failed"),
    };
    assert_eq!(failed.refusal.status, 500);
    let flash = restore_flash(InspectQs {
        restored: Some("t".to_string()),
        dest: Some("/d".to_string()),
    })
    .unwrap();
    assert_eq!(flash.destination, "/d");
    assert!(restore_flash(InspectQs { restored: None, dest: Some("/d".to_string()) }).is_none());
}

#[test]
fn a_download_is_an_attachment() {
    let h = download_one("drust-1.tar.zst", 7);
    assert_eq!(h.content_disposition, "attachment; filename=\"drust-1.tar.zst\"");
    assert_eq!(h.content_length, Some(7));
    assert_eq!(download_one("x", 0).content_length, None);
    assert_eq!(join_path("/a", "b"), "/a/b");
    assert_eq!(join_path("/a/", "b"), "/a/b");
}
