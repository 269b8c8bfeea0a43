//! Snapshots: listing, looking inside, restoring a tenant, downloading.
//!
//! Snapshots are archives in one directory. A restore never touches the live
//! directory of a tenant: it unpacks into a fresh directory in the trash, and
//! somebody moves it back by hand.

use vstd::prelude::*;
use crate::clock::{format_time, in_calendar, time_text, COMPACT, MINUTES};
use crate::format::{humanize_bytes, humanized};
use crate::sorting::{positions, sort_positions, sorted_order};
use crate::text::{
    after_prefix, ascii_hex, concat2, concat3, contains_char, dec, ends_with, find_char,
    from_range, has_prefix, has_suffix, is_hex, lemma_find_char_is, position_of, push_dec,
    starts_with, str_eq, strip_prefix, to_chars, views,
};
use crate::url::{percent, url_encode};

verus! {

#[derive(Debug)]
pub struct BackupsState {
    pub data_dir: String,
}

#[derive(Debug)]
pub struct BackupRow {
    pub filename: String,
    pub size_human: String,
    pub mtime_iso: String,
    pub age_human: String,
}

#[derive(Debug)]
pub struct TenantInBackup {
    pub id: String,
    pub name: String,
    pub created_at: String,
    pub db_size_human: String,
    pub db_present: bool,
}

#[derive(Debug)]
pub struct RestoreFlash {
    pub tenant_id: String,
    pub destination: String,
}

#[derive(Debug)]
pub struct RestoreForm {
    pub tenant_id: String,
}

#[derive(Debug)]
pub struct InspectQs {
    pub restored: Option<String>,
    pub dest: Option<String>,
}

/// A refusal in plain words.
#[derive(Debug)]
pub struct PlainRefusal {
    pub status: u16,
    pub message: String,
}

/// The refusal has these parts.
pub open spec fn plain(r: PlainRefusal, status: u16, message: Seq<char>) -> bool {
    r.status == status && r.message@ == message
}

fn plain_refusal(status: u16, message: &str) -> (r: PlainRefusal)
    ensures
        plain(r, status, message@),
{
    PlainRefusal { status, message: message.to_owned() }
}

// ---------------------------------------------------------------------------
// Names
// ---------------------------------------------------------------------------

/// An age in the largest unit that fits.
pub open spec fn age_text(secs: int) -> Seq<char> {
    if secs < 0 {
        "future"@
    } else if secs < 60 {
        dec(secs as nat) + "s ago"@
    } else if secs < 3600 {
        dec((secs / 60) as nat) + "m ago"@
    } else if secs < 86400 {
        dec((secs / 3600) as nat) + "h ago"@
    } else {
        dec((secs / 86400) as nat) + "d ago"@
    }
}

/// Writes an age for a reader.
pub fn humanize_age(secs: i64) -> (r: String)
    ensures
        r@ == age_text(secs as int),
{
    if secs < 0 {
        return "future".to_owned();
    }
    let s: u64 = secs as u64;
    let mut r: String = String::new();
    if s < 60 {
        push_dec(&mut r, s);
        r.append("s ago");
    } else if s < 3600 {
        push_dec(&mut r, s / 60);
        r.append("m ago");
    } else if s < 86400 {
        push_dec(&mut r, s / 3600);
        r.append("h ago");
    } else {
        push_dec(&mut r, s / 86400);
        r.append("d ago");
    }
    assert(r@ =~= age_text(secs as int));
    r
}

/// The name of a snapshot, which is no path.
pub open spec fn backup_name(name: Seq<char>) -> bool {
    &&& has_prefix(name, "drust-"@)
    &&& has_suffix(name, ".tar.zst"@)
    &&& !name.contains('/')
    &&& !name.contains('\\')
}

/// Whether a name is that of a snapshot.
pub fn is_safe_backup_filename(name: &str) -> (r: bool)
    ensures
        r == backup_name(name@),
{
    starts_with(name, "drust-") && ends_with(name, ".tar.zst") && !contains_char(name, '/')
        && !contains_char(name, '\\')
}

/// A place where a hyphen stands in a UUID.
pub open spec fn hyphen_at(i: int) -> bool {
    i == 8 || i == 13 || i == 18 || i == 23
}

/// A UUID with hyphens, whatever its version.
pub open spec fn uuid_like(s: Seq<char>) -> bool {
    s.len() == 36 && forall|i: int|
        0 <= i < 36 ==> if hyphen_at(i) {
            #[trigger] s[i] == '-'
        } else {
            ascii_hex(s[i])
        }
}

/// Whether a text has the form of a UUID.
pub fn is_uuid_like(s: &str) -> (r: bool)
    ensures
        r == uuid_like(s@),
{
    let a: Vec<char> = to_chars(s);
    if a.len() != 36 {
        return false;
    }
    let mut i: usize = 0;
    while i < 36
        invariant
            i <= 36,
            a@.len() == 36,
            a@ == s@,
            forall|k: int|
                0 <= k < i ==> if hyphen_at(k) {
                    #[trigger] a@[k] == '-'
                } else {
                    ascii_hex(a@[k])
                },
        decreases 36 - i,
    {
        if i == 8 || i == 13 || i == 18 || i == 23 {
            if a[i] != '-' {
                assert(hyphen_at(i as int) && s@[i as int] != '-');
                return false;
            }
        } else if !is_hex(a[i]) {
            assert(!hyphen_at(i as int) && !ascii_hex(s@[i as int]));
            return false;
        }
        i = i + 1;
    }
    true
}

/// Neither the name of a snapshot nor the id of a tenant leads out of the
/// directory it is looked up in.
pub proof fn law_names_are_no_paths(name: Seq<char>, id: Seq<char>)
    requires
        backup_name(name),
        uuid_like(id),
    ensures
        !name.contains('/'),
        name != "."@ && name != ".."@,
        !id.contains('/'),
        !id.contains('\\'),
        !id.contains('.'),
{
    reveal_strlit("drust-");
    reveal_strlit(".");
    reveal_strlit("..");
    assert(name.len() >= 6);
    assert forall|i: int| 0 <= i < id.len() implies id[i] != '/' && id[i] != '\\' && id[i] != '.' by {
        if hyphen_at(i) {
            assert(id[i] == '-');
        } else {
            assert(ascii_hex(id[i]));
        }
    }
}

/// `s` without any `./` at its beginning.
pub open spec fn without_dot_slash(s: Seq<char>) -> Seq<char>
    decreases s.len(),
{
    if s.len() >= 2 && s[0] == '.' && s[1] == '/' {
        without_dot_slash(s.skip(2))
    } else {
        s
    }
}

fn strip_dot_slash(s: &str) -> (r: String)
    ensures
        r@ == without_dot_slash(s@),
{
    let a: Vec<char> = to_chars(s);
    let mut i: usize = 0;
    assert(a@.skip(0) =~= a@);
    while a.len() - i >= 2 && a[i] == '.' && a[i + 1] == '/'
        invariant
            i <= a@.len(),
            a@ == s@,
            without_dot_slash(s@) == without_dot_slash(a@.skip(i as int)),
        decreases a@.len() - i,
    {
        assert(a@.skip(i as int).skip(2) =~= a@.skip(i as int + 2));
        i = i + 2;
    }
    let r: String = from_range(&a, i, a.len());
    assert(r@ =~= a@.skip(i as int));
    r
}

/// The tenant whose database a path of an archive is, if it is one:
/// `tenants/<id>/data.sqlite`.
pub open spec fn tenant_of_path(path: Seq<char>) -> Option<Seq<char>> {
    match after_prefix(without_dot_slash(path), "tenants/"@) {
        None => None,
        Some(rest) => {
            let i = find_char(rest, '/') as int;
            if 0 < i < rest.len() && rest.skip(i + 1) == "data.sqlite"@ {
                Some(rest.take(i))
            } else {
                None
            }
        },
    }
}

/// Finds the tenant whose database a path of an archive is.
pub fn parse_tenant_db_path(p: &str) -> (r: Option<String>)
    ensures
        crate::text::opt_view(r) == tenant_of_path(p@),
{
    let stripped: String = strip_dot_slash(p);
    match strip_prefix(stripped.as_str(), "tenants/") {
        None => None,
        Some(rest) => {
            let a: Vec<char> = to_chars(rest.as_str());
            let i: usize = position_of(&a, '/');
            if i == 0 || i >= a.len() {
                return None;
            }
            let tail: String = from_range(&a, i + 1, a.len());
            assert(tail@ =~= rest@.skip(i as int + 1));
            if str_eq(tail.as_str(), "data.sqlite") {
                let id: String = from_range(&a, 0, i);
                assert(id@ =~= rest@.take(i as int));
                Some(id)
            } else {
                None
            }
        },
    }
}

// ---------------------------------------------------------------------------
// Listing
// ---------------------------------------------------------------------------

/// An entry of the directory of snapshots.
#[derive(Debug)]
pub struct BackupFile {
    pub name: String,
    pub is_file: bool,
    pub size: u64,
    pub mtime_ms: i64,
    pub age_secs: i64,
}

/// An entry that is listed.
pub open spec fn listed(f: BackupFile) -> bool {
    f.is_file && backup_name(f.name@)
}

/// The positions of the first `k` entries that are listed.
pub open spec fn listed_positions(files: Seq<BackupFile>, k: nat) -> Seq<int>
    decreases k,
{
    if k == 0 {
        Seq::<int>::empty()
    } else {
        let head = listed_positions(files, (k - 1) as nat);
        if listed(files[k - 1]) {
            head.push(k - 1)
        } else {
            head
        }
    }
}

/// The sizes at some positions, added up.
pub open spec fn total_size(files: Seq<BackupFile>, at: Seq<int>) -> nat
    decreases at.len(),
{
    if at.len() == 0 {
        0
    } else {
        total_size(files, at.drop_last()) + files[at.last()].size as nat
    }
}

/// The row of an entry.
pub open spec fn row_of(r: BackupRow, f: BackupFile) -> bool {
    &&& r.filename@ == f.name@
    &&& r.size_human@ == humanized(f.size as nat)
    &&& r.mtime_iso@ == time_text(f.mtime_ms as int, MINUTES@)
    &&& r.age_human@ == age_text(f.age_secs as int)
}

/// The names at some positions.
pub open spec fn names_at(files: Seq<BackupFile>, at: Seq<int>) -> Seq<Seq<char>> {
    at.map_values(|i: int| files[i].name@)
}

/// The list of snapshots: the rows, the newest first, and the size of all.
#[derive(Debug)]
pub struct BackupList {
    pub rows: Vec<BackupRow>,
    pub total_size_human: String,
}

/// Lists the snapshots among the entries of a directory. The time is part of
/// the name, so the order of the names is that of the snapshots. The sizes
/// have to add up to a number of their type.
pub fn list_page(files: &Vec<BackupFile>) -> (r: BackupList)
    requires
        total_size(files@, listed_positions(files@, files@.len())) <= u64::MAX,
        forall|i: int| 0 <= i < files@.len() ==> in_calendar((#[trigger] files@[i]).mtime_ms as int),
    ensures
        ({
            let at = listed_positions(files@, files@.len());
            let order = sorted_order(names_at(files@, at), true);
            &&& r.rows@.len() == order.len()
            &&& forall|i: int|
                0 <= i < order.len() ==> row_of(#[trigger] r.rows@[i], files@[at[order[i]]])
            &&& r.total_size_human@ == humanized(total_size(files@, at))
        }),
{
    let ghost at = listed_positions(files@, files@.len());
    let mut kept: Vec<usize> = Vec::new();
    let mut names: Vec<String> = Vec::new();
    let mut total: u64 = 0;
    let mut i: usize = 0;
    assert(positions(kept@) =~= Seq::<int>::empty());
    assert(views(names@) =~= names_at(files@, positions(kept@)));
    while i < files.len()
        invariant
            i <= files@.len(),
            positions(kept@) == listed_positions(files@, i as nat),
            kept@.len() == names@.len(),
            views(names@) == names_at(files@, positions(kept@)),
            total == total_size(files@, positions(kept@)),
            total_size(files@, listed_positions(files@, files@.len())) <= u64::MAX,
            forall|k: int| 0 <= k < kept@.len() ==> (#[trigger] kept@[k]) < files@.len(),
        decreases files@.len() - i,
    {
        if files[i].is_file && is_safe_backup_filename(files[i].name.as_str()) {
            let ghost before = positions(kept@);
            let ghost names_before = views(names@);
            kept.push(i);
            names.push(files[i].name.clone());
            assert(positions(kept@) =~= before.push(i as int));
            assert(views(names@) =~= names_before.push(files@[i as int].name@));
            assert(views(names@) =~= names_at(files@, positions(kept@)));
            proof {
                lemma_total_grows(files@, (i + 1) as nat, files@.len());
                assert(before.push(i as int).drop_last() =~= before);
            }
            total = total + files[i].size;
        }
        i = i + 1;
    }
    let order: Vec<usize> = sort_positions(&names, true);
    let mut rows: Vec<BackupRow> = Vec::new();
    let mut j: usize = 0;
    while j < order.len()
        invariant
            j <= order@.len(),
            order@.len() == names@.len(),
            kept@.len() == names@.len(),
            forall|k: int| 0 <= k < order@.len() ==> (#[trigger] order@[k]) < names@.len(),
            forall|k: int| 0 <= k < kept@.len() ==> (#[trigger] kept@[k]) < files@.len(),
            forall|k: int|
                0 <= k < files@.len() ==> in_calendar((#[trigger] files@[k]).mtime_ms as int),
            rows@.len() == j,
            forall|k: int|
                0 <= k < j ==> row_of(
                    #[trigger] rows@[k],
                    files@[kept@[order@[k] as int] as int],
                ),
        decreases order@.len() - j,
    {
        let f: &BackupFile = &files[kept[order[j]]];
        assert(in_calendar(files@[kept@[order@[j as int] as int] as int].mtime_ms as int));
        rows.push(
            BackupRow {
                filename: f.name.clone(),
                size_human: humanize_bytes(f.size),
                mtime_iso: format_time(f.mtime_ms, MINUTES),
                age_human: humanize_age(f.age_secs),
            },
        );
        j = j + 1;
    }
    proof {
        let o = sorted_order(names_at(files@, at), true);
        assert forall|k: int| 0 <= k < o.len() implies row_of(
            #[trigger] rows@[k],
            files@[at[o[k]]],
        ) by {
            assert(o[k] == positions(order@)[k]);
            assert(at[o[k]] == positions(kept@)[o[k]]);
        }
    }
    BackupList { rows, total_size_human: humanize_bytes(total) }
}

proof fn lemma_total_grows(files: Seq<BackupFile>, j: nat, k: nat)
    requires
        j <= k <= files.len(),
    ensures
        total_size(files, listed_positions(files, j)) <= total_size(
            files,
            listed_positions(files, k),
        ),
    decreases k,
{
    if j < k {
        lemma_total_grows(files, j, (k - 1) as nat);
        let head = listed_positions(files, (k - 1) as nat);
        assert(head.push(k - 1).drop_last() =~= head);
    }
}

// ---------------------------------------------------------------------------
// Looking inside
// ---------------------------------------------------------------------------

/// An entry of an archive.
#[derive(Debug)]
pub struct ArchiveEntry {
    pub path: String,
    pub is_regular: bool,
    pub size: u64,
}

/// The entry is the database of the server itself.
pub open spec fn is_meta(e: ArchiveEntry) -> bool {
    e.is_regular && without_dot_slash(e.path@) == "meta.sqlite"@
}

/// Whether an entry is the database of the server itself, which a reader of an
/// archive has to copy out.
pub fn is_meta_entry(e: &ArchiveEntry) -> (r: bool)
    ensures
        r == is_meta(*e),
{
    e.is_regular && str_eq(strip_dot_slash(e.path.as_str()).as_str(), "meta.sqlite")
}

/// The entry is the database of that tenant.
pub open spec fn is_tenant_db(e: ArchiveEntry, id: Seq<char>) -> bool {
    e.is_regular && !is_meta(e) && tenant_of_path(without_dot_slash(e.path@)) == Some(id)
}

/// The size of the last database of a tenant among the first `k` entries.
pub open spec fn last_size(entries: Seq<ArchiveEntry>, id: Seq<char>, k: nat) -> Option<nat>
    decreases k,
{
    if k == 0 {
        None
    } else if is_tenant_db(entries[k - 1], id) {
        Some(entries[k - 1].size as nat)
    } else {
        last_size(entries, id, (k - 1) as nat)
    }
}

/// The size that a list gives for an id, the last one counting.
pub open spec fn size_for(sizes: Seq<(Seq<char>, nat)>, id: Seq<char>) -> Option<nat>
    decreases sizes.len(),
{
    if sizes.len() == 0 {
        None
    } else if sizes.last().0 == id {
        Some(sizes.last().1)
    } else {
        size_for(sizes.drop_last(), id)
    }
}

/// The pairs, as mathematics has them.
pub open spec fn size_views(v: Seq<(String, u64)>) -> Seq<(Seq<char>, nat)> {
    v.map_values(|s: (String, u64)| (s.0@, s.1 as nat))
}

/// The sizes of the databases of the tenants in an archive, which has to
/// hold the database of the server too.
pub fn extract_meta_and_sizes(entries: &Vec<ArchiveEntry>) -> (r: Result<
    Vec<(String, u64)>,
    &'static str,
>)
    ensures
        match r {
            Ok(sizes) => {
                &&& exists|i: int| 0 <= i < entries@.len() && is_meta(#[trigger] entries@[i])
                &&& forall|id: Seq<char>| #[trigger]
                    size_for(size_views(sizes@), id) == last_size(
                        entries@,
                        id,
                        entries@.len(),
                    )
            },
            Err(e) => {
                &&& forall|i: int| 0 <= i < entries@.len() ==> !is_meta(#[trigger] entries@[i])
                &&& e@ == "meta.sqlite not present in archive"@
            },
        },
{
    let mut meta: bool = false;
    let mut sizes: Vec<(String, u64)> = Vec::new();
    let mut i: usize = 0;
    assert(size_views(sizes@) =~= Seq::<(Seq<char>, nat)>::empty());
    while i < entries.len()
        invariant
            i <= entries@.len(),
            meta == exists|k: int| 0 <= k < i && is_meta(#[trigger] entries@[k]),
            forall|id: Seq<char>| #[trigger]
                size_for(size_views(sizes@), id) == last_size(entries@, id, i as nat),
        decreases entries@.len() - i,
    {
        let ghost before = size_views(sizes@);
        if is_meta_entry(&entries[i]) {
            assert(is_meta(entries@[i as int]));
            meta = true;
        } else if entries[i].is_regular {
            let path: String = strip_dot_slash(entries[i].path.as_str());
            if let Some(id) = parse_tenant_db_path(path.as_str()) {
                let ghost idv = id@;
                let size: u64 = entries[i].size;
                sizes.push((id, size));
                assert(size_views(sizes@) =~= before.push((idv, size as nat)));
                assert(size_views(sizes@).drop_last() =~= before);
            }
        }
        assert forall|id: Seq<char>| #[trigger]
            size_for(size_views(sizes@), id) == last_size(entries@, id, (i + 1) as nat) by {
            assert(size_for(before, id) == last_size(entries@, id, i as nat));
        }
        i = i + 1;
    }
    if meta {
        Ok(sizes)
    } else {
        Err("meta.sqlite not present in archive")
    }
}

/// The size of a tenant's database for a reader, a dash where it is missing.
pub open spec fn size_text(size: Option<nat>) -> Seq<char> {
    match size {
        Some(n) => humanized(n),
        None => "—"@,
    }
}

fn find_size(sizes: &Vec<(String, u64)>, id: &str) -> (r: Option<u64>)
    ensures
        (match r {
            Some(n) => Some(n as nat),
            None => None,
        }) == size_for(size_views(sizes@), id@),
{
    let ghost all = size_views(sizes@);
    let mut n: usize = sizes.len();
    assert(all.take(n as int) =~= all);
    while n > 0
        invariant
            n <= sizes@.len(),
            all == size_views(sizes@),
            size_for(all, id@) == size_for(all.take(n as int), id@),
        decreases n,
    {
        assert(all.take(n as int).last() == (sizes@[n - 1].0@, sizes@[n - 1].1 as nat));
        assert(all.take(n as int).drop_last() =~= all.take(n - 1));
        if str_eq(sizes[n - 1].0.as_str(), id) {
            return Some(sizes[n - 1].1);
        }
        n = n - 1;
    }
    None
}

/// A tenant of the database in a snapshot.
#[derive(Debug)]
pub struct BackupTenant {
    pub id: String,
    pub name: String,
    pub created_at: String,
}

/// Lists the tenants of a snapshot with the sizes of their databases.
pub fn inspect(tenants: &Vec<BackupTenant>, sizes: &Vec<(String, u64)>) -> (r: Vec<TenantInBackup>)
    ensures
        r@.len() == tenants@.len(),
        forall|i: int|
            0 <= i < r@.len() ==> {
                let size = size_for(size_views(sizes@), tenants@[i].id@);
                &&& (#[trigger] r@[i]).id@ == tenants@[i].id@
                &&& r@[i].name@ == tenants@[i].name@
                &&& r@[i].created_at@ == tenants@[i].created_at@
                &&& r@[i].db_present == (size is Some)
                &&& r@[i].db_size_human@ == size_text(size)
            },
{
    let mut r: Vec<TenantInBackup> = Vec::new();
    let mut i: usize = 0;
    while i < tenants.len()
        invariant
            i <= tenants@.len(),
            r@.len() == i,
            forall|k: int|
                0 <= k < i ==> {
                    let size = size_for(size_views(sizes@), tenants@[k].id@);
                    &&& (#[trigger] r@[k]).id@ == tenants@[k].id@
                    &&& r@[k].name@ == tenants@[k].name@
                    &&& r@[k].created_at@ == tenants@[k].created_at@
                    &&& r@[k].db_present == (size is Some)
                    &&& r@[k].db_size_human@ == size_text(size)
                },
        decreases tenants@.len() - i,
    {
        let size: Option<u64> = find_size(sizes, tenants[i].id.as_str());
        let db_size_human: String = match size {
            Some(n) => humanize_bytes(n),
            None => "—".to_owned(),
        };
        r.push(
            TenantInBackup {
                id: tenants[i].id.clone(),
                name: tenants[i].name.clone(),
                created_at: tenants[i].created_at.clone(),
                db_size_human,
                db_present: size.is_some(),
            },
        );
        i = i + 1;
    }
    r
}

/// The message after a restore, where the query names both the tenant and
/// the destination.
pub fn restore_flash(qs: InspectQs) -> (r: Option<RestoreFlash>)
    ensures
        match (qs.restored, qs.dest) {
            (Some(t), Some(d)) => r == Some(RestoreFlash { tenant_id: t, destination: d }),
            _ => r is None,
        },
{
    match (qs.restored, qs.dest) {
        (Some(tenant_id), Some(destination)) => Some(RestoreFlash { tenant_id, destination }),
        _ => None,
    }
}

// ---------------------------------------------------------------------------
// Restoring and downloading
// ---------------------------------------------------------------------------

/// Refuses a name that is not that of a snapshot, and a snapshot that is not there.
pub fn check_backup(filename: &str, exists_on_disk: bool) -> (r: Result<(), PlainRefusal>)
    ensures
        if !backup_name(filename@) {
            r is Err && plain(r->Err_0, 400, "invalid backup name"@)
        } else if !exists_on_disk {
            r is Err && plain(r->Err_0, 404, "backup not found"@)
        } else {
            r is Ok
        },
{
    if !is_safe_backup_filename(filename) {
        return Err(plain_refusal(400, "invalid backup name"));
    }
    if !exists_on_disk {
        return Err(plain_refusal(404, "backup not found"));
    }
    Ok(())
}

/// `leaf` in the directory `dir`.
pub open spec fn path_in(dir: Seq<char>, leaf: Seq<char>) -> Seq<char> {
    if dir.len() == 0 {
        leaf
    } else if dir.last() == '/' {
        dir + leaf
    } else {
        dir + "/"@ + leaf
    }
}

/// Puts a path together.
pub fn join_path(dir: &str, leaf: &str) -> (r: String)
    ensures
        r@ == path_in(dir@, leaf@),
{
    let a: Vec<char> = to_chars(dir);
    if a.len() == 0 {
        leaf.to_owned()
    } else if a[a.len() - 1] == '/' {
        concat2(dir, leaf)
    } else {
        concat3(dir, "/", leaf)
    }
}

/// What a restore unpacks, and where to.
#[derive(Debug)]
pub struct RestorePlan {
    /// The path of the tenant's database in the archive.
    pub want_db: String,
    /// The path of the tenant's metadata in the archive.
    pub want_meta: String,
    /// The directory to unpack into.
    pub dest_dir: String,
}

/// The directory that a restore unpacks into.
pub open spec fn restore_dir(data_dir: Seq<char>, tenant: Seq<char>, now: int) -> Seq<char> {
    path_in(
        path_in(data_dir, "_trash"@),
        tenant + "-restored-"@ + time_text(now, COMPACT@),
    )
}

/// Plans the restore of a tenant.
pub fn restore_tenant(
    state: &BackupsState,
    filename: &str,
    form: &RestoreForm,
    exists_on_disk: bool,
    now: i64,
) -> (r: Result<RestorePlan, PlainRefusal>)
    requires
        in_calendar(now as int),
    ensures
        if !backup_name(filename@) {
            r is Err && plain(r->Err_0, 400, "invalid backup name"@)
        } else if !uuid_like(form.tenant_id@) {
            r is Err && plain(r->Err_0, 400, "invalid tenant_id"@)
        } else if !exists_on_disk {
            r is Err && plain(r->Err_0, 404, "backup not found"@)
        } else {
            &&& r matches Ok(p)
            &&& p.want_db@ == "tenants/"@ + form.tenant_id@ + "/data.sqlite"@
            &&& p.want_meta@ == "tenants/"@ + form.tenant_id@ + "/meta.json"@
            &&& p.dest_dir@ == restore_dir(state.data_dir@, form.tenant_id@, now as int)
        },
{
    if !is_safe_backup_filename(filename) {
        return Err(plain_refusal(400, "invalid backup name"));
    }
    if !is_uuid_like(form.tenant_id.as_str()) {
        return Err(plain_refusal(400, "invalid tenant_id"));
    }
    if !exists_on_disk {
        return Err(plain_refusal(404, "backup not found"));
    }
    let ts: String = format_time(now, COMPACT);
    let trash: String = join_path(state.data_dir.as_str(), "_trash");
    let leaf: String = concat3(form.tenant_id.as_str(), "-restored-", ts.as_str());
    Ok(
        RestorePlan {
            want_db: concat3("tenants/", form.tenant_id.as_str(), "/data.sqlite"),
            want_meta: concat3("tenants/", form.tenant_id.as_str(), "/meta.json"),
            dest_dir: join_path(trash.as_str(), leaf.as_str()),
        },
    )
}

/// What a restore does with an entry of the archive.
#[derive(Clone, Copy, Debug, PartialEq, Eq, Structural)]
pub enum RestoreEntry {
    Database,
    Metadata,
    Skip,
}

/// Sorts an entry of the archive by its path.
pub fn restore_entry(plan: &RestorePlan, path: &str) -> (r: RestoreEntry)
    ensures
        r == (if without_dot_slash(path@) == plan.want_db@ {
            RestoreEntry::Database
        } else if without_dot_slash(path@) == plan.want_meta@ {
            RestoreEntry::Metadata
        } else {
            RestoreEntry::Skip
        }),
{
    let p: String = strip_dot_slash(path);
    if str_eq(p.as_str(), plan.want_db.as_str()) {
        RestoreEntry::Database
    } else if str_eq(p.as_str(), plan.want_meta.as_str()) {
        RestoreEntry::Metadata
    } else {
        RestoreEntry::Skip
    }
}

/// What became of the unpacking: whether the database was there, or the words
/// of the failure.
#[derive(Debug)]
pub enum Unpacked {
    Done { wrote_db: bool },
    Failed(String),
    Interrupted(String),
}

/// Answers a restore: the location of the page that tells of it. A failed one
/// has its directory removed.
#[derive(Debug)]
pub struct RestoreFailure {
    pub refusal: PlainRefusal,
    pub remove_dest: bool,
}

pub fn restore_reply(filename: &str, tenant_id: &str, dest_dir: &str, unpacked: Unpacked) -> (r: Result<
    String,
    RestoreFailure,
>)
    ensures
        match unpacked {
            Unpacked::Done { wrote_db } => if wrote_db {
                r matches Ok(to) && to@ == "/drust/admin/backups/"@ + filename@
                    + "/inspect?restored="@ + tenant_id@ + "&dest="@ + percent(dest_dir@)
            } else {
                r is Err && r->Err_0.remove_dest && plain(
                    r->Err_0.refusal,
                    500,
                    "restore failed: tenant '"@ + tenant_id@
                        + "' not present in archive (only meta.sqlite or another tenant)"@,
                )
            },
            Unpacked::Failed(m) => r is Err && r->Err_0.remove_dest && plain(
                r->Err_0.refusal,
                500,
                "restore failed: "@ + m@,
            ),
            Unpacked::Interrupted(m) => r is Err && !r->Err_0.remove_dest && plain(
                r->Err_0.refusal,
                500,
                "join error: "@ + m@,
            ),
        },
{
    match unpacked {
        Unpacked::Done { wrote_db } => {
            if wrote_db {
                let mut s: String = "/drust/admin/backups/".to_owned();
                s.append(filename);
                s.append("/inspect?restored=");
                s.append(tenant_id);
                s.append("&dest=");
                s.append(url_encode(dest_dir).as_str());
                Ok(s)
            } else {
                let message: String = concat3(
                    "restore failed: tenant '",
                    tenant_id,
                    "' not present in archive (only meta.sqlite or another tenant)",
                );
                Err(
                    RestoreFailure {
                        refusal: PlainRefusal { status: 500, message },
                        remove_dest: true,
                    },
                )
            }
        },
        Unpacked::Failed(m) => Err(
            RestoreFailure {
                refusal: PlainRefusal {
                    status: 500,
                    message: concat2("restore failed: ", m.as_str()),
                },
                remove_dest: true,
            },
        ),
        Unpacked::Interrupted(m) => Err(
            RestoreFailure {
                refusal: PlainRefusal {
                    status: 500,
                    message: concat2("join error: ", m.as_str()),
                },
                remove_dest: false,
            },
        ),
    }
}

/// The headers of a download.
#[derive(Debug)]
pub struct DownloadHeaders {
    pub content_type: &'static str,
    pub content_length: Option<u64>,
    pub content_disposition: String,
}

/// The headers of the download of a snapshot. An unknown size is left out.
pub fn download_one(filename: &str, size: u64) -> (r: DownloadHeaders)
    ensures
        r.content_type@ == "application/zstd"@,
        r.content_length == (if size > 0 {
            Some(size)
        } else {
            None
        }),
        r.content_disposition@ == "attachment; filename=\""@ + filename@ + "\""@,
{
    DownloadHeaders {
        content_type: "application/zstd",
        content_length: if size > 0 {
            Some(size)
        } else {
            None
        },
        content_disposition: concat3("attachment; filename=\"", filename, "\""),
    }
}

// ---------------------------------------------------------------------------
// What is promised of snapshots
// ---------------------------------------------------------------------------

/// An age is told in its largest unit, what is left over being dropped.
pub proof fn law_ages_are_told_in_their_unit(n: nat, rest: nat)
    ensures
        n < 60 ==> age_text(n as int) == dec(n) + "s ago"@,
        0 < n < 60 && rest < 60 ==> age_text((n * 60 + rest) as int) == dec(n) + "m ago"@,
        0 < n < 24 && rest < 3600 ==> age_text((n * 3600 + rest) as int) == dec(n) + "h ago"@,
        0 < n && rest < 86400 ==> age_text((n * 86400 + rest) as int) == dec(n) + "d ago"@,
        age_text(-1 - n) == "future"@,
{
}

/// A snapshot is known by how its name begins and ends, whatever stands between, as long
/// as that is no path.
pub proof fn law_snapshots_are_known_by_name(middle: Seq<char>)
    requires
        !middle.contains('/'),
        !middle.contains('\\'),
    ensures
        backup_name("drust-"@ + middle + ".tar.zst"@),
        !backup_name("drust-"@ + middle + "/"@ + ".tar.zst"@),
{
    reveal_strlit("drust-");
    reveal_strlit(".tar.zst");
    reveal_strlit("/");
    let a = "drust-"@;
    let b = ".tar.zst"@;
    let s = a + middle + b;
    assert(s.subrange(0, a.len() as int) =~= a);
    assert(s.subrange(s.len() - b.len(), s.len() as int) =~= b);
    assert forall|i: int| 0 <= i < s.len() implies s[i] != '/' && s[i] != '\\' by {
        if a.len() <= i < a.len() + middle.len() {
            assert(s[i] == middle[i - a.len()]);
            assert(middle.contains(middle[i - a.len()]));
        } else if i < a.len() {
            assert(s[i] == a[i]);
        } else {
            assert(s[i] == b[i - a.len() - middle.len()]);
        }
    }
    let t = a + middle + "/"@ + b;
    assert(t[(a + middle).len() as int] == '/');
}

/// In an archive the database of a tenant stands below its id, with or without `./`
/// before the path; no other file there is one.
pub proof fn law_databases_stand_below_their_tenant(id: Seq<char>, leaf: Seq<char>, path: Seq<char>)
    requires
        id.len() > 0,
        !id.contains('/'),
    ensures
        tenant_of_path("tenants/"@ + id + "/"@ + leaf) == (if leaf == "data.sqlite"@ {
            Some(id)
        } else {
            None
        }),
        tenant_of_path("./"@ + path) == tenant_of_path(path),
        without_dot_slash("./"@ + path) == without_dot_slash(path),
{
    reveal_strlit("tenants/");
    reveal_strlit("/");
    reveal_strlit("./");
    let t = "tenants/"@;
    let s = t + id + "/"@ + leaf;
    let rest = id + "/"@ + leaf;
    assert(s[0] == 't');
    assert(s.subrange(0, t.len() as int) =~= t);
    assert(s.skip(t.len() as int) =~= rest);
    assert forall|j: int| 0 <= j < id.len() implies rest[j] != '/' by {
        assert(rest[j] == id[j]);
        assert(id.contains(id[j]));
    }
    assert(rest[id.len() as int] == '/');
    lemma_find_char_is(rest, '/', id.len() as int);
    assert(rest.take(id.len() as int) =~= id);
    assert(rest.skip(id.len() as int + 1) =~= leaf);
    let d = "./"@ + path;
    assert(d.skip(2) =~= path);
    assert(d[0] == '.' && d[1] == '/');
}

/// The list holds exactly the files whose name is that of a snapshot.
pub proof fn law_lists_hold_the_snapshots(files: Seq<BackupFile>, k: nat, i: int)
    requires
        k <= files.len(),
    ensures
        listed_positions(files, k).contains(i) <==> 0 <= i < k && files[i].is_file && backup_name(
            files[i].name@,
        ),
    decreases k,
{
    if k > 0 {
        law_lists_hold_the_snapshots(files, (k - 1) as nat, i);
        let before = listed_positions(files, (k - 1) as nat);
        let now = listed_positions(files, k);
        if before.contains(i) {
            let j = choose|j: int| 0 <= j < before.len() && before[j] == i;
            assert(now[j] == i);
        }
        if now.contains(i) && !before.contains(i) {
            let j = choose|j: int| 0 <= j < now.len() && now[j] == i;
            if j < before.len() {
                assert(before[j] == i);
            }
        }
        if listed(files[k - 1]) {
            assert(now[before.len() as int] == k - 1);
        }
    }
}

/// The size of all is that of the ones before and that of the last.
pub proof fn law_sizes_add_up(files: Seq<BackupFile>, at: Seq<int>, i: int)
    ensures
        total_size(files, at.push(i)) == total_size(files, at) + files[i].size,
        total_size(files, Seq::<int>::empty()) == 0,
{
    assert(at.push(i).drop_last() =~= at);
}

/// A snapshot is listed under its own name, with its own size and age.
pub proof fn law_snapshots_are_listed_as_they_are(r: BackupRow, f: BackupFile)
    requires
        row_of(r, f),
    ensures
        r.filename@ == f.name@,
        f.size < 1024 ==> r.size_human@ == dec(f.size as nat) + " B"@,
        0 <= f.age_secs < 60 ==> r.age_human@ == dec(f.age_secs as nat) + "s ago"@,
{
}

/// The last database of a tenant in an archive is the one whose size counts; a tenant
/// without one has none.
pub proof fn law_last_database_counts(entries: Seq<ArchiveEntry>, id: Seq<char>, k: nat, i: int)
    requires
        k <= entries.len(),
        0 <= i < k,
        is_tenant_db(entries[i], id),
        forall|j: int| i < j < k ==> !is_tenant_db(#[trigger] entries[j], id),
    ensures
        last_size(entries, id, k) == Some(entries[i].size as nat),
    decreases k,
{
    if i < k - 1 {
        assert(!is_tenant_db(entries[k - 1], id));
        law_last_database_counts(entries, id, (k - 1) as nat, i);
    }
}

/// What is unpacked stands in the directory, behind one slash.
pub proof fn law_paths_stand_in_their_directory(dir: Seq<char>, leaf: Seq<char>)
    requires
        dir.len() > 0,
    ensures
        has_suffix(path_in(dir, leaf), leaf),
        has_prefix(path_in(dir, leaf), dir),
        dir.last() != '/' ==> path_in(dir, leaf) == path_in(dir + "/"@, leaf),
        path_in(Seq::<char>::empty(), leaf) == leaf,
{
    reveal_strlit("/");
    let p = path_in(dir, leaf);
    assert(p.subrange(p.len() - leaf.len(), p.len() as int) =~= leaf);
    assert(p.subrange(0, dir.len() as int) =~= dir);
    assert((dir + "/"@).last() == '/');
}

/// A restore goes to the trash of the data, under the id of the tenant, and not in its
/// place.
pub proof fn law_restores_go_to_the_trash(data_dir: Seq<char>, tenant: Seq<char>, now: int)
    requires
        data_dir.len() > 0,
        data_dir.last() != '/',
    ensures
        restore_dir(data_dir, tenant, now) == data_dir + "/_trash/"@ + tenant + "-restored-"@
            + time_text(now, COMPACT@),
{
    reveal_strlit("/");
    reveal_strlit("_trash");
    reveal_strlit("/_trash/");
    let trash = path_in(data_dir, "_trash"@);
    assert(trash.last() == 'h');
    assert(restore_dir(data_dir, tenant, now) =~= data_dir + "/_trash/"@ + tenant + "-restored-"@
        + time_text(now, COMPACT@));
}

/// A database that is missing is shown as missing, and another with its size.
pub proof fn law_sizes_are_shown(n: nat)
    ensures
        size_text(Some(n)) == humanized(n),
        size_text(None) == "—"@,
{
}

/// The database of the server is known by its path, whether or not `./` stands before it.
pub proof fn law_server_database_is_known(e: ArchiveEntry, f: ArchiveEntry)
    ensures
        e.is_regular && e.path@ == "meta.sqlite"@ ==> is_meta(e),
        e.is_regular == f.is_regular && f.path@ == "./"@ + e.path@ ==> is_meta(f) == is_meta(e),
        !e.is_regular ==> !is_meta(e),
{
    reveal_strlit("meta.sqlite");
    reveal_strlit("./");
    assert("meta.sqlite"@[0] == 'm');
    let d = "./"@ + e.path@;
    assert(d.skip(2) =~= e.path@);
    assert(d[0] == '.' && d[1] == '/');
    reveal_with_fuel(without_dot_slash, 2);
}

/// The last size that a list gives for a tenant counts, and changes that of no other.
pub proof fn law_last_size_counts(sizes: Seq<(Seq<char>, nat)>, id: Seq<char>, n: nat, other: Seq<char>)
    ensures
        size_for(sizes.push((id, n)), id) == Some(n),
        other != id ==> size_for(sizes.push((id, n)), other) == size_for(sizes, other),
        size_for(Seq::<(Seq<char>, nat)>::empty(), id) is None,
{
    assert(sizes.push((id, n)).drop_last() =~= sizes);
}

} // verus!
