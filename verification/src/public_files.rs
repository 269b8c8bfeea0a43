//! Files of the host: their list, uploads, deletions, and the comparison of
//! the table with the storage.

use vstd::prelude::*;
use crate::backups::{plain, uuid_like, PlainRefusal};
use crate::clock::{in_calendar, rfc3339_text, write_rfc3339};
use crate::format::{humanize_bytes, humanized};
use crate::json::{json_document, read_json, Json, JsonView};
use crate::oauth_server::metadata::{trim_slashes, without_slashes};
use crate::paging::{page_count, total_pages};
use crate::rounding::{
    BinaryView, fixed1, law_small_numbers_are_exact, lemma_half_even_whole, one_place,
    push_one_place, round53, round_half_even, to53,
};
use crate::signed_bytes::{FileLookup, Visibility};
use crate::text::{
    concat2, concat3, contains, copy_or, dec, dec_of, from_range, has_part, has_prefix, has_suffix,
    lemma_split_none, lower, opt_eq, opt_view, parse_unsigned, quoted, split, split_on, str_eq,
    to_chars, to_lower_text, unsigned_of, view_or, views, write_quoted,
};
use crate::url::{
    lemma_first_param, lemma_next_param, lemma_number_param, one_param, params, path_of,
};

verus! {

fn words(status: u16, message: &str) -> (r: PlainRefusal)
    ensures
        plain(r, status, message@),
{
    PlainRefusal { status, message: message.to_owned() }
}

/// The page of files.
pub const FILES_URL: &'static str = "/drust/admin/files";

// ---------------------------------------------------------------------------
// The list
// ---------------------------------------------------------------------------

#[derive(Debug)]
pub struct ListQs {
    pub page: Option<u32>,
    pub per_page: Option<u32>,
    pub vis: Option<String>,
}

/// A file on the page.
#[derive(Debug)]
pub struct PublicFileRow {
    pub id: i64,
    pub key: String,
    pub original_name: String,
    pub content_type: String,
    pub size_human: String,
    pub uploaded_at: String,
    pub public_url: String,
    pub visibility: String,
}

/// How many files there are.
#[derive(Debug)]
pub struct Counts {
    pub total: i64,
    pub public: i64,
    pub private: i64,
}

/// A number of rows that a page may have.
pub open spec fn allowed_per_page(n: u32) -> bool {
    n == 10 || n == 25 || n == 50 || n == 100
}

/// The number of rows on a page: the one asked for where it is allowed.
pub open spec fn rows_per_page(qs: ListQs) -> u32 {
    match qs.per_page {
        Some(n) => if allowed_per_page(n) {
            n
        } else {
            25
        },
        None => 25,
    }
}

/// The page asked for, the first where there is no such number.
pub open spec fn page_asked(qs: ListQs) -> u32 {
    match qs.page {
        Some(n) => if n < 1 {
            1
        } else {
            n
        },
        None => 1,
    }
}

/// The files asked for: `public`, `private`, or else `all`.
pub open spec fn filter_of(qs: ListQs) -> Seq<char> {
    if opt_view(qs.vis) == Some("public"@) {
        "public"@
    } else if opt_view(qs.vis) == Some("private"@) {
        "private"@
    } else {
        "all"@
    }
}

/// What a page of the list needs from the database.
#[derive(Debug)]
pub struct FilePlan {
    pub page: u32,
    pub per_page: u32,
    pub filter: &'static str,
    pub offset: i64,
}

/// Decides what a page of the list needs.
pub fn plan_list(qs: &ListQs) -> (r: FilePlan)
    ensures
        r.page == page_asked(*qs),
        r.per_page == rows_per_page(*qs),
        r.filter@ == filter_of(*qs),
        r.offset == (page_asked(*qs) - 1) * rows_per_page(*qs),
{
    let page: u32 = match qs.page {
        Some(n) => if n < 1 {
            1
        } else {
            n
        },
        None => 1,
    };
    let per_page: u32 = match qs.per_page {
        Some(n) => if n == 10 || n == 25 || n == 50 || n == 100 {
            n
        } else {
            25
        },
        None => 25,
    };
    let filter: &'static str = if opt_eq(&qs.vis, "public") {
        "public"
    } else if opt_eq(&qs.vis, "private") {
        "private"
    } else {
        "all"
    };
    assert(0 <= (page - 1) * per_page <= 0xffff_ffff * 100) by (nonlinear_arith)
        requires
            1 <= page <= 0xffff_ffff,
            0 <= per_page <= 100,
    ;
    FilePlan { page, per_page, filter, offset: (page as i64 - 1) * (per_page as i64) }
}

/// A row of the table of files.
#[derive(Debug)]
pub struct FileRow {
    pub id: i64,
    pub key: String,
    pub original_name: String,
    pub content_type: String,
    pub size_bytes: i64,
    pub uploaded_at: String,
    pub visibility: String,
}

/// A size from the database, which never counts as negative.
pub open spec fn size_of(n: i64) -> nat {
    if n < 0 {
        0
    } else {
        n as nat
    }
}

fn to_size(n: i64) -> (r: u64)
    ensures
        r == size_of(n),
{
    if n < 0 {
        0
    } else {
        n as u64
    }
}

/// A file as the page shows it.
pub open spec fn shown_file(r: PublicFileRow, f: FileRow, base_url: Seq<char>) -> bool {
    &&& r.id == f.id
    &&& r.key@ == f.key@
    &&& r.original_name@ == f.original_name@
    &&& r.content_type@ == f.content_type@
    &&& r.size_human@ == humanized(size_of(f.size_bytes))
    &&& r.uploaded_at@ == f.uploaded_at@
    &&& r.public_url@ == without_slashes(base_url) + "/public/"@ + f.key@
    &&& r.visibility@ == f.visibility@
}

/// Prepares the files of a page.
pub fn show_files(rows: &Vec<FileRow>, base_url: &str) -> (r: Vec<PublicFileRow>)
    ensures
        r@.len() == rows@.len(),
        forall|i: int| 0 <= i < r@.len() ==> shown_file(#[trigger] r@[i], rows@[i], base_url@),
{
    let base: String = trim_slashes(base_url);
    let mut r: Vec<PublicFileRow> = Vec::new();
    let mut i: usize = 0;
    while i < rows.len()
        invariant
            i <= rows@.len(),
            base@ == without_slashes(base_url@),
            r@.len() == i,
            forall|k: int| 0 <= k < i ==> shown_file(#[trigger] r@[k], rows@[k], base_url@),
        decreases rows@.len() - i,
    {
        let f: &FileRow = &rows[i];
        r.push(
            PublicFileRow {
                id: f.id,
                key: f.key.clone(),
                original_name: f.original_name.clone(),
                content_type: f.content_type.clone(),
                size_human: humanize_bytes(to_size(f.size_bytes)),
                uploaded_at: f.uploaded_at.clone(),
                public_url: concat3(base.as_str(), "/public/", f.key.as_str()),
                visibility: f.visibility.clone(),
            },
        );
        i = i + 1;
    }
    r
}

/// A number of rows to choose for a page.
#[derive(Debug)]
pub struct PerPageOption {
    pub value: u32,
    pub selected: bool,
}

/// The page of files.
#[derive(Debug)]
pub struct FilesPage {
    pub files: Vec<PublicFileRow>,
    pub total_files: i64,
    pub total_bytes_human: String,
    pub max_upload_mb: u64,
    pub page: u32,
    pub per_page: u32,
    pub total_pages: u32,
    pub prev_url: Option<String>,
    pub next_url: Option<String>,
    pub per_page_options: Vec<PerPageOption>,
    pub filter: &'static str,
    pub counts: Counts,
}

/// The address of a page of files.
pub open spec fn pager_url(page: int, per_page: int, filter: Seq<char>) -> Seq<char> {
    let a = "/drust/admin/files?page="@ + dec(page as nat);
    let b = if per_page == 25 {
        a
    } else {
        a + "&per_page="@ + dec(per_page as nat)
    };
    if filter == "all"@ {
        b
    } else {
        b + "&vis="@ + filter
    }
}

fn write_pager_url(page: u32, per_page: u32, filter: &str) -> (r: String)
    ensures
        r@ == pager_url(page as int, per_page as int, filter@),
{
    let mut s: String = "/drust/admin/files?page=".to_owned();
    s.append(dec_of(page as u64).as_str());
    if per_page != 25 {
        s.append("&per_page=");
        s.append(dec_of(per_page as u64).as_str());
    }
    if !str_eq(filter, "all") {
        s.append("&vis=");
        s.append(filter);
    }
    s
}

/// The number of pages, as far as 32 bits hold it.
pub open spec fn pages_shown(total: int, per_page: int) -> int {
    if page_count(total, per_page) > u32::MAX {
        u32::MAX as int
    } else {
        page_count(total, per_page)
    }
}

/// The choices of the number of rows.
pub open spec fn choices(o: Seq<PerPageOption>, per_page: u32) -> bool {
    &&& o.len() == 4
    &&& o[0].value == 10 && o[1].value == 25 && o[2].value == 50 && o[3].value == 100
    &&& forall|i: int| 0 <= i < 4 ==> (#[trigger] o[i]).selected == (o[i].value == per_page)
}

/// The number of files that the filter lets through.
pub open spec fn counted(counts: Counts, filter: Seq<char>) -> i64 {
    if filter == "public"@ {
        counts.public
    } else if filter == "private"@ {
        counts.private
    } else {
        counts.total
    }
}

/// Puts a page of files together from what the database gave.
pub fn list_page(
    plan: &FilePlan,
    rows: &Vec<FileRow>,
    counts: Counts,
    total_bytes: i64,
    base_url: &str,
    max_upload_bytes: usize,
) -> (r: FilesPage)
    requires
        1 <= plan.page,
        allowed_per_page(plan.per_page),
        counts.total >= 0,
        counts.public >= 0,
        counts.private >= 0,
    ensures
        ({
            let per = plan.per_page as int;
            let total = counted(counts, plan.filter@) as int;
            let pages = pages_shown(total, per);
            &&& r.files@.len() == rows@.len()
            &&& forall|i: int|
                0 <= i < r.files@.len() ==> shown_file(#[trigger] r.files@[i], rows@[i], base_url@)
            &&& r.total_files == total
            &&& r.total_bytes_human@ == humanized(size_of(total_bytes))
            &&& r.max_upload_mb == max_upload_bytes / 1048576
            &&& r.page == plan.page
            &&& r.per_page == plan.per_page
            &&& r.total_pages == pages
            &&& opt_view(r.prev_url) == (if plan.page > 1 {
                Some(pager_url(plan.page - 1, per, plan.filter@))
            } else {
                None
            })
            &&& opt_view(r.next_url) == (if plan.page < pages {
                Some(pager_url(plan.page + 1, per, plan.filter@))
            } else {
                None
            })
            &&& choices(r.per_page_options@, plan.per_page)
            &&& r.filter@ == plan.filter@
            &&& r.counts == counts
        }),
{
    let total: i64 = if str_eq(plan.filter, "public") {
        counts.public
    } else if str_eq(plan.filter, "private") {
        counts.private
    } else {
        counts.total
    };
    let pages: u64 = total_pages(total as u64, plan.per_page);
    let total_pages: u32 = if pages > u32::MAX as u64 {
        u32::MAX
    } else {
        pages as u32
    };
    let prev_url: Option<String> = if plan.page > 1 {
        Some(write_pager_url(plan.page - 1, plan.per_page, plan.filter))
    } else {
        None
    };
    let next_url: Option<String> = if plan.page < total_pages {
        Some(write_pager_url(plan.page + 1, plan.per_page, plan.filter))
    } else {
        None
    };
    let mut per_page_options: Vec<PerPageOption> = Vec::new();
    per_page_options.push(PerPageOption { value: 10, selected: plan.per_page == 10 });
    per_page_options.push(PerPageOption { value: 25, selected: plan.per_page == 25 });
    per_page_options.push(PerPageOption { value: 50, selected: plan.per_page == 50 });
    per_page_options.push(PerPageOption { value: 100, selected: plan.per_page == 100 });
    FilesPage {
        files: show_files(rows, base_url),
        total_files: total,
        total_bytes_human: humanize_bytes(to_size(total_bytes)),
        max_upload_mb: (max_upload_bytes / 1048576) as u64,
        page: plan.page,
        per_page: plan.per_page,
        total_pages,
        prev_url,
        next_url,
        per_page_options,
        filter: plan.filter,
        counts,
    }
}

/// The state of the disk for the banner. The share that is free comes in
/// whole percent and as a text; where nothing is known of the disk it counts as
/// free, so that no warning is shown.
pub struct DiskView {
    pub used_gb: String,
    pub total_gb: String,
    pub free_pct: u8,
    pub free_pct_display: String,
}

/// A number of bytes in GB with one decimal.
pub open spec fn gigabytes(n: nat) -> Seq<char> {
    fixed1(BinaryView { m: to53(n), p: 1073741824 })
}

fn write_gigabytes(n: u64) -> (r: String)
    ensures
        r@ == gigabytes(n as nat),
{
    let m: u128 = round53(n as u128);
    let t: u128 = round_half_even(m * 10, 1073741824);
    let mut s: String = String::new();
    push_one_place(&mut s, t as u64);
    assert(s@ =~= gigabytes(n as nat));
    s
}

/// What is known of the disk.
#[derive(Debug)]
pub struct DiskStats {
    pub used_bytes: u64,
    pub total_bytes: u64,
    /// The share that is free, in whole percent.
    pub free_pct: u8,
    /// The share that is free, with one decimal.
    pub free_pct_text: String,
}

/// Prepares the state of the disk; question marks where nothing is known.
pub fn build_disk_view(stats: &Option<DiskStats>) -> (r: DiskView)
    ensures
        match stats {
            Some(d) => {
                &&& r.used_gb@ == gigabytes(d.used_bytes as nat)
                &&& r.total_gb@ == gigabytes(d.total_bytes as nat)
                &&& r.free_pct == d.free_pct
                &&& r.free_pct_display@ == d.free_pct_text@
            },
            None => {
                &&& r.used_gb@ == "?"@
                &&& r.total_gb@ == "?"@
                &&& r.free_pct == 100
                &&& r.free_pct_display@ == "?"@
            },
        },
{
    match stats {
        Some(d) => DiskView {
            used_gb: write_gigabytes(d.used_bytes),
            total_gb: write_gigabytes(d.total_bytes),
            free_pct: d.free_pct,
            free_pct_display: d.free_pct_text.clone(),
        },
        None => DiskView {
            used_gb: "?".to_owned(),
            total_gb: "?".to_owned(),
            free_pct: 100,
            free_pct_display: "?".to_owned(),
        },
    }
}

// ---------------------------------------------------------------------------
// The form of an upload
// ---------------------------------------------------------------------------

/// How a browser shows a file.
#[derive(Clone, Copy, Debug, PartialEq, Eq, Structural)]
pub enum Disposition {
    Inline,
    Attachment,
}

/// A part of the form, or the failure that ended it.
#[derive(Debug)]
pub enum UploadPart {
    File { name: Option<String>, content_type: Option<String>, body: Vec<u8> },
    /// The body of the file could not be read.
    FileFailed(String),
    Text { field: String, value: String },
    /// The text of a field could not be read.
    TextFailed { field: String, message: String },
    /// The form could not be read on.
    FormFailed(String),
}

/// A text field that an upload knows.
pub open spec fn known_text(field: Seq<char>) -> bool {
    field == "visibility"@ || field == "disposition"@ || field == "cache_control"@ || field
        == "meta"@
}

/// What an upload asks for.
#[derive(Debug)]
pub struct UploadFields {
    pub original_name: String,
    pub explicit_ct: Option<String>,
    pub body: Vec<u8>,
    pub visibility: Visibility,
    pub disposition: Disposition,
    pub cache_control_override: Option<String>,
    pub meta_json: Option<String>,
}

/// Why an upload is refused.
#[derive(Debug)]
pub enum UploadError {
    TooLarge(String),
    Bad(String),
}

/// Why an upload is refused, as mathematics has it.
pub enum UploadFault {
    TooLarge(Seq<char>),
    Bad(Seq<char>),
}

impl View for UploadError {
    type V = UploadFault;

    open spec fn view(&self) -> UploadFault {
        match self {
            UploadError::TooLarge(m) => UploadFault::TooLarge(m@),
            UploadError::Bad(m) => UploadFault::Bad(m@),
        }
    }
}

/// What was found in the form so far.
#[derive(Debug)]
pub struct Draft {
    pub file: Option<(Option<String>, Option<String>, Vec<u8>)>,
    pub visibility: Option<String>,
    pub disposition: Option<String>,
    pub cache_control: Option<String>,
    pub meta_json: Option<String>,
}

/// What was found in the form so far, as mathematics has it.
pub struct DraftView {
    pub file: Option<(Option<Seq<char>>, Option<Seq<char>>, Seq<u8>)>,
    pub visibility: Option<Seq<char>>,
    pub disposition: Option<Seq<char>>,
    pub cache_control: Option<Seq<char>>,
    pub meta_json: Option<Seq<char>>,
}

impl View for Draft {
    type V = DraftView;

    open spec fn view(&self) -> DraftView {
        DraftView {
            file: match self.file {
                Some(f) => Some((opt_view(f.0), opt_view(f.1), f.2@)),
                None => None,
            },
            visibility: opt_view(self.visibility),
            disposition: opt_view(self.disposition),
            cache_control: opt_view(self.cache_control),
            meta_json: opt_view(self.meta_json),
        }
    }
}

/// The draft before the first part.
pub open spec fn empty_draft() -> DraftView {
    DraftView {
        file: None,
        visibility: None,
        disposition: None,
        cache_control: None,
        meta_json: None,
    }
}

/// The failure of a stream: too large where its words say so.
pub open spec fn stream_fault(prefix: Seq<char>, message: Seq<char>) -> UploadFault {
    if has_part(lower(message), "large"@) {
        UploadFault::TooLarge(message)
    } else {
        UploadFault::Bad(prefix + message)
    }
}

/// What is wrong with the metadata of a file, which has to be an object.
pub open spec fn meta_fault(document: Result<JsonView, Seq<char>>) -> Option<Seq<char>> {
    match document {
        Err(e) => Some("meta is not valid JSON: "@ + e),
        Ok(JsonView::Object(_)) => None,
        Ok(_) => Some("meta must be a JSON object (got array or scalar)"@),
    }
}

/// The draft with a text field. A field that is not known is passed over.
pub open spec fn with_text(d: DraftView, field: Seq<char>, value: Seq<char>) -> Result<
    DraftView,
    UploadFault,
> {
    if field == "visibility"@ {
        Ok(DraftView { visibility: Some(value), ..d })
    } else if field == "disposition"@ {
        Ok(DraftView { disposition: Some(value), ..d })
    } else if field == "cache_control"@ {
        if value.len() == 0 {
            Ok(d)
        } else {
            Ok(DraftView { cache_control: Some(value), ..d })
        }
    } else if field == "meta"@ {
        if value.len() == 0 {
            Ok(d)
        } else {
            match meta_fault(json_document(value)) {
                Some(m) => Err(UploadFault::Bad(m)),
                None => Ok(DraftView { meta_json: Some(value), ..d }),
            }
        }
    } else {
        Ok(d)
    }
}

/// The draft with one part more.
pub open spec fn with_part(d: DraftView, p: UploadPart) -> Result<DraftView, UploadFault> {
    match p {
        UploadPart::File { name, content_type, body } => Ok(
            DraftView { file: Some((opt_view(name), opt_view(content_type), body@)), ..d },
        ),
        UploadPart::FileFailed(m) => Err(stream_fault("read body: "@, m@)),
        UploadPart::FormFailed(m) => Err(stream_fault("multipart: "@, m@)),
        UploadPart::TextFailed { field, message } => if known_text(field@) {
            Err(UploadFault::Bad(field@ + " field: "@ + message@))
        } else {
            Ok(d)
        },
        UploadPart::Text { field, value } => with_text(d, field@, value@),
    }
}

/// The draft of the first `k` parts, or the first thing that is wrong.
pub open spec fn draft_of(parts: Seq<UploadPart>, k: nat) -> Result<DraftView, UploadFault>
    decreases k,
{
    if k == 0 {
        Ok(empty_draft())
    } else {
        match draft_of(parts, (k - 1) as nat) {
            Err(e) => Err(e),
            Ok(d) => with_part(d, parts[k - 1]),
        }
    }
}

fn stream_error(prefix: &str, message: String) -> (r: UploadError)
    ensures
        r@ == stream_fault(prefix@, message@),
{
    let l: String = to_lower_text(message.as_str());
    stream_error_of(l.as_str(), prefix, message)
}

/// The failure of a stream, given its words in lower case.
pub fn stream_error_of(lowered: &str, prefix: &str, message: String) -> (r: UploadError)
    ensures
        r@ == (if has_part(lowered@, "large"@) {
            UploadFault::TooLarge(message@)
        } else {
            UploadFault::Bad(prefix@ + message@)
        }),
{
    if contains(lowered, "large") {
        UploadError::TooLarge(message)
    } else {
        UploadError::Bad(concat2(prefix, message.as_str()))
    }
}

/// Checks the metadata of a file, given what was read from it.
pub fn check_meta(document: &Result<Json, String>) -> (r: Option<String>)
    ensures
        opt_view(r) == meta_fault(
            match document {
                Ok(j) => Ok(j.model()),
                Err(e) => Err(e@),
            },
        ),
{
    match document {
        Err(e) => Some(concat2("meta is not valid JSON: ", e.as_str())),
        Ok(Json::Object(_)) => None,
        Ok(_) => Some("meta must be a JSON object (got array or scalar)".to_owned()),
    }
}

fn is_known_text(field: &str) -> (r: bool)
    ensures
        r == known_text(field@),
{
    str_eq(field, "visibility") || str_eq(field, "disposition") || str_eq(field, "cache_control")
        || str_eq(field, "meta")
}

fn add_text(d: Draft, field: &str, value: String) -> (r: Result<Draft, UploadError>)
    ensures
        (match r {
            Ok(n) => Ok(n@),
            Err(e) => Err(e@),
        }) == with_text(d@, field@, value@),
{
    let mut d: Draft = d;
    if str_eq(field, "visibility") {
        d.visibility = Some(value);
    } else if str_eq(field, "disposition") {
        d.disposition = Some(value);
    } else if str_eq(field, "cache_control") {
        if !value.as_str().is_empty() {
            d.cache_control = Some(value);
        }
    } else if str_eq(field, "meta") {
        if !value.as_str().is_empty() {
            let document: Result<Json, String> = read_json(value.as_str());
            if let Some(m) = check_meta(&document) {
                return Err(UploadError::Bad(m));
            }
            d.meta_json = Some(value);
        }
    }
    Ok(d)
}

fn add_part(d: Draft, p: UploadPart) -> (r: Result<Draft, UploadError>)
    ensures
        (match r {
            Ok(n) => Ok(n@),
            Err(e) => Err(e@),
        }) == with_part(d@, p),
{
    match p {
        UploadPart::File { name, content_type, body } => {
            let mut d: Draft = d;
            d.file = Some((name, content_type, body));
            Ok(d)
        },
        UploadPart::FileFailed(m) => Err(stream_error("read body: ", m)),
        UploadPart::FormFailed(m) => Err(stream_error("multipart: ", m)),
        UploadPart::TextFailed { field, message } => if is_known_text(field.as_str()) {
            Err(UploadError::Bad(concat3(field.as_str(), " field: ", message.as_str())))
        } else {
            Ok(d)
        },
        UploadPart::Text { field, value } => add_text(d, field.as_str(), value),
    }
}

/// The visibility that a form names; public where it names none.
pub open spec fn visibility_named(v: Option<Seq<char>>) -> Option<Visibility> {
    match v {
        None => Some(Visibility::Public),
        Some(s) => if s == "public"@ {
            Some(Visibility::Public)
        } else if s == "private"@ {
            Some(Visibility::Private)
        } else {
            None
        },
    }
}

/// The disposition that a form names; inline where it names none.
pub open spec fn disposition_named(v: Option<Seq<char>>) -> Option<Disposition> {
    match v {
        None => Some(Disposition::Inline),
        Some(s) => if s == "inline"@ {
            Some(Disposition::Inline)
        } else if s == "attachment"@ {
            Some(Disposition::Attachment)
        } else {
            None
        },
    }
}

/// The upload that a draft makes.
pub open spec fn finished(r: Result<UploadFields, UploadError>, d: DraftView) -> bool {
    match d.file {
        None => r is Err && r->Err_0@ == UploadFault::Bad("missing file field"@),
        Some(f) => if visibility_named(d.visibility) is None {
            r is Err && r->Err_0@ == UploadFault::Bad(
                "invalid visibility: "@ + quoted(d.visibility->0) + "; must be public or private"@,
            )
        } else if disposition_named(d.disposition) is None {
            r is Err && r->Err_0@ == UploadFault::Bad(
                "invalid disposition: "@ + quoted(d.disposition->0)
                    + "; must be inline or attachment"@,
            )
        } else {
            &&& r matches Ok(u)
            &&& u.original_name@ == (match f.0 {
                Some(n) => n,
                None => "unnamed"@,
            })
            &&& opt_view(u.explicit_ct) == f.1
            &&& u.body@ == f.2
            &&& Some(u.visibility) == visibility_named(d.visibility)
            &&& Some(u.disposition) == disposition_named(d.disposition)
            &&& opt_view(u.cache_control_override) == d.cache_control
            &&& opt_view(u.meta_json) == d.meta_json
        },
    }
}

fn finish(d: Draft) -> (r: Result<UploadFields, UploadError>)
    ensures
        finished(r, d@),
{
    let (name, explicit_ct, body): (Option<String>, Option<String>, Vec<u8>) = match d.file {
        Some(f) => f,
        None => {
            return Err(UploadError::Bad("missing file field".to_owned()));
        },
    };
    let original_name: String = match name {
        Some(n) => n,
        None => "unnamed".to_owned(),
    };
    let visibility: Visibility = match &d.visibility {
        None => Visibility::Public,
        Some(s) => if str_eq(s.as_str(), "public") {
            Visibility::Public
        } else if str_eq(s.as_str(), "private") {
            Visibility::Private
        } else {
            let q: String = write_quoted(s.as_str());
            return Err(
                UploadError::Bad(
                    concat3("invalid visibility: ", q.as_str(), "; must be public or private"),
                ),
            );
        },
    };
    let disposition: Disposition = match &d.disposition {
        None => Disposition::Inline,
        Some(s) => if str_eq(s.as_str(), "inline") {
            Disposition::Inline
        } else if str_eq(s.as_str(), "attachment") {
            Disposition::Attachment
        } else {
            let q: String = write_quoted(s.as_str());
            return Err(
                UploadError::Bad(
                    concat3("invalid disposition: ", q.as_str(), "; must be inline or attachment"),
                ),
            );
        },
    };
    Ok(
        UploadFields {
            original_name,
            explicit_ct,
            body,
            visibility,
            disposition,
            cache_control_override: d.cache_control,
            meta_json: d.meta_json,
        },
    )
}

proof fn lemma_draft_fault(parts: Seq<UploadPart>, j: nat, k: nat)
    requires
        j <= k <= parts.len(),
        draft_of(parts, j) is Err,
    ensures
        draft_of(parts, k) == draft_of(parts, j),
    decreases k,
{
    if j < k {
        lemma_draft_fault(parts, j, (k - 1) as nat);
    }
}

/// The value of the last text field of that name among the first `k` parts, a
/// blank one passed over where `filled` says so.
pub open spec fn last_text(parts: Seq<UploadPart>, field: Seq<char>, filled: bool, k: nat) -> Option<
    Seq<char>,
>
    decreases k,
{
    if k == 0 {
        None
    } else {
        match parts[k - 1] {
            UploadPart::Text { field: f, value } => if f@ == field && (!filled || value@.len() > 0) {
                Some(value@)
            } else {
                last_text(parts, field, filled, (k - 1) as nat)
            },
            _ => last_text(parts, field, filled, (k - 1) as nat),
        }
    }
}

/// The position of the last file among the first `k` parts.
pub open spec fn last_file(parts: Seq<UploadPart>, k: nat) -> Option<int>
    decreases k,
{
    if k == 0 {
        None
    } else if parts[k - 1] is File {
        Some(k - 1)
    } else {
        last_file(parts, (k - 1) as nat)
    }
}

/// The fields hold what the form says: the last file with its own name, type and
/// bytes, and the last word for each of the other fields.
pub open spec fn says_as_the_form(f: UploadFields, parts: Seq<UploadPart>) -> bool {
    let n = parts.len();
    let v = last_text(parts, "visibility"@, false, n);
    let d = last_text(parts, "disposition"@, false, n);
    &&& last_file(parts, n) is Some
    &&& parts[last_file(parts, n)->0] matches UploadPart::File { name, content_type, body }
    &&& f.body@ == body@
    &&& name matches Some(w) ==> f.original_name@ == w@
    &&& opt_view(f.explicit_ct) == opt_view(content_type)
    &&& (f.visibility == Visibility::Public <==> v is None || v == Some("public"@))
    &&& (f.visibility == Visibility::Private <==> v == Some("private"@))
    &&& (f.disposition == Disposition::Inline <==> d is None || d == Some("inline"@))
    &&& (f.disposition == Disposition::Attachment <==> d == Some("attachment"@))
    &&& opt_view(f.cache_control_override) == last_text(parts, "cache_control"@, true, n)
    &&& opt_view(f.meta_json) == last_text(parts, "meta"@, true, n)
}

proof fn lemma_field_names()
    ensures
        "visibility"@ != "disposition"@,
        "visibility"@ != "cache_control"@,
        "visibility"@ != "meta"@,
        "disposition"@ != "cache_control"@,
        "disposition"@ != "meta"@,
        "cache_control"@ != "meta"@,
        "public"@ != "private"@,
        "inline"@ != "attachment"@,
{
    reveal_strlit("visibility");
    reveal_strlit("disposition");
    reveal_strlit("cache_control");
    reveal_strlit("meta");
    reveal_strlit("public");
    reveal_strlit("private");
    reveal_strlit("inline");
    reveal_strlit("attachment");
    assert("visibility"@[0] == 'v' && "disposition"@[0] == 'd');
    assert("cache_control"@[0] == 'c' && "meta"@[0] == 'm');
    assert("public"@[1] == 'u' && "private"@[1] == 'r');
    assert("inline"@[0] == 'i' && "attachment"@[0] == 'a');
}

proof fn lemma_draft_is_the_last_word(parts: Seq<UploadPart>, k: nat)
    requires
        k <= parts.len(),
        draft_of(parts, k) is Ok,
    ensures
        ({
            let d = draft_of(parts, k)->Ok_0;
            &&& d.visibility == last_text(parts, "visibility"@, false, k)
            &&& d.disposition == last_text(parts, "disposition"@, false, k)
            &&& d.cache_control == last_text(parts, "cache_control"@, true, k)
            &&& d.meta_json == last_text(parts, "meta"@, true, k)
            &&& (d.file is Some <==> last_file(parts, k) is Some)
            &&& last_file(parts, k) matches Some(i) ==> 0 <= i < k && (
            parts[i] matches UploadPart::File { name, content_type, body } && d.file == Some(
                (opt_view(name), opt_view(content_type), body@),
            ))
        }),
    decreases k,
{
    lemma_field_names();
    if k > 0 {
        lemma_draft_is_the_last_word(parts, (k - 1) as nat);
    }
}

/// What is stored of an upload is what its form said: the disposition and the
/// visibility by the words that the form named, the bytes, the name and the size of
/// its file, and its own caching and metadata. A form that names no disposition is
/// stored as inline, and one that names no visibility as public.
pub proof fn law_upload_is_stored_as_the_form_says(
    parts: Seq<UploadPart>,
    f: UploadFields,
    u: FileUpload,
    key: Seq<char>,
    default_cache: Seq<char>,
)
    requires
        draft_of(parts, parts.len()) is Ok,
        finished(Ok(f), draft_of(parts, parts.len())->Ok_0),
        prepared(u, f, key, default_cache),
    ensures
        says_as_the_form(f, parts),
        u.disposition@ == (match last_text(parts, "disposition"@, false, parts.len()) {
            Some(w) => w,
            None => "inline"@,
        }),
        (u.visibility is Private <==> last_text(parts, "visibility"@, false, parts.len()) == Some(
            "private"@,
        )),
        parts[last_file(parts, parts.len())->0] matches UploadPart::File { name, content_type, body }
            && u.body@ == body@ && u.size == body@.len() && (name matches Some(w)
            ==> u.original_name@ == w@) && (opt_view(content_type) is Some && opt_view(content_type)
            != Some("application/octet-stream"@) ==> opt_view(u.content_type) == opt_view(
            content_type,
        )),
        u.cache_control@ == (match last_text(parts, "cache_control"@, true, parts.len()) {
            Some(w) => w,
            None => default_cache,
        }),
        opt_view(u.meta_json) == last_text(parts, "meta"@, true, parts.len()),
{
    lemma_field_names();
    lemma_draft_is_the_last_word(parts, parts.len());
}

/// Reads the form of an upload. The first part that is wrong decides; of two
/// parts of one name the last counts.
pub fn parse_upload_fields(parts: Vec<UploadPart>) -> (r: Result<UploadFields, UploadError>)
    ensures
        match draft_of(parts@, parts@.len()) {
            Err(f) => r is Err && r->Err_0@ == f,
            Ok(d) => finished(r, d),
        },
        r matches Ok(f) ==> says_as_the_form(f, parts@),
{
    let ghost all = parts@;
    let mut rest: Vec<UploadPart> = parts;
    let mut d: Draft = Draft {
        file: None,
        visibility: None,
        disposition: None,
        cache_control: None,
        meta_json: None,
    };
    let mut i: usize = 0;
    let n: usize = rest.len();
    assert(all.skip(0) =~= all);
    while i < n
        invariant
            i <= n,
            n == all.len(),
            all == parts@,
            rest@ == all.skip(i as int),
            draft_of(all, i as nat) == Ok::<DraftView, UploadFault>(d@),
        decreases n - i,
    {
        assert(rest@[0] == all[i as int]);
        let p: UploadPart = rest.remove(0);
        assert(rest@ =~= all.skip(i as int + 1));
        match add_part(d, p) {
            Ok(next) => {
                d = next;
            },
            Err(e) => {
                proof {
                    lemma_draft_fault(all, (i + 1) as nat, all.len());
                }
                return Err(e);
            },
        }
        i = i + 1;
    }
    proof {
        lemma_field_names();
        lemma_draft_is_the_last_word(all, all.len());
    }
    finish(d)
}

// ---------------------------------------------------------------------------
// Carrying out an upload
// ---------------------------------------------------------------------------

/// Checks an upload before its body is read: the storage, the disk as far as
/// it is known, and the length that the request announces.
pub fn check_upload(
    storage_ready: bool,
    disk: &Option<DiskStats>,
    disk_min_free_pct: u8,
    content_length: Option<&str>,
    max_upload_bytes: usize,
) -> (r: Result<(), PlainRefusal>)
    ensures
        ({
            let announced = match content_length {
                Some(s) => unsigned_of(s@, u64::MAX as nat),
                None => None,
            };
            if !storage_ready {
                r is Err && plain(r->Err_0, 503, "storage not configured"@)
            } else if disk matches Some(d) && d.free_pct < disk_min_free_pct {
                r is Err && plain(
                    r->Err_0,
                    507,
                    "disk too full: "@ + (disk->0).free_pct_text@ + "% free, minimum "@ + dec(
                        disk_min_free_pct as nat,
                    ) + "% required"@,
                )
            } else if announced matches Some(n) && n > max_upload_bytes {
                r is Err && plain(
                    r->Err_0,
                    413,
                    "upload exceeds "@ + dec((max_upload_bytes / 1048576) as nat) + " MB limit ("@
                        + dec(announced->0) + " bytes provided)"@,
                )
            } else {
                r is Ok
            }
        }),
{
    if !storage_ready {
        return Err(words(503, "storage not configured"));
    }
    if let Some(d) = disk {
        if d.free_pct < disk_min_free_pct {
            let mut s: String = "disk too full: ".to_owned();
            s.append(d.free_pct_text.as_str());
            s.append("% free, minimum ");
            s.append(dec_of(disk_min_free_pct as u64).as_str());
            s.append("% required");
            return Err(PlainRefusal { status: 507, message: s });
        }
    }
    if let Some(text) = content_length {
        if let Some(n) = parse_unsigned(text, u64::MAX) {
            if n > max_upload_bytes as u64 {
                let mut s: String = "upload exceeds ".to_owned();
                s.append(dec_of((max_upload_bytes / 1048576) as u64).as_str());
                s.append(" MB limit (");
                s.append(dec_of(n).as_str());
                s.append(" bytes provided)");
                return Err(PlainRefusal { status: 413, message: s });
            }
        }
    }
    Ok(())
}

/// Answers an upload whose form is refused.
pub fn upload_refused(e: UploadError) -> (r: PlainRefusal)
    ensures
        match e@ {
            UploadFault::TooLarge(m) => plain(r, 413, m),
            UploadFault::Bad(m) => plain(r, 400, m),
        },
{
    match e {
        UploadError::TooLarge(m) => PlainRefusal { status: 413, message: m },
        UploadError::Bad(m) => PlainRefusal { status: 400, message: m },
    }
}

/// The last segment of a path that is neither empty nor a single dot, among
/// the first `k` segments.
pub open spec fn last_segment(segments: Seq<Seq<char>>, k: nat) -> Option<Seq<char>>
    decreases k,
{
    if k == 0 {
        None
    } else if segments[k - 1].len() == 0 || segments[k - 1] == seq!['.'] {
        last_segment(segments, (k - 1) as nat)
    } else {
        Some(segments[k - 1])
    }
}

/// The position of the last dot, -1 where there is none.
pub open spec fn last_dot(s: Seq<char>) -> int
    decreases s.len(),
{
    if s.len() == 0 {
        -1
    } else if s.last() == '.' {
        s.len() - 1
    } else {
        last_dot(s.drop_last())
    }
}

/// The extension of the file that a path names: what stands behind the last
/// dot of its last segment, unless that dot is the first character. `..`
/// names no file.
pub open spec fn extension_of(path: Seq<char>) -> Option<Seq<char>> {
    let segments = split_on(path, '/');
    match last_segment(segments, segments.len()) {
        None => None,
        Some(name) => if name == seq!['.', '.'] || last_dot(name) < 1 {
            None
        } else {
            Some(name.skip(last_dot(name) + 1))
        },
    }
}

/// Finds the extension of the file that a path names.
pub fn extension(path: &str) -> (r: Option<String>)
    ensures
        opt_view(r) == extension_of(path@),
{
    let segments: Vec<String> = split(path, '/');
    let ghost all = views(segments@);
    let mut n: usize = segments.len();
    while n > 0
        invariant
            n <= segments@.len(),
            all == views(segments@),
            all == split_on(path@, '/'),
            last_segment(all, all.len()) == last_segment(all, n as nat),
        decreases n,
    {
        let name: Vec<char> = to_chars(segments[n - 1].as_str());
        assert(all[n - 1] == name@);
        if name.len() == 0 || (name.len() == 1 && name[0] == '.') {
            assert(name@.len() == 1 ==> name@ =~= seq!['.']);
            n = n - 1;
            continue ;
        }
        assert(name@ != seq!['.']) by {
            assert(seq!['.'].len() == 1 && seq!['.'][0] == '.');
        }
        if name.len() == 2 && name[0] == '.' && name[1] == '.' {
            assert(name@ =~= seq!['.', '.']);
            return None;
        }
        assert(name@ != seq!['.', '.']) by {
            assert(seq!['.', '.'].len() == 2);
            assert(seq!['.', '.'][0] == '.' && seq!['.', '.'][1] == '.');
        }
        let mut k: usize = name.len();
        assert(name@.take(k as int) =~= name@);
        while k > 0 && name[k - 1] != '.'
            invariant
                k <= name@.len(),
                last_dot(name@) == last_dot(name@.take(k as int)),
            decreases k,
        {
            assert(name@.take(k as int).drop_last() =~= name@.take(k - 1));
            assert(name@.take(k as int).last() == name@[k - 1]);
            k = k - 1;
        }
        if k > 0 {
            assert(name@.take(k as int).last() == name@[k - 1]);
        }
        assert(last_dot(name@) == k - 1);
        if k < 2 {
            return None;
        }
        let e: String = from_range(&name, k, name.len());
        assert(e@ =~= name@.skip(last_dot(name@) + 1));
        return Some(e);
    }
    None
}

/// The type of content that is usual for an extension, if one is known.
pub uninterp spec fn usual_type(ext: Seq<char>) -> Option<Seq<char>>;

/// `mime_guess::from_ext` looks an extension up in a fixed table, and
/// `first_raw` gives the first type found; both depend on the extension alone.
#[verifier::external_body]
fn guess_type(ext: &str) -> (r: Option<String>)
    ensures
        opt_view(r) == usual_type(ext@),
{
    match mime_guess::from_ext(ext).first_raw() {
        Some(t) => Some(t.to_string()),
        None => None,
    }
}

/// The type of content of a file: the one that came with it, unless that says
/// nothing, and else the usual one.
pub open spec fn type_chosen(explicit: Option<Seq<char>>, usual: Option<Seq<char>>) -> Option<
    Seq<char>,
> {
    match explicit {
        Some(t) => if t == "application/octet-stream"@ {
            usual
        } else {
            Some(t)
        },
        None => usual,
    }
}

/// The type of content that is usual for a file.
pub open spec fn usual_type_of(name: Seq<char>) -> Option<Seq<char>> {
    match extension_of(name) {
        Some(e) => usual_type(e),
        None => None,
    }
}

/// Chooses the type of content, given the usual one.
pub fn choose_type(explicit: &Option<String>, usual: Option<String>) -> (r: Option<String>)
    ensures
        opt_view(r) == type_chosen(opt_view(*explicit), opt_view(usual)),
{
    match explicit {
        Some(t) => if str_eq(t.as_str(), "application/octet-stream") {
            usual
        } else {
            Some(t.clone())
        },
        None => usual,
    }
}

/// Decides the type of content of a file.
pub fn content_type_for(explicit: &Option<String>, name: &str) -> (r: Option<String>)
    ensures
        opt_view(r) == type_chosen(opt_view(*explicit), usual_type_of(name@)),
{
    let usual: Option<String> = match extension(name) {
        Some(e) => guess_type(e.as_str()),
        None => None,
    };
    choose_type(explicit, usual)
}

/// `uuid::Uuid::new_v4` makes a random identifier, which is written with
/// hyphens in the usual places.
#[verifier::external_body]
fn random_id() -> (r: String)
    ensures
        uuid_like(r@),
{
    uuid::Uuid::new_v4().to_string()
}

/// The key of a file: a random identifier with the extension of its name.
pub open spec fn key_of(id: Seq<char>, name: Seq<char>) -> Seq<char> {
    id + "."@ + (match extension_of(name) {
        Some(e) => e,
        None => "bin"@,
    })
}

/// The row and the object that an upload makes.
#[derive(Debug)]
pub struct FileUpload {
    pub key: String,
    pub original_name: String,
    pub content_type: Option<String>,
    pub size: usize,
    pub disposition: &'static str,
    pub visibility: Visibility,
    pub cache_control: String,
    pub meta_json: Option<String>,
    pub body: Vec<u8>,
}

/// The word for a disposition.
pub open spec fn disposition_word(d: Disposition) -> Seq<char> {
    match d {
        Disposition::Inline => "inline"@,
        Disposition::Attachment => "attachment"@,
    }
}

/// The upload is that of the fields, under the given key.
pub open spec fn prepared(u: FileUpload, f: UploadFields, key: Seq<char>, default_cache: Seq<char>) -> bool {
    &&& u.key@ == key
    &&& u.original_name@ == f.original_name@
    &&& opt_view(u.content_type) == type_chosen(
        opt_view(f.explicit_ct),
        usual_type_of(f.original_name@),
    )
    &&& u.size == f.body@.len()
    &&& u.disposition@ == disposition_word(f.disposition)
    &&& u.visibility == f.visibility
    &&& u.cache_control@ == view_or(f.cache_control_override, default_cache)
    &&& opt_view(u.meta_json) == opt_view(f.meta_json)
    &&& u.body@ == f.body@
}

/// Prepares an upload under a key that is made of the given identifier.
pub fn prepare_upload_as(f: UploadFields, id: &str, default_cache: &str) -> (r: FileUpload)
    ensures
        prepared(r, f, key_of(id@, f.original_name@), default_cache@),
        f.disposition is Inline ==> r.disposition@ == "inline"@,
        f.disposition is Attachment ==> r.disposition@ == "attachment"@,
        r.body@ == f.body@ && r.size == r.body@.len(),
{
    let content_type: Option<String> = content_type_for(&f.explicit_ct, f.original_name.as_str());
    let ext: String = match extension(f.original_name.as_str()) {
        Some(e) => e,
        None => "bin".to_owned(),
    };
    let key: String = concat3(id, ".", ext.as_str());
    let disposition: &'static str = match f.disposition {
        Disposition::Inline => "inline",
        Disposition::Attachment => "attachment",
    };
    let cache_control: String = copy_or(&f.cache_control_override, default_cache);
    FileUpload {
        key,
        original_name: f.original_name,
        content_type,
        size: f.body.len(),
        disposition,
        visibility: f.visibility,
        cache_control,
        meta_json: f.meta_json,
        body: f.body,
    }
}

/// Prepares an upload under a random key. `default_cache` is the caching that
/// is usual for such a file.
pub fn prepare_upload(f: UploadFields, default_cache: &str) -> (r: FileUpload)
    ensures
        exists|id: Seq<char>|
            uuid_like(id) && prepared(r, f, #[trigger] key_of(id, f.original_name@), default_cache@),
{
    let id: String = random_id();
    prepare_upload_as(f, id.as_str(), default_cache)
}

/// What follows the storing of a file.
#[derive(Debug)]
pub enum AfterPut {
    Done,
    /// The row that was written before has to go again.
    RemoveRow,
}

/// Answers an upload. The row is written first; where the storage then
/// refuses the file, the row is removed.
pub fn after_put(put: Result<(), String>) -> (r: (AfterPut, Result<&'static str, PlainRefusal>))
    ensures
        match put {
            Ok(_) => r.0 is Done && r.1 is Ok && r.1->Ok_0@ == "/drust/admin/files"@,
            Err(e) => r.0 is RemoveRow && r.1 is Err && plain(
                r.1->Err_0,
                502,
                "garage put: "@ + e@,
            ),
        },
{
    match put {
        Ok(_) => (AfterPut::Done, Ok("/drust/admin/files")),
        Err(e) => (
            AfterPut::RemoveRow,
            Err(PlainRefusal { status: 502, message: concat2("garage put: ", e.as_str()) }),
        ),
    }
}

/// The keys in the table after an upload under a new key, by what follows the
/// storing.
pub open spec fn rows_after_upload(rows: Set<Seq<char>>, key: Seq<char>, after: AfterPut) -> Set<
    Seq<char>,
> {
    match after {
        AfterPut::Done => rows.insert(key),
        AfterPut::RemoveRow => rows.insert(key).remove(key),
    }
}

/// An upload that the storage refused leaves no row behind.
pub proof fn law_failed_upload_leaves_no_row(rows: Set<Seq<char>>, key: Seq<char>)
    requires
        !rows.contains(key),
    ensures
        rows_after_upload(rows, key, AfterPut::RemoveRow) == rows,
        rows_after_upload(rows, key, AfterPut::Done).contains(key),
{
    assert(rows.insert(key).remove(key) =~= rows);
}

/// Answers a row that could not be written.
pub fn insert_failed(message: &str) -> (r: PlainRefusal)
    ensures
        plain(r, 500, "db insert: "@ + message@),
{
    PlainRefusal { status: 500, message: concat2("db insert: ", message) }
}

/// Answers a list that could not be loaded.
pub fn load_failed(message: &str) -> (r: PlainRefusal)
    ensures
        plain(r, 500, "load: "@ + message@),
{
    PlainRefusal { status: 500, message: concat2("load: ", message) }
}

/// What is to be deleted.
#[derive(Debug)]
pub enum DeletePlan {
    /// The file is gone already.
    Nothing,
    /// The object, and then the row.
    Object(String),
}

/// Plans a deletion.
pub fn plan_delete(storage_ready: bool, key: Option<String>) -> (r: Result<DeletePlan, PlainRefusal>)
    ensures
        if !storage_ready {
            r is Err && plain(r->Err_0, 503, "storage not configured"@)
        } else {
            match key {
                None => r is Ok && r->Ok_0 is Nothing,
                Some(k) => r == Ok::<DeletePlan, PlainRefusal>(DeletePlan::Object(k)),
            }
        },
{
    if !storage_ready {
        return Err(words(503, "storage not configured"));
    }
    match key {
        None => Ok(DeletePlan::Nothing),
        Some(k) => Ok(DeletePlan::Object(k)),
    }
}

/// Answers a deletion: the object goes first, and the row only where that
/// succeeded.
pub fn delete_reply(object: Result<(), String>, row: Result<(), String>) -> (r: Result<
    &'static str,
    PlainRefusal,
>)
    ensures
        match (object, row) {
            (Err(e), _) => r is Err && plain(r->Err_0, 500, "garage delete: "@ + e@),
            (Ok(_), Err(e)) => r is Err && plain(r->Err_0, 500, "db delete: "@ + e@),
            (Ok(_), Ok(_)) => r is Ok && r->Ok_0@ == "/drust/admin/files"@,
        },
{
    if let Err(e) = object {
        return Err(PlainRefusal { status: 500, message: concat2("garage delete: ", e.as_str()) });
    }
    if let Err(e) = row {
        return Err(PlainRefusal { status: 500, message: concat2("db delete: ", e.as_str()) });
    }
    Ok("/drust/admin/files")
}

// ---------------------------------------------------------------------------
// Comparing the table with the storage
// ---------------------------------------------------------------------------

/// An object in the storage.
#[derive(Debug)]
pub struct StoredObject {
    pub key: String,
    pub size: u64,
}

/// A row of the table.
#[derive(Debug)]
pub struct KeyRow {
    pub id: i64,
    pub key: String,
    pub original_name: String,
}

/// An object without a row, with its size for a reader.
#[derive(Debug)]
pub struct Orphan {
    pub key: String,
    pub size_human: String,
}

/// What does not match.
#[derive(Debug)]
pub struct Reconciliation {
    pub orphan_objects: Vec<Orphan>,
    pub dangling_rows: Vec<KeyRow>,
}

/// The keys of objects.
pub open spec fn object_keys(objects: Seq<StoredObject>) -> Set<Seq<char>> {
    objects.map_values(|o: StoredObject| o.key@).to_set()
}

/// The keys of rows.
pub open spec fn row_keys(rows: Seq<KeyRow>) -> Set<Seq<char>> {
    rows.map_values(|r: KeyRow| r.key@).to_set()
}

/// The positions of the first `k` objects that have no row.
pub open spec fn orphans_of(objects: Seq<StoredObject>, rows: Set<Seq<char>>, k: nat) -> Seq<int>
    decreases k,
{
    if k == 0 {
        Seq::<int>::empty()
    } else {
        let before = orphans_of(objects, rows, (k - 1) as nat);
        if rows.contains(objects[k - 1].key@) {
            before
        } else {
            before.push(k - 1)
        }
    }
}

/// The positions of the first `k` rows that have no object.
pub open spec fn dangling_of(rows: Seq<KeyRow>, objects: Set<Seq<char>>, k: nat) -> Seq<int>
    decreases k,
{
    if k == 0 {
        Seq::<int>::empty()
    } else {
        let before = dangling_of(rows, objects, (k - 1) as nat);
        if objects.contains(rows[k - 1].key@) {
            before
        } else {
            before.push(k - 1)
        }
    }
}

fn has_row(rows: &Vec<KeyRow>, key: &str) -> (r: bool)
    ensures
        r == row_keys(rows@).contains(key@),
{
    let ghost keys = rows@.map_values(|r: KeyRow| r.key@);
    let mut i: usize = 0;
    while i < rows.len()
        invariant
            i <= rows@.len(),
            keys == rows@.map_values(|r: KeyRow| r.key@),
            forall|k: int| 0 <= k < i ==> #[trigger] keys[k] != key@,
        decreases rows@.len() - i,
    {
        if str_eq(rows[i].key.as_str(), key) {
            assert(keys[i as int] == key@);
            return true;
        }
        assert(keys[i as int] == rows@[i as int].key@);
        i = i + 1;
    }
    false
}

fn has_object(objects: &Vec<StoredObject>, key: &str) -> (r: bool)
    ensures
        r == object_keys(objects@).contains(key@),
{
    let ghost keys = objects@.map_values(|o: StoredObject| o.key@);
    let mut i: usize = 0;
    while i < objects.len()
        invariant
            i <= objects@.len(),
            keys == objects@.map_values(|o: StoredObject| o.key@),
            forall|k: int| 0 <= k < i ==> #[trigger] keys[k] != key@,
        decreases objects@.len() - i,
    {
        if str_eq(objects[i].key.as_str(), key) {
            assert(keys[i as int] == key@);
            return true;
        }
        assert(keys[i as int] == objects@[i as int].key@);
        i = i + 1;
    }
    false
}

/// Finds the objects without a row and the rows without an object.
pub fn reconcile(objects: &Vec<StoredObject>, rows: &Vec<KeyRow>) -> (r: Reconciliation)
    ensures
        ({
            let o = orphans_of(objects@, row_keys(rows@), objects@.len());
            &&& r.orphan_objects@.len() == o.len()
            &&& forall|i: int|
                0 <= i < o.len() ==> (#[trigger] r.orphan_objects@[i]).key@ == objects@[o[i]].key@
                    && r.orphan_objects@[i].size_human@ == humanized(objects@[o[i]].size as nat)
        }),
        ({
            let d = dangling_of(rows@, object_keys(objects@), rows@.len());
            &&& r.dangling_rows@.len() == d.len()
            &&& forall|i: int|
                0 <= i < d.len() ==> (#[trigger] r.dangling_rows@[i]).id == rows@[d[i]].id
                    && r.dangling_rows@[i].key@ == rows@[d[i]].key@
                    && r.dangling_rows@[i].original_name@ == rows@[d[i]].original_name@
        }),
{
    let ghost rk = row_keys(rows@);
    let ghost ok = object_keys(objects@);
    let mut orphan_objects: Vec<Orphan> = Vec::new();
    let mut i: usize = 0;
    while i < objects.len()
        invariant
            i <= objects@.len(),
            rk == row_keys(rows@),
            orphan_objects@.len() == orphans_of(objects@, rk, i as nat).len(),
            forall|k: int|
                0 <= k < orphan_objects@.len() ==> (#[trigger] orphan_objects@[k]).key@
                    == objects@[orphans_of(objects@, rk, i as nat)[k]].key@
                    && orphan_objects@[k].size_human@ == humanized(
                    objects@[orphans_of(objects@, rk, i as nat)[k]].size as nat,
                ),
        decreases objects@.len() - i,
    {
        if !has_row(rows, objects[i].key.as_str()) {
            orphan_objects.push(
                Orphan {
                    key: objects[i].key.clone(),
                    size_human: humanize_bytes(objects[i].size),
                },
            );
        }
        i = i + 1;
    }
    let mut dangling_rows: Vec<KeyRow> = Vec::new();
    let mut j: usize = 0;
    while j < rows.len()
        invariant
            j <= rows@.len(),
            ok == object_keys(objects@),
            dangling_rows@.len() == dangling_of(rows@, ok, j as nat).len(),
            forall|k: int|
                0 <= k < dangling_rows@.len() ==> (#[trigger] dangling_rows@[k]).id
                    == rows@[dangling_of(rows@, ok, j as nat)[k]].id && dangling_rows@[k].key@
                    == rows@[dangling_of(rows@, ok, j as nat)[k]].key@
                    && dangling_rows@[k].original_name@ == rows@[dangling_of(
                    rows@,
                    ok,
                    j as nat,
                )[k]].original_name@,
        decreases rows@.len() - j,
    {
        if !has_object(objects, rows[j].key.as_str()) {
            dangling_rows.push(
                KeyRow {
                    id: rows[j].id,
                    key: rows[j].key.clone(),
                    original_name: rows[j].original_name.clone(),
                },
            );
        }
        j = j + 1;
    }
    Reconciliation { orphan_objects, dangling_rows }
}

/// The keys at some positions.
pub open spec fn orphan_keys(objects: Seq<StoredObject>, at: Seq<int>) -> Set<Seq<char>> {
    at.map_values(|i: int| objects[i].key@).to_set()
}

/// The keys at some positions.
pub open spec fn dangling_keys(rows: Seq<KeyRow>, at: Seq<int>) -> Set<Seq<char>> {
    at.map_values(|i: int| rows[i].key@).to_set()
}

proof fn lemma_orphans(objects: Seq<StoredObject>, rows: Set<Seq<char>>, k: nat, key: Seq<char>)
    requires
        k <= objects.len(),
    ensures
        orphan_keys(objects, orphans_of(objects, rows, k)).contains(key) <==> (!rows.contains(key)
            && exists|i: int| 0 <= i < k && (#[trigger] objects[i]).key@ == key),
    decreases k,
{
    let at = orphans_of(objects, rows, k);
    let keys = at.map_values(|i: int| objects[i].key@);
    if k == 0 {
        assert(keys =~= Seq::<Seq<char>>::empty());
    } else {
        lemma_orphans(objects, rows, (k - 1) as nat, key);
        let before = orphans_of(objects, rows, (k - 1) as nat);
        let kb = before.map_values(|i: int| objects[i].key@);
        if rows.contains(objects[k - 1].key@) {
            assert(at == before);
        } else {
            assert(keys =~= kb.push(objects[k - 1].key@));
            if keys.contains(key) {
                let n = choose|n: int| 0 <= n < keys.len() && keys[n] == key;
                if n < kb.len() {
                    assert(kb[n] == key);
                } else {
                    assert(objects[k - 1].key@ == key);
                }
            }
            if kb.contains(key) {
                let n = choose|n: int| 0 <= n < kb.len() && kb[n] == key;
                assert(keys[n] == key);
            }
            if objects[k - 1].key@ == key {
                assert(keys[kb.len() as int] == key);
            }
        }
    }
}

proof fn lemma_dangling(rows: Seq<KeyRow>, objects: Set<Seq<char>>, k: nat, key: Seq<char>)
    requires
        k <= rows.len(),
    ensures
        dangling_keys(rows, dangling_of(rows, objects, k)).contains(key) <==> (!objects.contains(
            key,
        ) && exists|i: int| 0 <= i < k && (#[trigger] rows[i]).key@ == key),
    decreases k,
{
    let at = dangling_of(rows, objects, k);
    let keys = at.map_values(|i: int| rows[i].key@);
    if k == 0 {
        assert(keys =~= Seq::<Seq<char>>::empty());
    } else {
        lemma_dangling(rows, objects, (k - 1) as nat, key);
        let before = dangling_of(rows, objects, (k - 1) as nat);
        let kb = before.map_values(|i: int| rows[i].key@);
        if objects.contains(rows[k - 1].key@) {
            assert(at == before);
        } else {
            assert(keys =~= kb.push(rows[k - 1].key@));
            if keys.contains(key) {
                let n = choose|n: int| 0 <= n < keys.len() && keys[n] == key;
                if n < kb.len() {
                    assert(kb[n] == key);
                } else {
                    assert(rows[k - 1].key@ == key);
                }
            }
            if kb.contains(key) {
                let n = choose|n: int| 0 <= n < kb.len() && kb[n] == key;
                assert(keys[n] == key);
            }
            if rows[k - 1].key@ == key {
                assert(keys[kb.len() as int] == key);
            }
        }
    }
}

/// Once everything that was found is deleted, the table and the storage hold
/// the same keys.
pub proof fn law_reconciled(objects: Seq<StoredObject>, rows: Seq<KeyRow>)
    ensures
        object_keys(objects).difference(
            orphan_keys(objects, orphans_of(objects, row_keys(rows), objects.len())),
        ) == row_keys(rows).difference(
            dangling_keys(rows, dangling_of(rows, object_keys(objects), rows.len())),
        ),
{
    let ok = object_keys(objects);
    let rk = row_keys(rows);
    let left = ok.difference(orphan_keys(objects, orphans_of(objects, rk, objects.len())));
    let right = rk.difference(dangling_keys(rows, dangling_of(rows, ok, rows.len())));
    let os = objects.map_values(|o: StoredObject| o.key@);
    let rs = rows.map_values(|r: KeyRow| r.key@);
    assert forall|key: Seq<char>| left.contains(key) <==> right.contains(key) by {
        lemma_orphans(objects, rk, objects.len(), key);
        lemma_dangling(rows, ok, rows.len(), key);
        if ok.contains(key) {
            let i = choose|i: int| 0 <= i < os.len() && os[i] == key;
            assert(objects[i].key@ == key);
        }
        if rk.contains(key) {
            let i = choose|i: int| 0 <= i < rs.len() && rs[i] == key;
            assert(rows[i].key@ == key);
        }
    }
    assert(left =~= right);
}

/// What somebody chose to delete.
#[derive(Debug)]
pub struct ReconcileForm {
    pub delete_orphan_keys: Vec<String>,
    pub delete_dangling_ids: Vec<i64>,
}

/// Checks that a comparison, or a deletion after one, can be made.
pub fn check_storage(storage_ready: bool) -> (r: Result<(), PlainRefusal>)
    ensures
        if storage_ready {
            r is Ok
        } else {
            r is Err && plain(r->Err_0, 503, "storage not configured"@)
        },
{
    if storage_ready {
        Ok(())
    } else {
        Err(words(503, "storage not configured"))
    }
}

// ---------------------------------------------------------------------------
// Links
// ---------------------------------------------------------------------------

#[derive(Debug)]
pub struct AdminSignRequest {
    pub expires_in: Option<u64>,
    pub download: Option<bool>,
}

#[derive(Debug)]
pub struct AdminSignResponse {
    pub url: String,
    pub expires_at: Option<String>,
}

/// The lifetime of a link in seconds: an hour where none is given.
pub open spec fn lifetime(req: AdminSignRequest) -> u64 {
    match req.expires_in {
        Some(n) => n,
        None => 3600,
    }
}

/// What a request for a link leads to.
#[derive(Debug)]
pub enum SignPlan {
    /// A public file has its own address.
    Public,
    /// A link to be signed, with the name under which the file is saved.
    Signed { lifetime: u64, download_name: Option<String> },
}

/// Decides a request for a link: at least a second and at most a week.
pub fn admin_sign_url(req: &AdminSignRequest, lookup: &FileLookup, storage_ready: bool) -> (r: Result<
    SignPlan,
    PlainRefusal,
>)
    ensures
        if lifetime(*req) == 0 || lifetime(*req) > 604800 {
            r is Err && plain(r->Err_0, 400, "expires_in must be 1–604800 seconds (7 days)"@)
        } else {
            match lookup {
                FileLookup::Missing => r is Err && plain(r->Err_0, 404, "not found"@),
                FileLookup::NoTenant(m) => r is Err && plain(r->Err_0, 404, "tenant: "@ + m@),
                FileLookup::Failed(m) => r is Err && plain(r->Err_0, 500, m@),
                FileLookup::Found(f) => if f.visibility@ == "public"@ {
                    r is Ok && r->Ok_0 is Public
                } else if !storage_ready {
                    r is Err && plain(r->Err_0, 503, "storage not configured"@)
                } else {
                    &&& r matches Ok(SignPlan::Signed { lifetime: l, download_name: n })
                    &&& l == lifetime(*req)
                    &&& 1 <= l <= 604800
                    &&& opt_view(n) == (if req.download == Some(true) {
                        Some(f.original_name@)
                    } else {
                        None
                    })
                },
            }
        },
{
    let expires_in: u64 = match req.expires_in {
        Some(n) => n,
        None => 3600,
    };
    if expires_in == 0 || expires_in > 604800 {
        return Err(words(400, "expires_in must be 1–604800 seconds (7 days)"));
    }
    match lookup {
        FileLookup::Missing => Err(words(404, "not found")),
        FileLookup::NoTenant(m) => Err(
            PlainRefusal { status: 404, message: concat2("tenant: ", m.as_str()) },
        ),
        FileLookup::Failed(m) => Err(PlainRefusal { status: 500, message: m.clone() }),
        FileLookup::Found(f) => {
            if str_eq(f.visibility.as_str(), "public") {
                return Ok(SignPlan::Public);
            }
            if !storage_ready {
                return Err(words(503, "storage not configured"));
            }
            let download: bool = match req.download {
                Some(b) => b,
                None => false,
            };
            let download_name: Option<String> = if download {
                Some(f.original_name.clone())
            } else {
                None
            };
            Ok(SignPlan::Signed { lifetime: expires_in, download_name })
        },
    }
}

/// Answers a request for a link that was signed now, a point in time in
/// seconds and nanoseconds.
pub fn sign_reply(signed: Result<String, String>, lifetime: u64, now_secs: i64, now_nanos: u32) -> (r: Result<
    AdminSignResponse,
    PlainRefusal,
>)
    requires
        1 <= lifetime <= 604800,
        in_calendar(now_secs * 1000),
        in_calendar((now_secs + lifetime) * 1000),
        now_nanos < 1000000000,
    ensures
        match signed {
            Err(e) => r is Err && plain(r->Err_0, 500, "sign: "@ + e@),
            Ok(url) => {
                &&& r matches Ok(a)
                &&& a.url == url
                &&& opt_view(a.expires_at) == Some(
                    rfc3339_text(now_secs + lifetime, now_nanos as int),
                )
            },
        },
{
    match signed {
        Err(e) => Err(PlainRefusal { status: 500, message: concat2("sign: ", e.as_str()) }),
        Ok(url) => Ok(
            AdminSignResponse {
                url,
                expires_at: Some(write_rfc3339(now_secs + lifetime as i64, now_nanos)),
            },
        ),
    }
}

// ---------------------------------------------------------------------------
// What is promised of files
// ---------------------------------------------------------------------------

proof fn lemma_filter_words()
    ensures
        "public"@ != "private"@,
        "public"@ != "all"@,
        "private"@ != "all"@,
{
    reveal_strlit("public");
    reveal_strlit("private");
    reveal_strlit("all");
    assert("public"@.len() == 6 && "private"@.len() == 7 && "all"@.len() == 3);
}

/// A list of the public files counts those, one of the private files those, and any
/// other all of them.
pub proof fn law_lists_count_what_they_show(qs: ListQs, counts: Counts)
    ensures
        opt_view(qs.vis) == Some("public"@) ==> filter_of(qs) == "public"@ && counted(
            counts,
            filter_of(qs),
        ) == counts.public,
        opt_view(qs.vis) == Some("private"@) ==> filter_of(qs) == "private"@ && counted(
            counts,
            filter_of(qs),
        ) == counts.private,
        opt_view(qs.vis) != Some("public"@) && opt_view(qs.vis) != Some("private"@) ==> filter_of(qs)
            == "all"@ && counted(counts, filter_of(qs)) == counts.total,
{
    lemma_filter_words();
}

/// A page of the list has the number of rows that was asked for, where that is offered,
/// and shows it as chosen.
pub proof fn law_rows_are_as_offered(qs: ListQs, o: Seq<PerPageOption>)
    requires
        choices(o, rows_per_page(qs)),
    ensures
        forall|i: int|
            0 <= i < o.len() && qs.per_page == Some((#[trigger] o[i]).value) ==> rows_per_page(qs)
                == o[i].value && o[i].selected,
        exists|i: int|
            0 <= i < o.len() && (#[trigger] o[i]).value == rows_per_page(qs) && o[i].selected,
        qs.per_page is None ==> rows_per_page(qs) == 25,
        qs.page matches Some(n) ==> (n >= 1 ==> page_asked(qs) == n),
        page_asked(qs) >= 1,
{
    let n = rows_per_page(qs);
    if n == 10 {
        assert(o[0].selected);
    } else if n == 25 {
        assert(o[1].selected);
    } else if n == 50 {
        assert(o[2].selected);
    } else {
        assert(o[3].selected);
    }
}

/// A link of the pager leads to its page and keeps the number of rows and the filter
/// where they are not the usual ones.
pub proof fn law_pager_keeps_the_list(page: nat, per_page: nat, filter: Seq<char>)
    requires
        one_param(filter),
    ensures
        path_of(pager_url(page as int, per_page as int, filter)) == FILES_URL@,
        params(pager_url(page as int, per_page as int, filter)) == seq!["page="@ + dec(page)] + (
        if per_page == 25 {
            Seq::<Seq<char>>::empty()
        } else {
            seq!["per_page="@ + dec(per_page)]
        }) + (if filter == "all"@ {
            Seq::<Seq<char>>::empty()
        } else {
            seq!["vis="@ + filter]
        }),
{
    reveal_strlit("/drust/admin/files?page=");
    reveal_strlit("/drust/admin/files");
    reveal_strlit("?");
    reveal_strlit("page=");
    reveal_strlit("&per_page=");
    reveal_strlit("&");
    reveal_strlit("per_page=");
    reveal_strlit("&vis=");
    reveal_strlit("vis=");
    let base = FILES_URL@;
    assert(!base.contains('?'));
    let a = "page="@ + dec(page);
    let b = "per_page="@ + dec(per_page);
    let c = "vis="@ + filter;
    lemma_number_param("page="@, page);
    lemma_number_param("per_page="@, per_page);
    assert(one_param(c)) by {
        assert forall|i: int| 0 <= i < c.len() implies #[trigger] c[i] != '&' by {
            if i >= 4 {
                assert(c[i] == filter[i - 4]);
            }
        }
    }
    let u0 = base + "?"@ + a;
    lemma_first_param(base, a);
    assert("/drust/admin/files?page="@ + dec(page) =~= u0);
    let u1 = if per_page == 25 { u0 } else { u0 + "&"@ + b };
    lemma_next_param(u0, b);
    assert(u0 + "&per_page="@ + dec(per_page) =~= u0 + "&"@ + b);
    lemma_next_param(u1, c);
    assert(u1 + "&vis="@ + filter =~= u1 + "&"@ + c);
    let none = Seq::<Seq<char>>::empty();
    assert(seq![a] + none =~= seq![a]);
    assert(seq![a].push(b) =~= seq![a] + seq![b]);
    assert(params(u1) + none =~= params(u1));
    assert(params(u1).push(c) =~= params(u1) + seq![c]);
}

/// A file is shown under its own name and key, and its address is that of its key below
/// the address of the host.
pub proof fn law_files_are_shown_as_stored(r: PublicFileRow, f: FileRow, base_url: Seq<char>)
    requires
        shown_file(r, f, base_url),
    ensures
        r.id == f.id && r.key@ == f.key@ && r.original_name@ == f.original_name@,
        r.content_type@ == f.content_type@ && r.visibility@ == f.visibility@,
        r.uploaded_at@ == f.uploaded_at@,
        base_url.len() > 0 && base_url.last() != '/' ==> r.public_url@ == base_url + "/public/"@
            + f.key@,
        f.size_bytes >= 0 ==> r.size_human@ == humanized(f.size_bytes as nat),
{
}

proof fn lemma_last_dot(stem: Seq<char>, ext: Seq<char>)
    requires
        !ext.contains('.'),
    ensures
        last_dot(stem + seq!['.'] + ext) == stem.len(),
    decreases ext.len(),
{
    let s = stem + seq!['.'] + ext;
    if ext.len() > 0 {
        assert(ext.contains(ext.last()));
        assert(s.last() == ext.last());
        assert(s.drop_last() =~= stem + seq!['.'] + ext.drop_last());
        assert(!ext.drop_last().contains('.')) by {
            if ext.drop_last().contains('.') {
                let i = choose|i: int| 0 <= i < ext.drop_last().len() && ext.drop_last()[i] == '.';
                assert(ext[i] == '.');
            }
        }
        lemma_last_dot(stem, ext.drop_last());
    } else {
        assert(s.last() == '.');
    }
}

proof fn lemma_no_dot(s: Seq<char>)
    requires
        !s.contains('.'),
    ensures
        last_dot(s) == -1,
    decreases s.len(),
{
    if s.len() > 0 {
        assert(s.contains(s.last()));
        assert(!s.drop_last().contains('.')) by {
            if s.drop_last().contains('.') {
                let i = choose|i: int| 0 <= i < s.drop_last().len() && s.drop_last()[i] == '.';
                assert(s[i] == '.');
            }
        }
        lemma_no_dot(s.drop_last());
    }
}

/// The extension of a file stands behind the last dot of its name; a name without a dot
/// has none. An uploaded file keeps its extension in its key.
pub proof fn law_keys_keep_the_extension(id: Seq<char>, stem: Seq<char>, ext: Seq<char>)
    requires
        stem.len() > 0,
        ext.len() > 0,
        !stem.contains('/'),
        !ext.contains('/'),
        !ext.contains('.'),
    ensures
        extension_of(stem + seq!['.'] + ext) == Some(ext),
        key_of(id, stem + seq!['.'] + ext) == id + "."@ + ext,
        !stem.contains('.') ==> extension_of(stem) is None && key_of(id, stem) == id + "."@ + "bin"@,
{
    let name = stem + seq!['.'] + ext;
    assert forall|i: int| 0 <= i < stem.len() implies stem[i] != '/' by {
        assert(stem.contains(stem[i]));
    }
    assert forall|i: int| 0 <= i < name.len() implies name[i] != '/' by {
        if i < stem.len() {
            assert(name[i] == stem[i]);
        } else if i > stem.len() {
            assert(name[i] == ext[i - stem.len() - 1]);
            assert(ext.contains(ext[i - stem.len() - 1]));
        }
    }
    lemma_split_none(name, '/');
    lemma_split_none(stem, '/');
    lemma_last_dot(stem, ext);
    reveal_with_fuel(last_segment, 2);
    assert(name.len() >= 3);
    assert(seq!['.'].len() == 1 && seq!['.', '.'].len() == 2);
    assert(name.skip(last_dot(name) + 1) =~= ext);
    if !stem.contains('.') {
        lemma_no_dot(stem);
        assert(stem != seq!['.']) by {
            if stem == seq!['.'] {
                assert(stem[0] == '.');
                assert(stem.contains('.'));
            }
        }
    }
}

/// A file is of the type that came with it, unless that says nothing; the usual type of
/// its name fills in.
pub proof fn law_types_are_kept(explicit: Seq<char>, usual: Option<Seq<char>>)
    ensures
        explicit != "application/octet-stream"@ ==> type_chosen(Some(explicit), usual) == Some(
            explicit,
        ),
        type_chosen(Some("application/octet-stream"@), usual) == usual,
        type_chosen(None, usual) == usual,
{
}

/// A comparison finds exactly the objects without a row, in their order.
pub proof fn law_orphans_have_no_row(
    objects: Seq<StoredObject>,
    rows: Set<Seq<char>>,
    k: nat,
    i: int,
)
    requires
        k <= objects.len(),
    ensures
        orphans_of(objects, rows, k).contains(i) <==> 0 <= i < k && !rows.contains(objects[i].key@),
    decreases k,
{
    if k > 0 {
        law_orphans_have_no_row(objects, rows, (k - 1) as nat, i);
        let before = orphans_of(objects, rows, (k - 1) as nat);
        let now = orphans_of(objects, rows, k);
        if before.contains(i) {
            let j = choose|j: int| 0 <= j < before.len() && before[j] == i;
            assert(now[j] == i);
        }
        if now.contains(i) && !before.contains(i) {
            let j = choose|j: int| 0 <= j < now.len() && now[j] == i;
            if j < before.len() {
                assert(before[j] == i);
            }
        }
        if !rows.contains(objects[k - 1].key@) {
            assert(now[before.len() as int] == k - 1);
        }
    }
}

/// And it finds exactly the rows without an object.
pub proof fn law_dangling_rows_have_no_object(
    rows: Seq<KeyRow>,
    objects: Set<Seq<char>>,
    k: nat,
    i: int,
)
    requires
        k <= rows.len(),
    ensures
        dangling_of(rows, objects, k).contains(i) <==> 0 <= i < k && !objects.contains(rows[i].key@),
    decreases k,
{
    if k > 0 {
        law_dangling_rows_have_no_object(rows, objects, (k - 1) as nat, i);
        let before = dangling_of(rows, objects, (k - 1) as nat);
        let now = dangling_of(rows, objects, k);
        if before.contains(i) {
            let j = choose|j: int| 0 <= j < before.len() && before[j] == i;
            assert(now[j] == i);
        }
        if now.contains(i) && !before.contains(i) {
            let j = choose|j: int| 0 <= j < now.len() && now[j] == i;
            if j < before.len() {
                assert(before[j] == i);
            }
        }
        if !objects.contains(rows[k - 1].key@) {
            assert(now[before.len() as int] == k - 1);
        }
    }
}

/// Metadata has to be an object, and what is not JSON is refused in the words of the
/// reader.
pub proof fn law_metadata_is_an_object(document: Result<JsonView, Seq<char>>)
    ensures
        meta_fault(document) is None <==> document is Ok && document->Ok_0 is Object,
        document matches Err(e) ==> (meta_fault(document) matches Some(m) && has_suffix(m, e)),
{
    match document {
        Err(e) => {
            let m = "meta is not valid JSON: "@ + e;
            assert(m.subrange(m.len() - e.len(), m.len() as int) =~= e);
        },
        Ok(_) => {},
    }
}

/// A stream that ended because it was too large says so and nothing else; any other
/// failure is named before its words.
pub proof fn law_large_uploads_are_told_apart(prefix: Seq<char>, message: Seq<char>)
    ensures
        has_part(lower(message), "large"@) ==> stream_fault(prefix, message)
            == UploadFault::TooLarge(message),
        !has_part(lower(message), "large"@) ==> stream_fault(prefix, message) == UploadFault::Bad(
            prefix + message,
        ),
{
}

/// The first part of a form that is wrong decides, whatever follows it.
pub proof fn law_first_wrong_part_decides(parts: Seq<UploadPart>, j: nat, k: nat)
    requires
        j <= k <= parts.len(),
        draft_of(parts, j) is Err,
    ensures
        draft_of(parts, k) == draft_of(parts, j),
{
    lemma_draft_fault(parts, j, k);
}

/// A whole number of gigabytes is written as that number.
pub proof fn law_whole_gigabytes_are_written_whole(k: nat)
    requires
        k < 1024,
    ensures
        gigabytes(k * 1024 * 1024 * 1024) == dec(k) + ".0"@,
{
    reveal_strlit(".");
    reveal_strlit(".0");
    law_small_numbers_are_exact(k * 1073741824);
    lemma_half_even_whole(k * 10, 1073741824);
    assert(k * 1073741824 * 10 == k * 10 * 1073741824);
    assert(k * 10 / 10 == k && k * 10 % 10 == 0);
    assert(one_place(k * 10) =~= dec(k) + ".0"@);
}

/// There are as many pages as the files need, and a size below zero counts as none.
pub proof fn law_pages_and_sizes(total: int, per_page: int, n: i64)
    requires
        0 <= total <= u32::MAX,
        per_page > 0,
    ensures
        pages_shown(total, per_page) == page_count(total, per_page),
        n >= 0 ==> size_of(n) == n,
        n < 0 ==> size_of(n) == 0,
{
    let q = (total + per_page - 1) / per_page;
    if total > 0 {
        assert(q <= total) by (nonlinear_arith)
            requires
                q == (total + per_page - 1) / per_page,
                per_page > 0,
                total > 0,
        ;
    }
}

/// A link lives as long as it was asked to, and an hour where nothing was said.
pub proof fn law_links_live_as_asked(req: AdminSignRequest)
    ensures
        req.expires_in matches Some(n) ==> lifetime(req) == n,
        req.expires_in is None ==> lifetime(req) == 60 * 60,
{
}

/// An upload without a file, or with a word that names no visibility or no disposition, is
/// refused, and the refusal quotes the word; a file without a name is called `unnamed`.
pub proof fn law_incomplete_uploads_are_refused(r: Result<UploadFields, UploadError>, d: DraftView)
    requires
        finished(r, d),
    ensures
        d.file is None ==> r is Err && r->Err_0@ == UploadFault::Bad("missing file field"@),
        d.file is Some && (d.visibility matches Some(w) && w != "public"@ && w != "private"@) ==> {
            &&& r is Err
            &&& r->Err_0@ matches UploadFault::Bad(m)
            &&& has_prefix(m, "invalid visibility: "@ + quoted(d.visibility->0))
        },
        d.file is Some && d.visibility is None && (d.disposition matches Some(w) && w != "inline"@
            && w != "attachment"@) ==> {
            &&& r is Err
            &&& r->Err_0@ matches UploadFault::Bad(m)
            &&& has_prefix(m, "invalid disposition: "@ + quoted(d.disposition->0))
        },
        r matches Ok(u) ==> d.file is Some && ((d.file->0).0 is None ==> u.original_name@
            == "unnamed"@),
{
    if d.visibility is Some {
        let m = "invalid visibility: "@ + quoted(d.visibility->0) + "; must be public or private"@;
        let h = "invalid visibility: "@ + quoted(d.visibility->0);
        assert(m.subrange(0, h.len() as int) =~= h);
    }
    if d.disposition is Some {
        let m = "invalid disposition: "@ + quoted(d.disposition->0)
            + "; must be inline or attachment"@;
        let h = "invalid disposition: "@ + quoted(d.disposition->0);
        assert(m.subrange(0, h.len() as int) =~= h);
    }
}

/// A part that could not be read ends the form, and the refusal says what could not be
/// read and why; a text field that an upload does not know is passed over.
pub proof fn law_unread_parts_are_told_of(d: DraftView, message: String, field: String)
    ensures
        !has_part(lower(message@), "large"@) ==> with_part(d, UploadPart::FileFailed(message)) == Err::<
            DraftView,
            UploadFault,
        >(UploadFault::Bad("read body: "@ + message@)),
        !has_part(lower(message@), "large"@) ==> with_part(d, UploadPart::FormFailed(message)) == Err::<
            DraftView,
            UploadFault,
        >(UploadFault::Bad("multipart: "@ + message@)),
        has_part(lower(message@), "large"@) ==> with_part(d, UploadPart::FileFailed(message)) == Err::<
            DraftView,
            UploadFault,
        >(UploadFault::TooLarge(message@)),
        field@ == "visibility"@ || field@ == "disposition"@ || field@ == "cache_control"@ || field@
            == "meta"@ ==> with_part(d, UploadPart::TextFailed { field, message }) == Err::<
            DraftView,
            UploadFault,
        >(UploadFault::Bad(field@ + " field: "@ + message@)),
        field@ != "visibility"@ && field@ != "disposition"@ && field@ != "cache_control"@ && field@
            != "meta"@ ==> with_part(d, UploadPart::TextFailed { field, message }) == Ok::<
            DraftView,
            UploadFault,
        >(d),
{
}

} // verus!
