//! Stored functions of a tenant: their list, their form and their test page.
//!
//! A function is either a piece of SQL, which reads or writes, or a template
//! of a query. What the SQL and the templates mean is decided elsewhere; this
//! module decides what is checked, what is stored and what is answered.

use vstd::prelude::*;
use crate::backups::{plain, PlainRefusal};
use crate::i18n::{arg_views, substituted, text_of, Translator};
use crate::json::{field_of, find_field, json_of, lemma_object_model, parse_json, Json, JsonView};
use crate::paging::{
    clamp_page, lemma_page_bounds, nearest_page, page_count, page_end, page_start, total_pages,
};
use crate::text::{
    concat2, concat3, contains, copy_or, dec, dec_of, has_part, has_prefix, has_suffix, opt_copy,
    opt_eq, opt_view, parse_signed, signed_of, str_eq, trim, trimmed, view_or, views,
};
use crate::url::{
    lemma_first_param, lemma_next_param, lemma_number_param, params, path_of,
};

verus! {

/// Whether a function reads or writes.
#[derive(Clone, Copy, Debug, PartialEq, Eq, Structural)]
pub enum RpcMode {
    Read,
    Write,
}

/// Whether a function is SQL or a template of a query.
#[derive(Clone, Copy, Debug, PartialEq, Eq, Structural)]
pub enum RpcKind {
    Sql,
    Query,
}

/// The type of a parameter.
#[derive(Clone, Copy, Debug, PartialEq, Eq, Structural)]
pub enum ParamType {
    Text,
    Integer,
    Real,
    Boolean,
}

pub open spec fn mode_text(m: RpcMode) -> Seq<char> {
    match m {
        RpcMode::Read => "read"@,
        RpcMode::Write => "write"@,
    }
}

pub open spec fn kind_text(k: RpcKind) -> Seq<char> {
    match k {
        RpcKind::Sql => "sql"@,
        RpcKind::Query => "query"@,
    }
}

pub open spec fn type_text(t: ParamType) -> Seq<char> {
    match t {
        ParamType::Text => "text"@,
        ParamType::Integer => "integer"@,
        ParamType::Real => "real"@,
        ParamType::Boolean => "boolean"@,
    }
}

impl RpcMode {
    pub fn as_str(self) -> (r: &'static str)
        ensures
            r@ == mode_text(self),
    {
        match self {
            RpcMode::Read => "read",
            RpcMode::Write => "write",
        }
    }
}

impl RpcKind {
    pub fn as_str(self) -> (r: &'static str)
        ensures
            r@ == kind_text(self),
    {
        match self {
            RpcKind::Sql => "sql",
            RpcKind::Query => "query",
        }
    }
}

/// The name of a type on a page.
pub fn param_ty_to_str(t: ParamType) -> (r: &'static str)
    ensures
        r@ == type_text(t),
{
    match t {
        ParamType::Text => "text",
        ParamType::Integer => "integer",
        ParamType::Real => "real",
        ParamType::Boolean => "boolean",
    }
}

/// A parameter of a function. The default is held as JSON.
#[derive(Debug)]
pub struct ParamSpec {
    pub name: String,
    pub ty: ParamType,
    pub required: bool,
    pub default_json: Option<String>,
}

/// A function as it is stored.
#[derive(Debug)]
pub struct StoredRpc {
    pub name: String,
    pub description: Option<String>,
    pub sql: String,
    pub params: Vec<ParamSpec>,
    pub anon_callable: bool,
    pub mode: RpcMode,
    pub kind: RpcKind,
    pub query_json: Option<String>,
}

// ---------------------------------------------------------------------------
// The list
// ---------------------------------------------------------------------------

#[derive(Debug)]
pub struct RpcListQs {
    pub page: Option<u32>,
    pub per_page: Option<u32>,
}

/// A number of rows to choose for a page.
#[derive(Debug)]
pub struct RpcPerPageOption {
    pub value: u32,
    pub selected: bool,
}

/// The list of functions.
#[derive(Debug)]
pub struct RpcPage {
    pub rpcs: Vec<StoredRpc>,
    pub page: u32,
    pub total_pages: u32,
    pub total_rpcs: usize,
    /// How many of all functions anybody may call.
    pub total_anon_callable: usize,
    pub prev_url: Option<String>,
    pub next_url: Option<String>,
    pub per_page_options: Vec<RpcPerPageOption>,
}

/// A number of rows that a page may have.
pub open spec fn allowed_per_page(n: u32) -> bool {
    n == 20 || n == 50 || n == 100 || n == 200
}

/// The number of rows on a page: the one asked for where it is allowed.
pub open spec fn rows_per_page(qs: RpcListQs) -> u32 {
    match qs.per_page {
        Some(n) => if allowed_per_page(n) {
            n
        } else {
            20
        },
        None => 20,
    }
}

/// How many of the first `k` functions anybody may call.
pub open spec fn anon_count(rpcs: Seq<StoredRpc>, k: nat) -> nat
    decreases k,
{
    if k == 0 {
        0
    } else {
        anon_count(rpcs, (k - 1) as nat) + if rpcs[k - 1].anon_callable {
            1nat
        } else {
            0nat
        }
    }
}

/// The address of a page of the list.
pub open spec fn pager_url(root: Seq<char>, tenant: Seq<char>, page: int, per_page: int) -> Seq<char> {
    let s = root + "/admin/tenants/"@ + tenant + "/_rpc?page="@ + dec(page as nat);
    if per_page == 20 {
        s
    } else {
        s + "&per_page="@ + dec(per_page as nat)
    }
}

fn write_pager_url(root: &str, tenant: &str, page: u32, per_page: u32) -> (r: String)
    ensures
        r@ == pager_url(root@, tenant@, page as int, per_page as int),
{
    let mut s: String = root.to_owned();
    s.append("/admin/tenants/");
    s.append(tenant);
    s.append("/_rpc?page=");
    s.append(dec_of(page as u64).as_str());
    if per_page != 20 {
        s.append("&per_page=");
        s.append(dec_of(per_page as u64).as_str());
    }
    s
}

fn count_anon(rpcs: &Vec<StoredRpc>) -> (r: usize)
    ensures
        r == anon_count(rpcs@, rpcs@.len()),
{
    let mut n: usize = 0;
    let mut i: usize = 0;
    while i < rpcs.len()
        invariant
            i <= rpcs@.len(),
            n == anon_count(rpcs@, i as nat),
            n <= i,
        decreases rpcs@.len() - i,
    {
        if rpcs[i].anon_callable {
            n = n + 1;
        }
        i = i + 1;
    }
    n
}

/// The choices of the number of rows.
pub open spec fn choices(o: Seq<RpcPerPageOption>, per_page: u32) -> bool {
    &&& o.len() == 4
    &&& o[0].value == 20 && o[1].value == 50 && o[2].value == 100 && o[3].value == 200
    &&& forall|i: int| 0 <= i < 4 ==> (#[trigger] o[i]).selected == (o[i].value == per_page)
}

/// Cuts the list of functions into pages and gives the one asked for. The
/// pages have to be countable in 32 bits.
pub fn rpc_index(all: Vec<StoredRpc>, qs: &RpcListQs, root: &str, tenant_id: &str) -> (r: RpcPage)
    requires
        all@.len() <= u32::MAX,
    ensures
        ({
            let per = rows_per_page(*qs) as int;
            let total = all@.len() as int;
            &&& r.total_rpcs == total
            &&& r.total_anon_callable == anon_count(all@, all@.len())
            &&& r.total_pages == page_count(total, per)
            &&& r.page == nearest_page(qs.page, r.total_pages as int)
            &&& r.rpcs@ == all@.subrange(
                page_start(r.page as int, per),
                page_end(r.page as int, per, total),
            )
            &&& opt_view(r.prev_url) == (if r.page > 1 {
                Some(pager_url(root@, tenant_id@, r.page - 1, per))
            } else {
                None
            })
            &&& opt_view(r.next_url) == (if r.page < r.total_pages {
                Some(pager_url(root@, tenant_id@, r.page + 1, per))
            } else {
                None
            })
            &&& choices(r.per_page_options@, rows_per_page(*qs))
        }),
{
    let per_page: u32 = match qs.per_page {
        Some(n) => if n == 20 || n == 50 || n == 100 || n == 200 {
            n
        } else {
            20
        },
        None => 20,
    };
    let total_rpcs: usize = all.len();
    let total_anon_callable: usize = count_anon(&all);
    let pages: u32 = total_pages(total_rpcs as u64, per_page) as u32;
    let page: u32 = clamp_page(qs.page, pages);
    proof {
        lemma_page_bounds(total_rpcs as int, per_page as int, page as int);
    }
    let start64: u64 = (page as u64 - 1) * (per_page as u64);
    let start: usize = start64 as usize;
    let end: usize = if total_rpcs - start > per_page as usize {
        start + per_page as usize
    } else {
        total_rpcs
    };
    let mut head: Vec<StoredRpc> = all;
    head.truncate(end);
    let rpcs: Vec<StoredRpc> = head.split_off(start);
    assert(rpcs@ =~= all@.subrange(start as int, end as int));
    let prev_url: Option<String> = if page > 1 {
        Some(write_pager_url(root, tenant_id, page - 1, per_page))
    } else {
        None
    };
    let next_url: Option<String> = if page < pages {
        Some(write_pager_url(root, tenant_id, page + 1, per_page))
    } else {
        None
    };
    let mut per_page_options: Vec<RpcPerPageOption> = Vec::new();
    per_page_options.push(RpcPerPageOption { value: 20, selected: per_page == 20 });
    per_page_options.push(RpcPerPageOption { value: 50, selected: per_page == 50 });
    per_page_options.push(RpcPerPageOption { value: 100, selected: per_page == 100 });
    per_page_options.push(RpcPerPageOption { value: 200, selected: per_page == 200 });
    RpcPage {
        rpcs,
        page,
        total_pages: pages,
        total_rpcs,
        total_anon_callable,
        prev_url,
        next_url,
        per_page_options,
    }
}

// ---------------------------------------------------------------------------
// Looking a function up
// ---------------------------------------------------------------------------

/// What the tables say of a function.
#[derive(Debug)]
pub enum RpcLookup {
    Found(StoredRpc),
    Missing,
    Failed(String),
}

fn words(status: u16, message: &str) -> (r: PlainRefusal)
    ensures
        plain(r, status, message@),
{
    PlainRefusal { status, message: message.to_owned() }
}

/// Looks a function up for its test page: first the tenant, then its
/// database, then the function.
pub fn find_for_test(tenant_name: Option<String>, opened: Result<(), String>, lookup: RpcLookup) -> (r: Result<
    (String, StoredRpc),
    PlainRefusal,
>)
    ensures
        match tenant_name {
            None => r is Err && plain(r->Err_0, 404, "tenant not found"@),
            Some(n) => match opened {
                Err(e) => r is Err && plain(r->Err_0, 500, e@),
                Ok(_) => match lookup {
                    RpcLookup::Missing => r is Err && plain(r->Err_0, 404, "no such rpc"@),
                    RpcLookup::Failed(e) => r is Err && plain(r->Err_0, 500, e@),
                    RpcLookup::Found(f) => r == Ok::<(String, StoredRpc), PlainRefusal>((n, f)),
                },
            },
        },
{
    let name: String = match tenant_name {
        Some(n) => n,
        None => {
            return Err(words(404, "tenant not found"));
        },
    };
    if let Err(e) = opened {
        return Err(PlainRefusal { status: 500, message: e });
    }
    match lookup {
        RpcLookup::Missing => Err(words(404, "no such rpc")),
        RpcLookup::Failed(e) => Err(PlainRefusal { status: 500, message: e }),
        RpcLookup::Found(f) => Ok((name, f)),
    }
}

/// Looks a function up for its form: first the database, then the function,
/// then the tenant.
pub fn find_for_edit(tenant_name: Option<String>, opened: Result<(), String>, lookup: RpcLookup) -> (r: Result<
    (String, StoredRpc),
    PlainRefusal,
>)
    ensures
        match opened {
            Err(e) => r is Err && plain(r->Err_0, 500, e@),
            Ok(_) => match lookup {
                RpcLookup::Missing => r is Err && plain(r->Err_0, 404, "no such rpc"@),
                RpcLookup::Failed(e) => r is Err && plain(r->Err_0, 500, e@),
                RpcLookup::Found(f) => match tenant_name {
                    None => r is Err && plain(r->Err_0, 404, "tenant not found"@),
                    Some(n) => r == Ok::<(String, StoredRpc), PlainRefusal>((n, f)),
                },
            },
        },
{
    if let Err(e) = opened {
        return Err(PlainRefusal { status: 500, message: e });
    }
    match lookup {
        RpcLookup::Missing => Err(words(404, "no such rpc")),
        RpcLookup::Failed(e) => Err(PlainRefusal { status: 500, message: e }),
        RpcLookup::Found(f) => match tenant_name {
            Some(n) => Ok((n, f)),
            None => Err(words(404, "tenant not found")),
        },
    }
}

// ---------------------------------------------------------------------------
// The form
// ---------------------------------------------------------------------------

#[derive(Debug)]
pub struct RpcFormBody {
    pub name: String,
    pub description: Option<String>,
    pub sql: String,
    pub params_json: String,
    pub anon_callable: Option<String>,
    pub mode: Option<String>,
    pub kind: Option<String>,
    pub query_json: Option<String>,
}

/// The form as it is shown.
#[derive(Debug)]
pub struct RpcForm {
    pub editing: bool,
    pub existing_name: String,
    pub form_name: String,
    pub form_description: String,
    pub form_sql: String,
    pub form_params_json: String,
    pub form_anon_callable: bool,
    pub form_mode: &'static str,
    pub form_kind: &'static str,
    pub form_query_json: String,
    pub error: Option<String>,
    pub error_code: Option<String>,
}

/// The empty form.
pub fn rpc_new_form() -> (r: RpcForm)
    ensures
        !r.editing,
        r.existing_name@ == ""@,
        r.form_name@ == ""@,
        r.form_description@ == ""@,
        r.form_sql@ == ""@,
        r.form_params_json@ == "[]"@,
        !r.form_anon_callable,
        r.form_mode@ == "read"@,
        r.form_kind@ == "sql"@,
        r.form_query_json@ == ""@,
        r.error is None,
        r.error_code is None,
{
    RpcForm {
        editing: false,
        existing_name: "".to_owned(),
        form_name: "".to_owned(),
        form_description: "".to_owned(),
        form_sql: "".to_owned(),
        form_params_json: "[]".to_owned(),
        form_anon_callable: false,
        form_mode: RpcMode::Read.as_str(),
        form_kind: RpcKind::Sql.as_str(),
        form_query_json: "".to_owned(),
        error: None,
        error_code: None,
    }
}

/// The form for a stored function. `params_json` is the JSON of its
/// parameters, where that could be made.
pub fn rpc_edit_form(existing: &StoredRpc, params_json: Option<String>) -> (r: RpcForm)
    ensures
        r.editing,
        r.existing_name@ == existing.name@,
        r.form_name@ == existing.name@,
        r.form_description@ == view_or(existing.description, ""@),
        r.form_sql@ == existing.sql@,
        r.form_params_json@ == view_or(params_json, "[]"@),
        r.form_anon_callable == existing.anon_callable,
        r.form_mode@ == mode_text(existing.mode),
        r.form_kind@ == kind_text(existing.kind),
        r.form_query_json@ == view_or(existing.query_json, ""@),
        r.error is None,
        r.error_code is None,
{
    RpcForm {
        editing: true,
        existing_name: existing.name.clone(),
        form_name: existing.name.clone(),
        form_description: copy_or(&existing.description, ""),
        form_sql: existing.sql.clone(),
        form_params_json: copy_or(&params_json, "[]"),
        form_anon_callable: existing.anon_callable,
        form_mode: existing.mode.as_str(),
        form_kind: existing.kind.as_str(),
        form_query_json: copy_or(&existing.query_json, ""),
        error: None,
        error_code: None,
    }
}

/// The mode that a form names; reading where it names none.
pub open spec fn mode_of(form: RpcFormBody) -> RpcMode {
    if opt_view(form.mode) == Some("write"@) {
        RpcMode::Write
    } else {
        RpcMode::Read
    }
}

/// The kind that a form names; SQL where it names none.
pub open spec fn kind_of(form: RpcFormBody) -> RpcKind {
    if opt_view(form.kind) == Some("query"@) {
        RpcKind::Query
    } else {
        RpcKind::Sql
    }
}

/// The template of a form. A blank one is none.
pub open spec fn template_of(form: RpcFormBody) -> Option<Seq<char>> {
    match form.query_json {
        Some(s) => if trimmed(s@).len() == 0 {
            None
        } else {
            Some(trimmed(s@))
        },
        None => None,
    }
}

/// What a form asks to be stored.
#[derive(Debug)]
pub struct RpcSubmission {
    pub mode: RpcMode,
    pub kind: RpcKind,
    pub query_json: Option<String>,
    pub anon_callable: bool,
}

/// The submission is that of the form.
pub open spec fn submitted(s: RpcSubmission, form: RpcFormBody) -> bool {
    &&& s.mode == mode_of(form)
    &&& s.kind == kind_of(form)
    &&& opt_view(s.query_json) == template_of(form)
    &&& s.anon_callable == (form.anon_callable is Some)
}

/// Reads a form.
pub fn read_form(form: &RpcFormBody) -> (r: RpcSubmission)
    ensures
        submitted(r, *form),
{
    let query_json: Option<String> = match &form.query_json {
        Some(s) => {
            let t: String = trim(s.as_str());
            if t.as_str().is_empty() {
                None
            } else {
                Some(t)
            }
        },
        None => None,
    };
    RpcSubmission {
        mode: if opt_eq(&form.mode, "write") {
            RpcMode::Write
        } else {
            RpcMode::Read
        },
        kind: if opt_eq(&form.kind, "query") {
            RpcKind::Query
        } else {
            RpcKind::Sql
        },
        query_json,
        anon_callable: form.anon_callable.is_some(),
    }
}

/// How a submission has to be validated against the database.
#[derive(Clone, Copy, Debug, PartialEq, Eq, Structural)]
pub enum Validation {
    /// The SQL, with the guard for functions that anybody may call.
    Sql,
    /// The template.
    Template,
    /// Not at all.
    Skip,
}

/// The template of a stored function, if there is one.
pub open spec fn stored_template(stored: Option<StoredRpc>) -> Option<Seq<char>> {
    match stored {
        Some(r) => opt_view(r.query_json),
        None => None,
    }
}

/// A template is validated where it is new or where anybody is to call it. A
/// save that changes neither is let through, so that a function whose
/// collection is gone can still be closed to the public.
pub open spec fn validation_of(
    kind: RpcKind,
    template: Option<Seq<char>>,
    anon_callable: bool,
    stored: Option<Seq<char>>,
) -> Validation {
    match kind {
        RpcKind::Sql => Validation::Sql,
        RpcKind::Query => if stored != template || anon_callable {
            Validation::Template
        } else {
            Validation::Skip
        },
    }
}

fn same_text(a: &Option<String>, b: &Option<String>) -> (r: bool)
    ensures
        r == (opt_view(*a) == opt_view(*b)),
{
    match (a, b) {
        (Some(x), Some(y)) => str_eq(x.as_str(), y.as_str()),
        (None, None) => true,
        _ => false,
    }
}

/// Decides how a submission has to be validated.
pub fn validation_for(s: &RpcSubmission, stored: &Option<StoredRpc>) -> (r: Validation)
    ensures
        r == validation_of(
            s.kind,
            opt_view(s.query_json),
            s.anon_callable,
            stored_template(*stored),
        ),
{
    match s.kind {
        RpcKind::Sql => Validation::Sql,
        RpcKind::Query => {
            let same: bool = match stored {
                Some(f) => same_text(&f.query_json, &s.query_json),
                None => s.query_json.is_none(),
            };
            if !same || s.anon_callable {
                Validation::Template
            } else {
                Validation::Skip
            }
        },
    }
}

/// Nothing that is offered to the public, and no new template, goes without
/// validation; and closing a function to the public never depends on it.
pub proof fn law_widening_is_validated(
    kind: RpcKind,
    template: Option<Seq<char>>,
    anon_callable: bool,
    stored: Option<Seq<char>>,
)
    ensures
        anon_callable || template != stored ==> validation_of(kind, template, anon_callable, stored)
            != Validation::Skip,
        kind == RpcKind::Query && !anon_callable && template == stored ==> validation_of(
            kind,
            template,
            anon_callable,
            stored,
        ) == Validation::Skip,
{
}

/// The code of a rejected submission, by the words of the rejection.
pub open spec fn rejection_code(msg: Seq<char>, kind: RpcKind) -> Seq<char> {
    if has_part(msg, "RPC_KIND_INVALID"@) {
        "RPC_KIND_INVALID"@
    } else {
        match kind {
            RpcKind::Sql => "INVALID_SQL_FOR_MODE"@,
            RpcKind::Query => if has_part(msg, "PROTECTED_COLLECTION"@) {
                "PROTECTED_COLLECTION"@
            } else if has_part(msg, "COLLECTION_NOT_FOUND"@) {
                "COLLECTION_NOT_FOUND"@
            } else {
                "RPC_QUERY_TEMPLATE_INVALID"@
            },
        }
    }
}

/// Finds the code of a rejected submission.
pub fn save_error_code(msg: &str, kind: RpcKind) -> (r: &'static str)
    ensures
        r@ == rejection_code(msg@, kind),
{
    if contains(msg, "RPC_KIND_INVALID") {
        return "RPC_KIND_INVALID";
    }
    match kind {
        RpcKind::Sql => "INVALID_SQL_FOR_MODE",
        RpcKind::Query => if contains(msg, "PROTECTED_COLLECTION") {
            "PROTECTED_COLLECTION"
        } else if contains(msg, "COLLECTION_NOT_FOUND") {
            "COLLECTION_NOT_FOUND"
        } else {
            "RPC_QUERY_TEMPLATE_INVALID"
        },
    }
}

/// What became of the validation.
#[derive(Debug)]
pub enum Validated {
    Passed,
    Rejected(String),
    Failed(String),
}

/// What is written.
#[derive(Debug)]
pub enum RpcWrite {
    Update {
        name: String,
        sql: Option<String>,
        params_json: String,
        description: Option<String>,
        anon_callable: bool,
        mode: Option<RpcMode>,
        query_json: Option<String>,
    },
    Create {
        name: String,
        sql: String,
        params_json: String,
        description: Option<String>,
        anon_callable: bool,
        mode: RpcMode,
        kind: RpcKind,
        query_json: Option<String>,
    },
}

/// The write for a form. The SQL and the mode of a template are not its own:
/// it is created with empty SQL and an update leaves both alone.
pub open spec fn written(w: RpcWrite, form: RpcFormBody, exists: bool) -> bool {
    if exists {
        &&& w matches RpcWrite::Update {
            name,
            sql,
            params_json,
            description,
            anon_callable,
            mode,
            query_json,
        }
        &&& name@ == form.name@
        &&& opt_view(sql) == (match kind_of(form) {
            RpcKind::Sql => Some(form.sql@),
            RpcKind::Query => None,
        })
        &&& params_json@ == form.params_json@
        &&& opt_view(description) == opt_view(form.description)
        &&& anon_callable == (form.anon_callable is Some)
        &&& mode == (match kind_of(form) {
            RpcKind::Sql => Some(mode_of(form)),
            RpcKind::Query => None,
        })
        &&& opt_view(query_json) == template_of(form)
    } else {
        &&& w matches RpcWrite::Create {
            name,
            sql,
            params_json,
            description,
            anon_callable,
            mode,
            kind,
            query_json,
        }
        &&& name@ == form.name@
        &&& sql@ == (match kind_of(form) {
            RpcKind::Sql => form.sql@,
            RpcKind::Query => ""@,
        })
        &&& params_json@ == form.params_json@
        &&& opt_view(description) == opt_view(form.description)
        &&& anon_callable == (form.anon_callable is Some)
        &&& mode == mode_of(form)
        &&& kind == kind_of(form)
        &&& opt_view(query_json) == template_of(form)
    }
}

/// Makes the write for a form, given whether a function of its name exists.
pub fn write_for(form: &RpcFormBody, exists: bool) -> (r: RpcWrite)
    ensures
        written(r, *form, exists),
{
    let s: RpcSubmission = read_form(form);
    if exists {
        RpcWrite::Update {
            name: form.name.clone(),
            sql: match s.kind {
                RpcKind::Sql => Some(form.sql.clone()),
                RpcKind::Query => None,
            },
            params_json: form.params_json.clone(),
            description: opt_copy(&form.description),
            anon_callable: s.anon_callable,
            mode: match s.kind {
                RpcKind::Sql => Some(s.mode),
                RpcKind::Query => None,
            },
            query_json: s.query_json,
        }
    } else {
        RpcWrite::Create {
            name: form.name.clone(),
            sql: match s.kind {
                RpcKind::Sql => form.sql.clone(),
                RpcKind::Query => "".to_owned(),
            },
            params_json: form.params_json.clone(),
            description: opt_copy(&form.description),
            anon_callable: s.anon_callable,
            mode: s.mode,
            kind: s.kind,
            query_json: s.query_json,
        }
    }
}

/// The form with the words of a failure. What was submitted is shown again.
pub open spec fn shown_again(r: RpcForm, form: RpcFormBody, editing: bool, error: Seq<char>, code: Option<Seq<char>>) -> bool {
    &&& r.editing == editing
    &&& r.existing_name@ == form.name@
    &&& r.form_name@ == form.name@
    &&& r.form_description@ == view_or(form.description, ""@)
    &&& r.form_sql@ == form.sql@
    &&& r.form_params_json@ == form.params_json@
    &&& r.form_anon_callable == (form.anon_callable is Some)
    &&& r.form_mode@ == mode_text(mode_of(form))
    &&& r.form_kind@ == kind_text(kind_of(form))
    &&& r.form_query_json@ == view_or(form.query_json, ""@)
    &&& opt_view(r.error) == Some(error)
    &&& opt_view(r.error_code) == code
}

/// Shows the form again with the words of a failure.
pub fn render_form_with_error(form: &RpcFormBody, editing: bool, msg: String, code: Option<String>) -> (r: RpcForm)
    ensures
        shown_again(r, *form, editing, msg@, opt_view(code)),
{
    let s: RpcSubmission = read_form(form);
    RpcForm {
        editing,
        existing_name: form.name.clone(),
        form_name: form.name.clone(),
        form_description: copy_or(&form.description, ""),
        form_sql: form.sql.clone(),
        form_params_json: form.params_json.clone(),
        form_anon_callable: s.anon_callable,
        form_mode: s.mode.as_str(),
        form_kind: s.kind.as_str(),
        form_query_json: copy_or(&form.query_json, ""),
        error: Some(msg),
        error_code: code,
    }
}

/// Decides a save up to the write. The checks are made in this order: the
/// shape of the submission, its parameters, and the validation against the
/// database. `exists` is whether a function of that name is there.
pub fn rpc_save(
    form: &RpcFormBody,
    shape_error: Option<String>,
    params_error: Option<String>,
    validated: Validated,
    exists: bool,
) -> (r: Result<RpcWrite, RpcForm>)
    ensures
        match (shape_error, params_error, validated) {
            (Some(e), _, _) => r is Err && shown_again(
                r->Err_0,
                *form,
                exists,
                e@,
                Some("RPC_KIND_INVALID"@),
            ),
            (None, Some(e), _) => r is Err && shown_again(r->Err_0, *form, exists, e@, None),
            (None, None, Validated::Rejected(e)) => r is Err && shown_again(
                r->Err_0,
                *form,
                exists,
                e@,
                Some(rejection_code(e@, kind_of(*form))),
            ),
            (None, None, Validated::Failed(e)) => r is Err && shown_again(
                r->Err_0,
                *form,
                exists,
                e@,
                None,
            ),
            (None, None, Validated::Passed) => r is Ok && written(r->Ok_0, *form, exists),
        },
{
    if let Some(e) = shape_error {
        return Err(
            render_form_with_error(form, exists, e, Some("RPC_KIND_INVALID".to_owned())),
        );
    }
    if let Some(e) = params_error {
        return Err(render_form_with_error(form, exists, e, None));
    }
    match validated {
        Validated::Rejected(e) => {
            let s: RpcSubmission = read_form(form);
            let code: &'static str = save_error_code(e.as_str(), s.kind);
            Err(render_form_with_error(form, exists, e, Some(code.to_owned())))
        },
        Validated::Failed(e) => Err(render_form_with_error(form, exists, e, None)),
        Validated::Passed => Ok(write_for(form, exists)),
    }
}

/// The address of the list.
pub open spec fn list_url(root: Seq<char>, tenant: Seq<char>) -> Seq<char> {
    root + "/admin/tenants/"@ + tenant + "/_rpc"@
}

fn write_list_url(root: &str, tenant: &str) -> (r: String)
    ensures
        r@ == list_url(root@, tenant@),
{
    let s: String = concat3(root, "/admin/tenants/", tenant);
    concat2(s.as_str(), "/_rpc")
}

/// Answers a save after the write: the address of the list, or the form
/// again.
pub fn rpc_save_reply(
    form: &RpcFormBody,
    root: &str,
    tenant_id: &str,
    outcome: Result<(), String>,
    exists: bool,
) -> (r: Result<String, RpcForm>)
    ensures
        match outcome {
            Ok(_) => r is Ok && r->Ok_0@ == list_url(root@, tenant_id@),
            Err(e) => r is Err && shown_again(r->Err_0, *form, exists, e@, None),
        },
{
    match outcome {
        Ok(_) => Ok(write_list_url(root, tenant_id)),
        Err(e) => Err(render_form_with_error(form, exists, e, None)),
    }
}

/// What became of a deletion.
#[derive(Debug)]
pub enum Deleted {
    Done,
    Missing,
    Failed(String),
}

/// Answers a deletion. A function that was gone already is deleted.
pub fn rpc_delete(tenant_exists: bool, outcome: Deleted, root: &str, tenant_id: &str) -> (r: Result<
    String,
    PlainRefusal,
>)
    ensures
        if !tenant_exists {
            r is Err && plain(r->Err_0, 404, "tenant not found"@)
        } else {
            match outcome {
                Deleted::Failed(e) => r is Err && plain(r->Err_0, 500, e@),
                _ => r is Ok && r->Ok_0@ == list_url(root@, tenant_id@),
            }
        },
{
    if !tenant_exists {
        return Err(words(404, "tenant not found"));
    }
    match outcome {
        Deleted::Failed(e) => Err(PlainRefusal { status: 500, message: e }),
        _ => Ok(write_list_url(root, tenant_id)),
    }
}

// ---------------------------------------------------------------------------
// The test page
// ---------------------------------------------------------------------------

/// The fields of a test run, each parameter as `p_<name>`. Of two fields with
/// one name the last counts.
#[derive(Debug)]
pub struct RpcTestRunForm {
    pub fields: Vec<(String, String)>,
}

/// The fields, as mathematics has them.
pub open spec fn form_fields(v: Seq<(String, String)>) -> Seq<(Seq<char>, Seq<char>)> {
    v.map_values(|f: (String, String)| (f.0@, f.1@))
}

/// The value of a field.
pub open spec fn form_value(f: Seq<(Seq<char>, Seq<char>)>, name: Seq<char>) -> Option<Seq<char>>
    decreases f.len(),
{
    if f.len() == 0 {
        None
    } else if f.last().0 == name {
        Some(f.last().1)
    } else {
        form_value(f.drop_last(), name)
    }
}

/// The field holds something.
pub open spec fn is_set(f: Seq<(Seq<char>, Seq<char>)>, name: Seq<char>) -> bool {
    form_value(f, name) matches Some(v) && v.len() > 0
}

impl RpcTestRunForm {
    fn get(&self, name: &str) -> (r: Option<String>)
        ensures
            opt_view(r) == form_value(form_fields(self.fields@), name@),
    {
        let ghost all = form_fields(self.fields@);
        let mut n: usize = self.fields.len();
        assert(all.take(n as int) =~= all);
        while n > 0
            invariant
                n <= self.fields@.len(),
                all == form_fields(self.fields@),
                form_value(all, name@) == form_value(all.take(n as int), name@),
            decreases n,
        {
            assert(all.take(n as int).last() == (
                self.fields@[n - 1].0@,
                self.fields@[n - 1].1@,
            ));
            assert(all.take(n as int).drop_last() =~= all.take(n - 1));
            if str_eq(self.fields[n - 1].0.as_str(), name) {
                return Some(self.fields[n - 1].1.clone());
            }
            n = n - 1;
        }
        None
    }

    fn has(&self, name: &str) -> (r: bool)
        ensures
            r == is_set(form_fields(self.fields@), name@),
    {
        match self.get(name) {
            Some(v) => !v.as_str().is_empty(),
            None => false,
        }
    }

    /// Whether a write is to be kept. Without the mark it is only tried.
    pub fn actually_commit(&self) -> (r: bool)
        ensures
            r == is_set(form_fields(self.fields@), "actually_commit"@),
    {
        self.has("actually_commit")
    }

    /// Whether the run asks for a plan or a trial, which only SQL has.
    pub fn wants_query_plan_or_dry_run(&self) -> (r: bool)
        ensures
            r == (is_set(form_fields(self.fields@), "explain"@) || is_set(
                form_fields(self.fields@),
                "dry_run"@,
            )),
    {
        self.has("explain") || self.has("dry_run")
    }
}

/// A value for a parameter.
#[derive(Debug)]
pub enum Coerced {
    Null,
    Text(String),
    Integer(i64),
    /// A finite number, as it was written.
    Real(String),
    Boolean(bool),
}

/// A value for a parameter, as mathematics has it.
pub enum CoercedView {
    Null,
    Text(Seq<char>),
    Integer(int),
    Real(Seq<char>),
    Boolean(bool),
}

impl View for Coerced {
    type V = CoercedView;

    open spec fn view(&self) -> CoercedView {
        match self {
            Coerced::Null => CoercedView::Null,
            Coerced::Text(s) => CoercedView::Text(s@),
            Coerced::Integer(n) => CoercedView::Integer(*n as int),
            Coerced::Real(s) => CoercedView::Real(s@),
            Coerced::Boolean(b) => CoercedView::Boolean(*b),
        }
    }
}

/// What a text means as a value of a type. An empty text is no value, and one
/// that does not fit the type stays a text, which is refused later. `finite`
/// is whether the text is that of a finite number.
pub open spec fn coerced(ty: ParamType, s: Seq<char>, finite: bool) -> CoercedView {
    if s.len() == 0 {
        CoercedView::Null
    } else {
        match ty {
            ParamType::Text => CoercedView::Text(s),
            ParamType::Integer => match signed_of(s) {
                Some(n) => CoercedView::Integer(n),
                None => CoercedView::Text(s),
            },
            ParamType::Real => if finite {
                CoercedView::Real(s)
            } else {
                CoercedView::Text(s)
            },
            ParamType::Boolean => if s == "1"@ || s == "true"@ || s == "on"@ || s == "yes"@ {
                CoercedView::Boolean(true)
            } else if s == "0"@ || s == "false"@ || s == "off"@ || s == "no"@ {
                CoercedView::Boolean(false)
            } else {
                CoercedView::Text(s)
            },
        }
    }
}

/// Turns a text into a value of a type.
pub fn coerce_form_string(ty: ParamType, s: &str, finite: bool) -> (r: Coerced)
    ensures
        r@ == coerced(ty, s@, finite),
{
    if s.is_empty() {
        return Coerced::Null;
    }
    match ty {
        ParamType::Text => Coerced::Text(s.to_owned()),
        ParamType::Integer => match parse_signed(s) {
            Some(n) => Coerced::Integer(n),
            None => Coerced::Text(s.to_owned()),
        },
        ParamType::Real => if finite {
            Coerced::Real(s.to_owned())
        } else {
            Coerced::Text(s.to_owned())
        },
        ParamType::Boolean => if str_eq(s, "1") || str_eq(s, "true") || str_eq(s, "on") || str_eq(
            s,
            "yes",
        ) {
            Coerced::Boolean(true)
        } else if str_eq(s, "0") || str_eq(s, "false") || str_eq(s, "off") || str_eq(s, "no") {
            Coerced::Boolean(false)
        } else {
            Coerced::Text(s.to_owned())
        },
    }
}

/// The field of a parameter.
pub open spec fn param_field(name: Seq<char>) -> Seq<char> {
    "p_"@ + name
}

/// What was entered for a parameter.
pub open spec fn entered(form: RpcTestRunForm, name: Seq<char>) -> Seq<char> {
    match form_value(form_fields(form.fields@), param_field(name)) {
        Some(v) => v,
        None => ""@,
    }
}

/// Finds what was entered for a parameter.
pub fn entered_for(form: &RpcTestRunForm, name: &str) -> (r: String)
    ensures
        r@ == entered(*form, name@),
{
    let key: String = concat2("p_", name);
    match form.get(key.as_str()) {
        Some(v) => v,
        None => "".to_owned(),
    }
}

/// The named values, as mathematics has them.
pub open spec fn value_views(v: Seq<(String, Coerced)>) -> Seq<(Seq<char>, CoercedView)> {
    v.map_values(|f: (String, Coerced)| (f.0@, f.1@))
}

/// The values of the first `k` parameters, those without one left out.
/// `finite` tells of each parameter whether its text is a finite number.
pub open spec fn values_of(
    params: Seq<ParamSpec>,
    form: RpcTestRunForm,
    finite: Seq<bool>,
    k: nat,
) -> Seq<(Seq<char>, CoercedView)>
    decreases k,
{
    if k == 0 {
        Seq::<(Seq<char>, CoercedView)>::empty()
    } else {
        let before = values_of(params, form, finite, (k - 1) as nat);
        let p = params[k - 1];
        let v = coerced(p.ty, entered(form, p.name@), finite[k - 1]);
        if v is Null {
            before
        } else {
            before.push((p.name@, v))
        }
    }
}

/// Collects the values of the parameters of a run.
pub fn collect_values(params: &Vec<ParamSpec>, form: &RpcTestRunForm, finite: &Vec<bool>) -> (r: Vec<
    (String, Coerced),
>)
    requires
        finite@.len() == params@.len(),
    ensures
        value_views(r@) == values_of(params@, *form, finite@, params@.len()),
{
    let mut r: Vec<(String, Coerced)> = Vec::new();
    let mut i: usize = 0;
    assert(value_views(r@) =~= values_of(params@, *form, finite@, 0));
    while i < params.len()
        invariant
            i <= params@.len(),
            finite@.len() == params@.len(),
            value_views(r@) == values_of(params@, *form, finite@, i as nat),
        decreases params@.len() - i,
    {
        let raw: String = entered_for(form, params[i].name.as_str());
        let v: Coerced = coerce_form_string(params[i].ty, raw.as_str(), finite[i]);
        let ghost before = value_views(r@);
        match v {
            Coerced::Null => {},
            v => {
                let ghost vv = v@;
                r.push((params[i].name.clone(), v));
                assert(value_views(r@) =~= before.push((params@[i as int].name@, vv)));
            },
        }
        i = i + 1;
    }
    r
}

/// A parameter on the test page.
#[derive(Debug)]
pub struct RpcTestParam {
    pub name: String,
    pub ty: &'static str,
    pub required: bool,
    pub default_display: String,
    pub value: String,
}

/// The parameter as the page shows it, with what was entered in a run.
pub open spec fn shown_param(t: RpcTestParam, p: ParamSpec, form: Option<RpcTestRunForm>) -> bool {
    &&& t.name@ == p.name@
    &&& t.ty@ == type_text(p.ty)
    &&& t.required == p.required
    &&& t.default_display@ == view_or(p.default_json, ""@)
    &&& t.value@ == (match form {
        Some(f) => entered(f, p.name@),
        None => ""@,
    })
}

/// Lists the parameters for the test page.
pub fn test_params(params: &Vec<ParamSpec>, form: &Option<RpcTestRunForm>) -> (r: Vec<RpcTestParam>)
    ensures
        r@.len() == params@.len(),
        forall|i: int| 0 <= i < r@.len() ==> shown_param(#[trigger] r@[i], params@[i], *form),
{
    let mut r: Vec<RpcTestParam> = Vec::new();
    let mut i: usize = 0;
    while i < params.len()
        invariant
            i <= params@.len(),
            r@.len() == i,
            forall|k: int| 0 <= k < i ==> shown_param(#[trigger] r@[k], params@[k], *form),
        decreases params@.len() - i,
    {
        let p: &ParamSpec = &params[i];
        let value: String = match form {
            Some(f) => entered_for(f, p.name.as_str()),
            None => "".to_owned(),
        };
        r.push(
            RpcTestParam {
                name: p.name.clone(),
                ty: param_ty_to_str(p.ty),
                required: p.required,
                default_display: copy_or(&p.default_json, ""),
                value,
            },
        );
        i = i + 1;
    }
    r
}

/// A cell of a result: nothing, a text, or another value as JSON.
#[derive(Debug)]
pub enum Cell {
    Null,
    Text(String),
    Other(String),
}

/// A cell for a reader.
pub open spec fn cell_text(c: Cell) -> Seq<char> {
    match c {
        Cell::Null => "NULL"@,
        Cell::Text(s) => s@,
        Cell::Other(s) => s@,
    }
}

/// Writes a cell for a reader.
pub fn write_cell(c: &Cell) -> (r: String)
    ensures
        r@ == cell_text(*c),
{
    match c {
        Cell::Null => "NULL".to_owned(),
        Cell::Text(s) => s.clone(),
        Cell::Other(s) => s.clone(),
    }
}

/// What a query gave.
#[derive(Debug)]
pub struct QueryResult {
    pub column_names: Vec<String>,
    pub rows: Vec<Vec<Cell>>,
    pub truncated: bool,
}

/// What a run gave, for the page.
#[derive(Debug)]
pub struct RpcTestResult {
    pub column_names: Vec<String>,
    pub rows: Vec<Vec<String>>,
    pub row_count: usize,
    pub truncated: bool,
}

/// The cells of a row for a reader.
pub open spec fn row_texts(row: Seq<Cell>) -> Seq<Seq<char>> {
    row.map_values(|c: Cell| cell_text(c))
}

/// The result as the page shows it.
pub open spec fn shown_result(t: RpcTestResult, q: QueryResult) -> bool {
    &&& t.column_names == q.column_names
    &&& t.row_count == q.rows@.len()
    &&& t.truncated == q.truncated
    &&& t.rows@.len() == q.rows@.len()
    &&& forall|i: int|
        0 <= i < t.rows@.len() ==> views((#[trigger] t.rows@[i])@) == row_texts(q.rows@[i]@)
}

fn write_row(row: &Vec<Cell>) -> (r: Vec<String>)
    ensures
        views(r@) == row_texts(row@),
{
    let mut r: Vec<String> = Vec::new();
    let mut i: usize = 0;
    while i < row.len()
        invariant
            i <= row@.len(),
            r@.len() == i,
            forall|k: int| 0 <= k < i ==> (#[trigger] r@[k])@ == cell_text(row@[k]),
        decreases row@.len() - i,
    {
        r.push(write_cell(&row[i]));
        i = i + 1;
    }
    assert(views(r@) =~= row_texts(row@));
    r
}

/// Prepares a result for the page.
pub fn show_result(q: QueryResult) -> (r: RpcTestResult)
    ensures
        shown_result(r, q),
{
    let mut rows: Vec<Vec<String>> = Vec::new();
    let mut i: usize = 0;
    while i < q.rows.len()
        invariant
            i <= q.rows@.len(),
            rows@.len() == i,
            forall|k: int|
                0 <= k < i ==> views((#[trigger] rows@[k])@) == row_texts(q.rows@[k]@),
        decreases q.rows@.len() - i,
    {
        rows.push(write_row(&q.rows[i]));
        i = i + 1;
    }
    RpcTestResult {
        row_count: q.rows.len(),
        column_names: q.column_names,
        rows,
        truncated: q.truncated,
    }
}

/// What a template gave: the page of records as JSON.
#[derive(Debug)]
pub struct RpcQueryResult {
    pub envelope_json: String,
    pub total: i64,
    pub row_count: usize,
}

/// The outcome of a run.
#[derive(Debug)]
pub struct RpcTestOutcome {
    pub duration_ms: u128,
    pub bound_json: String,
    pub result: Option<RpcTestResult>,
    pub query_result: Option<RpcQueryResult>,
    pub error: Option<String>,
    pub explain_rows: Vec<String>,
    /// Nothing was kept.
    pub dry_run: bool,
    pub is_write_mode: bool,
    pub affected_rows: i64,
    pub statement_count: usize,
}

/// The values of a run do not fit its parameters.
#[derive(Debug)]
pub enum BindError {
    /// This parameter has no value.
    Missing(String),
    /// Something else is wrong.
    Other,
}

/// The outcome of a run whose values do not fit, in the words of `message`
/// for anything but a missing user. Nobody is signed in on the test page, so
/// that one gets an explanation of its own.
pub fn bind_failed(
    mode: RpcMode,
    error: BindError,
    message: String,
    t: &Translator,
    bound_json: String,
) -> (r: RpcTestOutcome)
    ensures
        r.duration_ms == 0,
        r.bound_json == bound_json,
        r.result is None,
        r.query_result is None,
        opt_view(r.error) == Some(
            if error matches BindError::Missing(n) && n@ == "user_id"@ {
                text_of(
                    t.active(),
                    t.english(),
                    "tenant_rpc.errors.user_id_binding_required"@,
                )
            } else {
                message@
            },
        ),
        r.explain_rows@.len() == 0,
        r.dry_run == (mode == RpcMode::Write),
        r.is_write_mode == (mode == RpcMode::Write),
        r.affected_rows == 0,
        r.statement_count == 0,
{
    let about_user: bool = match &error {
        BindError::Missing(n) => str_eq(n.as_str(), "user_id"),
        BindError::Other => false,
    };
    let msg: String = if about_user {
        t.s("tenant_rpc.errors.user_id_binding_required")
    } else {
        message
    };
    let is_write: bool = match mode {
        RpcMode::Write => true,
        RpcMode::Read => false,
    };
    RpcTestOutcome {
        duration_ms: 0,
        bound_json,
        result: None,
        query_result: None,
        error: Some(msg),
        explain_rows: Vec::new(),
        dry_run: is_write,
        is_write_mode: is_write,
        affected_rows: 0,
        statement_count: 0,
    }
}

/// The outcome of a run that reads.
pub fn read_outcome(
    exec: Result<QueryResult, String>,
    explain_rows: Vec<String>,
    duration_ms: u128,
    bound_json: String,
) -> (r: RpcTestOutcome)
    ensures
        r.duration_ms == duration_ms,
        r.bound_json == bound_json,
        r.query_result is None,
        r.explain_rows == explain_rows,
        !r.dry_run,
        !r.is_write_mode,
        r.affected_rows == 0,
        r.statement_count == 0,
        match exec {
            Ok(q) => r.error is None && r.result is Some && shown_result(r.result->0, q),
            Err(e) => r.error == Some(e) && r.result is None,
        },
{
    let (result, error): (Option<RpcTestResult>, Option<String>) = match exec {
        Ok(q) => (Some(show_result(q)), None),
        Err(e) => (None, Some(e)),
    };
    RpcTestOutcome {
        duration_ms,
        bound_json,
        result,
        query_result: None,
        error,
        explain_rows,
        dry_run: false,
        is_write_mode: false,
        affected_rows: 0,
        statement_count: 0,
    }
}

/// What became of a run that writes.
#[derive(Debug)]
pub enum WriteRun {
    Done { rows: Option<QueryResult>, dry_run: bool, affected_rows: i64, statement_count: usize },
    /// A statement failed, and everything was undone.
    StatementFailed { index: usize, message: String, capture_limit_exceeded: bool },
    /// The end of the transaction failed.
    CommitFailed(String),
}

/// The words for a statement that failed.
pub open spec fn statement_error(t: &Translator, index: usize, message: Seq<char>, over_limit: bool) -> Seq<char> {
    if over_limit {
        "CAPTURE_LIMIT_EXCEEDED: "@ + message
    } else {
        failed_prefix(t, index) + ": "@ + message
    }
}

/// The words that name the statement that failed.
pub open spec fn failed_prefix(t: &Translator, index: usize) -> Seq<char> {
    substituted(
        text_of(t.active(), t.english(), "tenant_rpc.errors.statement_failed"@),
        seq![("index"@, dec(index as nat))],
    )
}

fn write_statement_error(t: &Translator, index: usize, message: &str, over_limit: bool) -> (r: String)
    ensures
        r@ == statement_error(t, index, message@, over_limit),
{
    if over_limit {
        return concat2("CAPTURE_LIMIT_EXCEEDED: ", message);
    }
    let n: String = dec_of(index as u64);
    let mut args: Vec<(&str, &str)> = Vec::new();
    args.push(("index", n.as_str()));
    let prefix: String = t.fmt("tenant_rpc.errors.statement_failed", args.as_slice());
    assert(arg_views(args@) =~= seq![("index"@, dec(index as nat))]);
    concat3(prefix.as_str(), ": ", message)
}

/// The outcome of a run that writes. Where it failed, nothing counts as kept.
pub fn write_outcome(
    run: WriteRun,
    explain_rows: Vec<String>,
    duration_ms: u128,
    bound_json: String,
    t: &Translator,
) -> (r: RpcTestOutcome)
    ensures
        r.duration_ms == duration_ms,
        r.bound_json == bound_json,
        r.query_result is None,
        r.explain_rows == explain_rows,
        r.is_write_mode,
        match run {
            WriteRun::Done { rows, dry_run, affected_rows, statement_count } => {
                &&& r.error is None
                &&& r.dry_run == dry_run
                &&& r.affected_rows == affected_rows
                &&& r.statement_count == statement_count
                &&& r.result matches Some(t)
                &&& match rows {
                    Some(q) => shown_result(t, q),
                    None => t.column_names@.len() == 0 && t.rows@.len() == 0 && t.row_count == 0
                        && !t.truncated,
                }
            },
            WriteRun::StatementFailed { index, message, capture_limit_exceeded } => {
                &&& opt_view(r.error) == Some(
                    statement_error(t, index, message@, capture_limit_exceeded),
                )
                &&& r.result is None
                &&& r.dry_run
                &&& r.affected_rows == 0
                &&& r.statement_count == index
            },
            WriteRun::CommitFailed(e) => {
                &&& opt_view(r.error) == Some("TX_COMMIT_FAILED: "@ + e@)
                &&& r.result is None
                &&& r.dry_run
                &&& r.affected_rows == 0
                &&& r.statement_count == 0
            },
        },
{
    let mut result: Option<RpcTestResult> = None;
    let mut error: Option<String> = None;
    let mut dry: bool = true;
    let mut affected: i64 = 0;
    let mut statements: usize = 0;
    match run {
        WriteRun::Done { rows, dry_run, affected_rows, statement_count } => {
            let q: QueryResult = match rows {
                Some(q) => q,
                None => QueryResult {
                    column_names: Vec::new(),
                    rows: Vec::new(),
                    truncated: false,
                },
            };
            result = Some(show_result(q));
            dry = dry_run;
            affected = affected_rows;
            statements = statement_count;
        },
        WriteRun::StatementFailed { index, message, capture_limit_exceeded } => {
            error = Some(
                write_statement_error(t, index, message.as_str(), capture_limit_exceeded),
            );
            statements = index;
        },
        WriteRun::CommitFailed(e) => {
            error = Some(concat2("TX_COMMIT_FAILED: ", e.as_str()));
        },
    }
    RpcTestOutcome {
        duration_ms,
        bound_json,
        result,
        query_result: None,
        error,
        explain_rows,
        dry_run: dry,
        is_write_mode: true,
        affected_rows: affected,
        statement_count: statements,
    }
}

/// What a run does, by the kind and mode of the function.
#[derive(Debug)]
pub enum RunPlan {
    /// Runs the template.
    Query,
    /// Runs SQL that reads.
    Read,
    /// Runs SQL that writes, and keeps it or not.
    Write { dry_run: bool },
}

/// Decides what a run does.
pub fn rpc_test_run(kind: RpcKind, mode: RpcMode, form: &RpcTestRunForm) -> (r: Result<
    RunPlan,
    PlainRefusal,
>)
    ensures
        ({
            let f = form_fields(form.fields@);
            match (kind, mode) {
                (RpcKind::Query, _) => if is_set(f, "explain"@) || is_set(f, "dry_run"@) {
                    r is Err && plain(
                        r->Err_0,
                        400,
                        "RPC_KIND_INVALID: dry_run / EXPLAIN is not supported on kind='query' (drust builds and row-scopes the SQL itself)"@,
                    )
                } else {
                    r is Ok && r->Ok_0 is Query
                },
                (RpcKind::Sql, RpcMode::Read) => r is Ok && r->Ok_0 is Read,
                (RpcKind::Sql, RpcMode::Write) => r matches Ok(RunPlan::Write { dry_run })
                    && dry_run == !is_set(f, "actually_commit"@),
            }
        }),
{
    match kind {
        RpcKind::Query => if form.wants_query_plan_or_dry_run() {
            Err(
                words(
                    400,
                    "RPC_KIND_INVALID: dry_run / EXPLAIN is not supported on kind='query' (drust builds and row-scopes the SQL itself)",
                ),
            )
        } else {
            Ok(RunPlan::Query)
        },
        RpcKind::Sql => match mode {
            RpcMode::Read => Ok(RunPlan::Read),
            RpcMode::Write => Ok(RunPlan::Write { dry_run: !form.actually_commit() }),
        },
    }
}

/// The outcome of a run of a template.
pub fn query_outcome(result: Result<RpcQueryResult, String>, duration_ms: u128, bound_json: String) -> (r:
    RpcTestOutcome)
    ensures
        r.duration_ms == duration_ms,
        r.bound_json == bound_json,
        r.result is None,
        r.explain_rows@.len() == 0,
        !r.dry_run,
        !r.is_write_mode,
        r.affected_rows == 0,
        r.statement_count == 0,
        match result {
            Ok(q) => r.query_result == Some(q) && r.error is None,
            Err(e) => r.query_result is None && r.error == Some(e),
        },
{
    let (query_result, error): (Option<RpcQueryResult>, Option<String>) = match result {
        Ok(q) => (Some(q), None),
        Err(e) => (None, Some(e)),
    };
    RpcTestOutcome {
        duration_ms,
        bound_json,
        result: None,
        query_result,
        error,
        explain_rows: Vec::new(),
        dry_run: false,
        is_write_mode: false,
        affected_rows: 0,
        statement_count: 0,
    }
}

/// The text of a field of a JSON value.
pub open spec fn text_at(j: JsonView, name: Seq<char>) -> Option<Seq<char>> {
    match j {
        JsonView::Object(f) => match field_of(f, name) {
            Some(JsonView::Text(t)) => Some(t),
            _ => None,
        },
        _ => None,
    }
}

fn read_text_at(j: &Json, name: &str) -> (r: Option<String>)
    ensures
        opt_view(r) == text_at(j.model(), name@),
{
    match j {
        Json::Object(f) => {
            proof {
                lemma_object_model(*f);
            }
            match find_field(f, name) {
                Some(Json::Text(t)) => Some(t.clone()),
                _ => None,
            }
        },
        _ => None,
    }
}

/// The words of a refusal: its code and message, or the body itself where it
/// is no JSON.
pub open spec fn refusal_words(j: Option<JsonView>, body: Seq<char>) -> Seq<char> {
    match j {
        Some(v) => {
            let msg = match text_at(v, "message"@) {
                Some(m) => m,
                None => ""@,
            };
            match text_at(v, "error_code"@) {
                Some(c) => c + ": "@ + msg,
                None => msg,
            }
        },
        None => body,
    }
}

/// Puts the words of a refusal together from its parsed body.
pub fn refusal_text(j: &Option<Json>, body: &str) -> (r: String)
    ensures
        r@ == refusal_words(
            match j {
                Some(v) => Some(v.model()),
                None => None,
            },
            body@,
        ),
{
    match j {
        Some(v) => {
            let msg: String = match read_text_at(v, "message") {
                Some(m) => m,
                None => "".to_owned(),
            };
            match read_text_at(v, "error_code") {
                Some(c) => concat3(c.as_str(), ": ", msg.as_str()),
                None => msg,
            }
        },
        None => body.to_owned(),
    }
}

/// Puts the words of a refusal together from its body.
pub fn response_to_error_text(body: &str) -> (r: String)
    ensures
        r@ == refusal_words(json_of(body@), body@),
{
    refusal_text(&parse_json(body), body)
}

// ---------------------------------------------------------------------------
// What is promised of functions
// ---------------------------------------------------------------------------

proof fn lemma_words_differ()
    ensures
        "read"@ != "write"@,
        "sql"@ != "query"@,
{
    reveal_strlit("read");
    reveal_strlit("write");
    reveal_strlit("sql");
    reveal_strlit("query");
    assert("read"@.len() != "write"@.len() && "sql"@.len() != "query"@.len());
}

/// A form that names a mode or a kind by its own word means it; one that names none
/// means SQL that reads.
pub proof fn law_modes_and_kinds_are_read_back(form: RpcFormBody, m: RpcMode, k: RpcKind)
    ensures
        opt_view(form.mode) == Some(mode_text(m)) ==> mode_of(form) == m,
        opt_view(form.kind) == Some(kind_text(k)) ==> kind_of(form) == k,
        form.mode is None ==> mode_of(form) == RpcMode::Read,
        form.kind is None ==> kind_of(form) == RpcKind::Sql,
{
    lemma_words_differ();
}

/// The template is stored without the blanks around it.
pub open spec fn template_stored(query_json: Option<String>, form: RpcFormBody) -> bool {
    match form.query_json {
        None => query_json is None,
        Some(s) => if trimmed(s@).len() == 0 {
            query_json is None
        } else {
            query_json is Some && (query_json->0)@ == trimmed(s@)
        },
    }
}

/// A function is stored as the form says: under its name, with its parameters and its
/// description, open to anybody exactly where the mark is set. SQL and mode are written
/// for SQL alone; a function that is there is updated and another is created.
pub proof fn law_functions_are_stored_as_the_form_says(w: RpcWrite, form: RpcFormBody, exists: bool)
    requires
        written(w, form, exists),
    ensures
        w is Update <==> exists,
        w matches RpcWrite::Update {
            name,
            sql,
            params_json,
            description,
            anon_callable,
            mode,
            query_json,
        } ==> {
            &&& name@ == form.name@ && params_json@ == form.params_json@
            &&& opt_view(description) == opt_view(form.description)
            &&& anon_callable <==> form.anon_callable is Some
            &&& opt_view(form.kind) == Some("query"@) ==> sql is None && mode is None
            &&& opt_view(form.kind) != Some("query"@) ==> sql is Some && (sql->0)@ == form.sql@
                && mode is Some
            &&& mode is Some ==> (mode->0 == RpcMode::Write <==> opt_view(form.mode)
                == Some("write"@))
            &&& template_stored(query_json, form)
        },
        w matches RpcWrite::Create {
            name,
            sql,
            params_json,
            description,
            anon_callable,
            mode,
            kind,
            query_json,
        } ==> {
            &&& name@ == form.name@ && params_json@ == form.params_json@
            &&& opt_view(description) == opt_view(form.description)
            &&& anon_callable <==> form.anon_callable is Some
            &&& kind == RpcKind::Query <==> opt_view(form.kind) == Some("query"@)
            &&& kind == RpcKind::Query ==> sql@.len() == 0
            &&& kind == RpcKind::Sql ==> sql@ == form.sql@
            &&& mode == RpcMode::Write <==> opt_view(form.mode) == Some("write"@)
            &&& template_stored(query_json, form)
        },
{
    reveal_strlit("");
}

/// A form that is shown again says what was submitted, so that submitting it again
/// stores the same.
pub proof fn law_forms_come_back_as_submitted(
    r: RpcForm,
    form: RpcFormBody,
    editing: bool,
    error: Seq<char>,
    code: Option<Seq<char>>,
    again: RpcFormBody,
)
    requires
        shown_again(r, form, editing, error, code),
        opt_view(again.mode) == Some(r.form_mode@),
        opt_view(again.kind) == Some(r.form_kind@),
        opt_view(again.query_json) == Some(r.form_query_json@),
        r.form_anon_callable <==> again.anon_callable is Some,
    ensures
        r.editing == editing && opt_view(r.error) == Some(error) && opt_view(r.error_code) == code,
        r.form_name@ == form.name@ && r.form_sql@ == form.sql@,
        r.form_params_json@ == form.params_json@,
        mode_of(again) == mode_of(form),
        kind_of(again) == kind_of(form),
        form.query_json is Some ==> template_of(again) == template_of(form),
        again.anon_callable is Some <==> form.anon_callable is Some,
{
    lemma_words_differ();
}

/// A rejection is answered with the code that it holds, and SQL never with the code of
/// a template.
pub proof fn law_rejections_keep_their_code(msg: Seq<char>, kind: RpcKind)
    ensures
        has_part(msg, "RPC_KIND_INVALID"@) ==> rejection_code(msg, kind) == "RPC_KIND_INVALID"@,
        !has_part(msg, "RPC_KIND_INVALID"@) && kind == RpcKind::Sql ==> rejection_code(msg, kind)
            == "INVALID_SQL_FOR_MODE"@,
        !has_part(msg, "RPC_KIND_INVALID"@) && kind == RpcKind::Query && has_part(
            msg,
            "PROTECTED_COLLECTION"@,
        ) ==> rejection_code(msg, kind) == "PROTECTED_COLLECTION"@,
        !has_part(msg, "RPC_KIND_INVALID"@) && kind == RpcKind::Query && !has_part(
            msg,
            "PROTECTED_COLLECTION"@,
        ) && has_part(msg, "COLLECTION_NOT_FOUND"@) ==> rejection_code(msg, kind)
            == "COLLECTION_NOT_FOUND"@,
{
}

/// The functions that anybody may call are those that are marked.
pub proof fn law_open_functions_are_counted(rpcs: Seq<StoredRpc>, k: nat)
    requires
        k <= rpcs.len(),
    ensures
        anon_count(rpcs, k) == rpcs.take(k as int).filter(|r: StoredRpc| r.anon_callable).len(),
    decreases k,
{
    let f = |r: StoredRpc| r.anon_callable;
    reveal(Seq::filter);
    if k > 0 {
        law_open_functions_are_counted(rpcs, (k - 1) as nat);
        assert(rpcs.take(k as int).drop_last() =~= rpcs.take(k - 1));
        assert(rpcs.take(k as int).last() == rpcs[k - 1]);
    }
}

/// A number of rows that is offered is the one that a page has, and no page has another.
pub proof fn law_rows_are_as_offered(qs: RpcListQs, o: Seq<RpcPerPageOption>)
    requires
        choices(o, rows_per_page(qs)),
    ensures
        forall|i: int|
            0 <= i < o.len() && qs.per_page == Some((#[trigger] o[i]).value) ==> rows_per_page(qs)
                == o[i].value && o[i].selected,
        exists|i: int|
            0 <= i < o.len() && (#[trigger] o[i]).value == rows_per_page(qs) && o[i].selected,
        forall|i: int, j: int|
            0 <= i < j < o.len() ==> !((#[trigger] o[i]).selected && (#[trigger] o[j]).selected),
        qs.per_page is None ==> rows_per_page(qs) == 20,
{
    let n = rows_per_page(qs);
    if n == 20 {
        assert(o[0].selected);
    } else if n == 50 {
        assert(o[1].selected);
    } else if n == 100 {
        assert(o[2].selected);
    } else {
        assert(o[3].selected);
    }
}

/// A link of the pager leads to the list of the tenant, to the page of its number, and
/// keeps the number of rows where it is not the usual one.
pub proof fn law_pager_keeps_the_list(root: Seq<char>, tenant: Seq<char>, page: int, per_page: int)
    requires
        !list_url(root, tenant).contains('?'),
        page >= 0,
        per_page >= 0,
    ensures
        path_of(pager_url(root, tenant, page, per_page)) == list_url(root, tenant),
        per_page == 20 ==> params(pager_url(root, tenant, page, per_page)) == seq![
            "page="@ + dec(page as nat),
        ],
        per_page != 20 ==> params(pager_url(root, tenant, page, per_page)) == seq![
            "page="@ + dec(page as nat),
            "per_page="@ + dec(per_page as nat),
        ],
{
    reveal_strlit("/_rpc?page=");
    reveal_strlit("/_rpc");
    reveal_strlit("?");
    reveal_strlit("page=");
    reveal_strlit("&per_page=");
    reveal_strlit("&");
    reveal_strlit("per_page=");
    let base = list_url(root, tenant);
    let a = "page="@ + dec(page as nat);
    let b = "per_page="@ + dec(per_page as nat);
    lemma_number_param("page="@, page as nat);
    lemma_number_param("per_page="@, per_page as nat);
    lemma_first_param(base, a);
    assert(root + "/admin/tenants/"@ + tenant + "/_rpc?page="@ + dec(page as nat) =~= base + "?"@
        + a);
    lemma_next_param(base + "?"@ + a, b);
    assert(base + "?"@ + a + "&per_page="@ + dec(per_page as nat) =~= base + "?"@ + a + "&"@ + b);
    assert(seq![a].push(b) =~= seq![a, b]);
}

/// What was entered means a value of the type where it can, and is the text that it was
/// where it cannot; no text is lost but the empty one.
pub proof fn law_entered_text_means_its_value(ty: ParamType, s: Seq<char>, finite: bool)
    ensures
        coerced(ty, s, finite) is Null <==> s.len() == 0,
        coerced(ty, s, finite) matches CoercedView::Text(t) ==> t == s,
        coerced(ty, s, finite) matches CoercedView::Real(t) ==> t == s && finite,
        coerced(ty, s, finite) matches CoercedView::Integer(n) ==> signed_of(s) == Some(n),
        coerced(ty, s, finite) is Integer ==> ty is Integer,
        coerced(ty, s, finite) is Real ==> ty is Real,
        coerced(ty, s, finite) is Boolean ==> ty is Boolean,
        s.len() > 0 && ty is Integer && signed_of(s) is Some ==> coerced(ty, s, finite) is Integer,
        s.len() > 0 && ty is Real && finite ==> coerced(ty, s, finite) is Real,
        ty is Boolean && (s == "1"@ || s == "true"@ || s == "on"@ || s == "yes"@) ==> coerced(
            ty,
            s,
            finite,
        ) == CoercedView::Boolean(true),
        ty is Boolean && (s == "0"@ || s == "false"@ || s == "off"@ || s == "no"@) ==> coerced(
            ty,
            s,
            finite,
        ) == CoercedView::Boolean(false),
{
    reveal_strlit("1");
    reveal_strlit("true");
    reveal_strlit("on");
    reveal_strlit("yes");
    reveal_strlit("0");
    reveal_strlit("false");
    reveal_strlit("off");
    reveal_strlit("no");
    assert("1"@[0] == '1' && "true"@[0] == 't' && "on"@[1] == 'n' && "yes"@[0] == 'y');
    assert("0"@[0] == '0' && "false"@[0] == 'f' && "off"@[1] == 'f' && "no"@[0] == 'n');
}

/// The last field of a name is the one that counts.
pub proof fn law_the_last_field_counts(f: Seq<(Seq<char>, Seq<char>)>, i: int)
    requires
        0 <= i < f.len(),
        forall|j: int| i < j < f.len() ==> (#[trigger] f[j]).0 != f[i].0,
    ensures
        form_value(f, f[i].0) == Some(f[i].1),
    decreases f.len(),
{
    if i < f.len() - 1 {
        assert(f[f.len() - 1].0 != f[i].0);
        let head = f.drop_last();
        assert forall|j: int| i < j < head.len() implies (#[trigger] head[j]).0 != head[i].0 by {
            assert(head[j] == f[j]);
        }
        law_the_last_field_counts(head, i);
    }
}

/// A run is given a value for every parameter that something was entered for, under the
/// name of that parameter, and for no other.
pub proof fn law_runs_get_what_was_entered(
    params: Seq<ParamSpec>,
    form: RpcTestRunForm,
    finite: Seq<bool>,
    k: nat,
)
    requires
        k <= params.len(),
        finite.len() == params.len(),
    ensures
        forall|i: int|
            0 <= i < k && entered(form, (#[trigger] params[i]).name@).len() > 0 ==> values_of(
                params,
                form,
                finite,
                k,
            ).contains(
                (params[i].name@, coerced(params[i].ty, entered(form, params[i].name@), finite[i])),
            ),
        forall|v: (Seq<char>, CoercedView)| #[trigger]
            values_of(params, form, finite, k).contains(v) ==> exists|i: int|
                0 <= i < k && (#[trigger] params[i]).name@ == v.0 && v.1 == coerced(
                    params[i].ty,
                    entered(form, params[i].name@),
                    finite[i],
                ) && !(v.1 is Null),
    decreases k,
{
    if k > 0 {
        let n = (k - 1) as nat;
        law_runs_get_what_was_entered(params, form, finite, n);
        let before = values_of(params, form, finite, n);
        let now = values_of(params, form, finite, k);
        let p = params[k - 1];
        let x = (p.name@, coerced(p.ty, entered(form, p.name@), finite[k - 1]));
        assert forall|v: (Seq<char>, CoercedView)| before.contains(v) implies now.contains(v) by {
            let j = choose|j: int| 0 <= j < before.len() && before[j] == v;
            assert(now[j] == v);
        }
        assert forall|i: int|
            0 <= i < k && entered(form, (#[trigger] params[i]).name@).len() > 0 implies now.contains(
            (params[i].name@, coerced(params[i].ty, entered(form, params[i].name@), finite[i])),
        ) by {
            if i == k - 1 {
                assert(now[before.len() as int] == x);
            }
        }
        assert forall|v: (Seq<char>, CoercedView)| #[trigger] now.contains(v) implies exists|i: int|
            0 <= i < k && (#[trigger] params[i]).name@ == v.0 && v.1 == coerced(
                params[i].ty,
                entered(form, params[i].name@),
                finite[i],
            ) && !(v.1 is Null) by {
            let j = choose|j: int| 0 <= j < now.len() && now[j] == v;
            if j < before.len() {
                assert(before[j] == v);
                assert(before.contains(v));
                let i = choose|i: int|
                    0 <= i < n && (#[trigger] params[i]).name@ == v.0 && v.1 == coerced(
                        params[i].ty,
                        entered(form, params[i].name@),
                        finite[i],
                    ) && !(v.1 is Null);
                assert(params[i].name@ == v.0);
            } else {
                assert(params[k - 1].name@ == v.0);
            }
        }
    }
}

/// A result is shown with all its columns and rows, every cell in its place: a text as
/// it is, and nothing as `NULL`.
pub proof fn law_results_are_shown_whole(t: RpcTestResult, q: QueryResult, i: int, j: int)
    requires
        shown_result(t, q),
        0 <= i < q.rows@.len(),
        0 <= j < q.rows@[i]@.len(),
    ensures
        t.column_names == q.column_names && t.row_count == q.rows@.len(),
        t.truncated == q.truncated,
        t.rows@.len() == q.rows@.len() && t.rows@[i]@.len() == q.rows@[i]@.len(),
        q.rows@[i]@[j] matches Cell::Text(s) ==> t.rows@[i]@[j]@ == s@,
        q.rows@[i]@[j] matches Cell::Other(s) ==> t.rows@[i]@[j]@ == s@,
        q.rows@[i]@[j] is Null ==> t.rows@[i]@[j]@ == "NULL"@,
{
    let got = views(t.rows@[i]@);
    assert(got == row_texts(q.rows@[i]@));
    assert(got.len() == t.rows@[i]@.len());
    assert(got[j] == t.rows@[i]@[j]@);
}

/// A parameter is shown with its own name, type and default, and with what was entered
/// for it.
pub proof fn law_parameters_are_shown_as_declared(
    t: RpcTestParam,
    p: ParamSpec,
    form: Option<RpcTestRunForm>,
)
    requires
        shown_param(t, p, form),
    ensures
        t.name@ == p.name@ && t.required == p.required,
        p.default_json is Some ==> t.default_display@ == (p.default_json->0)@,
        form is None ==> t.value@.len() == 0,
        form is Some && is_set(form_fields((form->0).fields@), "p_"@ + p.name@) ==> Some(t.value@)
            == form_value(form_fields((form->0).fields@), "p_"@ + p.name@),
{
    reveal_strlit("");
}

/// A refusal is worded by its code and its message; what is no JSON speaks for itself.
pub proof fn law_refusals_speak(j: Option<JsonView>, body: Seq<char>)
    ensures
        j is None ==> refusal_words(j, body) == body,
        j matches Some(v) ==> (text_at(v, "message"@) matches Some(m) ==> {
            &&& text_at(v, "error_code"@) matches Some(c) ==> refusal_words(j, body) == c + ": "@ + m
            &&& text_at(v, "error_code"@) is None ==> refusal_words(j, body) == m
        }),
{
}

/// Each type of a parameter has its own word.
pub proof fn law_types_have_their_words(a: ParamType, b: ParamType)
    ensures
        type_text(a) == type_text(b) ==> a == b,
        type_text(ParamType::Integer) == "integer"@,
        type_text(ParamType::Boolean) == "boolean"@,
{
    reveal_strlit("text");
    reveal_strlit("integer");
    reveal_strlit("real");
    reveal_strlit("boolean");
    assert("text"@[0] == 't' && "integer"@[0] == 'i' && "real"@[0] == 'r' && "boolean"@[0] == 'b');
}

/// A statement that failed is told of with the words of the failure; one that gave too
/// much is told of by its code, and any other by its number.
pub proof fn law_failed_statements_are_told_of(t: &Translator, index: usize, message: Seq<char>)
    ensures
        has_suffix(statement_error(t, index, message, true), message),
        has_suffix(statement_error(t, index, message, false), message),
        has_prefix(statement_error(t, index, message, true), "CAPTURE_LIMIT_EXCEEDED: "@),
        has_prefix(statement_error(t, index, message, false), failed_prefix(t, index)),
{
    let a = statement_error(t, index, message, true);
    let b = statement_error(t, index, message, false);
    let c = "CAPTURE_LIMIT_EXCEEDED: "@;
    assert(a.subrange(0, c.len() as int) =~= c);
    assert(a.subrange(a.len() - message.len(), a.len() as int) =~= message);
    assert(b.subrange(b.len() - message.len(), b.len() as int) =~= message);
    assert(b.subrange(0, failed_prefix(t, index).len() as int) =~= failed_prefix(t, index));
}

/// The fields of a form are those that were sent, each name with its own value, in their
/// order.
pub proof fn law_fields_keep_their_names(v: Seq<(String, String)>, i: int)
    requires
        0 <= i < v.len(),
    ensures
        form_fields(v).len() == v.len(),
        form_fields(v)[i].0 == v[i].0@ && form_fields(v)[i].1 == v[i].1@,
{
}

} // verus!
