//! The collections of a tenant: their page, and the settings made there.

use vstd::prelude::*;
use crate::backups::{plain, PlainRefusal};
use crate::json::{json_string, text_to_json, Json};
use crate::reply::{refusal, refuse, refuse_with, Refusal};
use crate::script_json::{json_for_script, script_safe};
use crate::text::{
    contains, has_part, has_prefix, has_suffix, holds, opt_copy, opt_view, str_eq, view_or, views,
};

verus! {

// ---------------------------------------------------------------------------
// Columns that are never shown
// ---------------------------------------------------------------------------

/// What stands in the place of a secret.
pub const MASK: &'static str = "\u{25cf}\u{25cf}\u{25cf}\u{25cf}";

/// The column of that collection holds secrets.
pub open spec fn secret_column(coll: Seq<char>, column: Seq<char>) -> bool {
    ||| coll == "_system_users"@ && column == "password_hash"@
    ||| coll == "_system_oauth_providers"@ && column == "client_secret"@
    ||| coll == "_system_webhooks"@ && column == "secret"@
}

fn is_secret_column(coll: &str, column: &str) -> (r: bool)
    ensures
        r == secret_column(coll@, column@),
{
    (str_eq(coll, "_system_users") && str_eq(column, "password_hash")) || (str_eq(
        coll,
        "_system_oauth_providers",
    ) && str_eq(column, "client_secret")) || (str_eq(coll, "_system_webhooks") && str_eq(
        column,
        "secret",
    ))
}

/// A cell as it is shown: a secret is masked.
pub open spec fn shown_cell(
    coll: Seq<char>,
    columns: Seq<Seq<char>>,
    row: Seq<Seq<char>>,
    i: int,
) -> Seq<char> {
    if i < columns.len() && secret_column(coll, columns[i]) {
        MASK@
    } else {
        row[i]
    }
}

/// The rows as they are shown.
pub open spec fn shown_rows(
    coll: Seq<char>,
    columns: Seq<Seq<char>>,
    rows: Seq<Vec<String>>,
    shown: Seq<Vec<String>>,
) -> bool {
    shown.len() == rows.len() && forall|i: int|
        0 <= i < rows.len() ==> {
            &&& (#[trigger] shown[i])@.len() == rows[i]@.len()
            &&& forall|j: int|
                0 <= j < rows[i]@.len() ==> (#[trigger] shown[i]@[j])@ == shown_cell(
                    coll,
                    columns,
                    views(rows[i]@),
                    j,
                )
        }
}

fn mask_row(coll: &str, columns: &Vec<String>, row: &Vec<String>) -> (r: Vec<String>)
    ensures
        r@.len() == row@.len(),
        forall|j: int|
            0 <= j < row@.len() ==> (#[trigger] r@[j])@ == shown_cell(
                coll@,
                views(columns@),
                views(row@),
                j,
            ),
{
    let mut r: Vec<String> = Vec::new();
    let mut j: usize = 0;
    while j < row.len()
        invariant
            j <= row@.len(),
            r@.len() == j,
            forall|k: int|
                0 <= k < j ==> (#[trigger] r@[k])@ == shown_cell(
                    coll@,
                    views(columns@),
                    views(row@),
                    k,
                ),
        decreases row@.len() - j,
    {
        if j < columns.len() && is_secret_column(coll, columns[j].as_str()) {
            r.push(MASK.to_owned());
        } else {
            r.push(row[j].clone());
        }
        j = j + 1;
    }
    r
}

/// Puts a mask in the place of every cell of a column that holds secrets.
pub fn mask_sensitive_columns(coll: &str, column_names: Vec<String>, rows: Vec<Vec<String>>) -> (r: (
    Vec<String>,
    Vec<Vec<String>>,
))
    ensures
        r.0 == column_names,
        shown_rows(coll@, views(column_names@), rows@, r.1@),
{
    let mut shown: Vec<Vec<String>> = Vec::new();
    let mut i: usize = 0;
    while i < rows.len()
        invariant
            i <= rows@.len(),
            shown@.len() == i,
            forall|n: int|
                0 <= n < i ==> {
                    &&& (#[trigger] shown@[n])@.len() == rows@[n]@.len()
                    &&& forall|j: int|
                        0 <= j < rows@[n]@.len() ==> (#[trigger] shown@[n]@[j])@ == shown_cell(
                            coll@,
                            views(column_names@),
                            views(rows@[n]@),
                            j,
                        )
                },
        decreases rows@.len() - i,
    {
        let row: Vec<String> = mask_row(coll, &column_names, &rows[i]);
        shown.push(row);
        i = i + 1;
    }
    (column_names, shown)
}

// ---------------------------------------------------------------------------
// JSON in the page
// ---------------------------------------------------------------------------

/// The three values that the page's script begins with: the fields, the
/// tenant and the collection. The fields come as JSON, if that could be made;
/// their descriptions are free text, so all three are made safe.
pub fn editor_json_payloads(fields_json: Option<String>, tenant_id: &str, coll_name: &str) -> (r: (
    String,
    String,
    String,
))
    ensures
        r.0@ == script_safe(view_or(fields_json, "null"@)),
        r.1@ == script_safe(json_string(tenant_id@)),
        r.2@ == script_safe(json_string(coll_name@)),
{
    (
        json_for_script(fields_json),
        json_for_script(Some(text_to_json(tenant_id))),
        json_for_script(Some(text_to_json(coll_name))),
    )
}

/// The JSON of an optional text.
pub open spec fn opt_json(o: Option<String>) -> Seq<char> {
    match o {
        Some(s) => json_string(s@),
        None => "null"@,
    }
}

/// The two values for the panel of policies: the policies, which come as
/// JSON if that could be made, and the field that names the owner. A policy
/// can hold any text, so both are made safe.
pub fn policy_json_payloads(policies_json: Option<String>, owner_field: &Option<String>) -> (r: (
    String,
    String,
))
    ensures
        r.0@ == script_safe(view_or(policies_json, "null"@)),
        r.1@ == script_safe(opt_json(*owner_field)),
{
    let owner: String = match owner_field {
        Some(s) => text_to_json(s.as_str()),
        None => "null".to_owned(),
    };
    (json_for_script(policies_json), json_for_script(Some(owner)))
}

// ---------------------------------------------------------------------------
// The page of a collection
// ---------------------------------------------------------------------------

#[derive(Debug)]
pub struct BrowseQs {
    pub filter: Option<String>,
    pub sort: Option<String>,
    pub page: Option<u32>,
    pub per_page: Option<u32>,
    pub tab: Option<String>,
    pub desc_error: Option<String>,
}

/// The address of a collection.
pub open spec fn collection_url(root: Seq<char>, tenant: Seq<char>, coll: Seq<char>) -> Seq<char> {
    root + "/admin/tenants/"@ + tenant + "/collections/"@ + coll
}

fn write_collection_url(root: &str, tenant: &str, coll: &str) -> (r: String)
    ensures
        r@ == collection_url(root@, tenant@, coll@),
{
    let mut s: String = root.to_owned();
    s.append("/admin/tenants/");
    s.append(tenant);
    s.append("/collections/");
    s.append(coll);
    s
}

/// The view that took the place of a tab.
pub open spec fn view_for_tab(tab: Option<Seq<char>>) -> Option<Seq<char>> {
    match tab {
        Some(t) => if t == "schema"@ || t == "indexes"@ {
            Some("definition"@)
        } else if t == "anon"@ || t == "realtime"@ || t == "explain"@ {
            Some("table"@)
        } else {
            None
        },
        None => None,
    }
}

/// Where a request for an old tab is sent.
pub fn legacy_redirect(qs: &BrowseQs, root: &str, tenant_id: &str, coll_name: &str) -> (r: Option<String>)
    ensures
        opt_view(r) == (match view_for_tab(opt_view(qs.tab)) {
            Some(v) => Some(collection_url(root@, tenant_id@, coll_name@) + "?view="@ + v),
            None => None,
        }),
{
    let view: &'static str = match &qs.tab {
        Some(t) => {
            let t: &str = t.as_str();
            if str_eq(t, "schema") || str_eq(t, "indexes") {
                "definition"
            } else if str_eq(t, "anon") || str_eq(t, "realtime") || str_eq(t, "explain") {
                "table"
            } else {
                return None;
            }
        },
        None => {
            return None;
        },
    };
    let mut s: String = write_collection_url(root, tenant_id, coll_name);
    s.append("?view=");
    s.append(view);
    Some(s)
}

fn words(status: u16, message: &str) -> (r: PlainRefusal)
    ensures
        plain(r, status, message@),
{
    PlainRefusal { status, message: message.to_owned() }
}

/// What the page of all collections does: it goes to the first of them, or
/// says that there is none.
#[derive(Debug)]
pub enum CollectionsPage {
    Go(String),
    Empty { tenant_name: String },
}

/// Decides what the page of all collections does.
pub fn collections_page(
    tenant_active: bool,
    tenant_name: Option<String>,
    tenant_id: &str,
    listed: Result<Vec<String>, String>,
    root: &str,
) -> (r: Result<CollectionsPage, PlainRefusal>)
    ensures
        if !tenant_active {
            r is Err && plain(r->Err_0, 404, "no such tenant"@)
        } else {
            match listed {
                Err(e) => r is Err && plain(r->Err_0, 500, e@),
                Ok(l) => if l@.len() > 0 {
                    r matches Ok(CollectionsPage::Go(to)) && to@ == collection_url(
                        root@,
                        tenant_id@,
                        l@[0]@,
                    )
                } else {
                    r matches Ok(CollectionsPage::Empty { tenant_name: n }) && n@ == view_or(
                        tenant_name,
                        tenant_id@,
                    )
                },
            }
        },
{
    if !tenant_active {
        return Err(words(404, "no such tenant"));
    }
    match listed {
        Err(e) => Err(PlainRefusal { status: 500, message: e }),
        Ok(l) => if l.len() > 0 {
            Ok(CollectionsPage::Go(write_collection_url(root, tenant_id, l[0].as_str())))
        } else {
            let n: String = match tenant_name {
                Some(n) => n,
                None => tenant_id.to_owned(),
            };
            Ok(CollectionsPage::Empty { tenant_name: n })
        },
    }
}

/// What the tables say of a collection.
#[derive(Debug)]
pub enum CollectionLookup {
    Found,
    Missing,
    Failed(String),
}

/// Checks that a collection can be shown.
pub fn collection_rows_page(
    tenant_name: Option<String>,
    opened: Result<(), String>,
    lookup: CollectionLookup,
    listed: Result<(), String>,
) -> (r: Result<String, PlainRefusal>)
    ensures
        match tenant_name {
            None => r is Err && plain(r->Err_0, 404, "no such tenant"@),
            Some(n) => match (opened, lookup, listed) {
                (Err(e), _, _) => r is Err && plain(r->Err_0, 500, e@),
                (Ok(_), CollectionLookup::Missing, _) => r is Err && plain(
                    r->Err_0,
                    404,
                    "collection not found"@,
                ),
                (Ok(_), CollectionLookup::Failed(e), _) => r is Err && plain(r->Err_0, 500, e@),
                (Ok(_), CollectionLookup::Found, Err(e)) => r is Err && plain(r->Err_0, 500, e@),
                (Ok(_), CollectionLookup::Found, Ok(_)) => r == Ok::<String, PlainRefusal>(n),
            },
        },
{
    let n: String = match tenant_name {
        Some(n) => n,
        None => {
            return Err(words(404, "no such tenant"));
        },
    };
    if let Err(e) = opened {
        return Err(PlainRefusal { status: 500, message: e });
    }
    match lookup {
        CollectionLookup::Missing => Err(words(404, "collection not found")),
        CollectionLookup::Failed(e) => Err(PlainRefusal { status: 500, message: e }),
        CollectionLookup::Found => match listed {
            Err(e) => Err(PlainRefusal { status: 500, message: e }),
            Ok(_) => Ok(n),
        },
    }
}

/// A field of a collection.
#[derive(Debug)]
pub struct Field {
    pub name: String,
    pub sql_type: String,
    pub nullable: bool,
    pub pk: bool,
    pub default_value: Option<String>,
    pub foreign_key: Option<String>,
    pub description: Option<String>,
}

/// An index of a collection.
#[derive(Debug)]
pub struct IndexInfo {
    pub name: String,
    pub fields: Vec<String>,
}

/// A field with the mark that it stands in an index.
#[derive(Debug)]
pub struct FieldRow {
    pub name: String,
    pub sql_type: String,
    pub nullable: bool,
    pub pk: bool,
    pub foreign_key: Option<String>,
    pub default_value: Option<String>,
    pub is_indexed: bool,
    pub description: Option<String>,
}

/// The name stands in one of the indexes.
pub open spec fn indexed(indices: Seq<IndexInfo>, name: Seq<char>) -> bool {
    exists|i: int| 0 <= i < indices.len() && views((#[trigger] indices[i]).fields@).contains(name)
}

fn is_indexed(indices: &Vec<IndexInfo>, name: &str) -> (r: bool)
    ensures
        r == indexed(indices@, name@),
{
    let mut i: usize = 0;
    while i < indices.len()
        invariant
            i <= indices@.len(),
            forall|k: int|
                0 <= k < i ==> !views((#[trigger] indices@[k]).fields@).contains(name@),
        decreases indices@.len() - i,
    {
        if holds(&indices[i].fields, name) {
            assert(views(indices@[i as int].fields@).contains(name@));
            return true;
        }
        i = i + 1;
    }
    false
}

/// The row of a field.
pub open spec fn field_row(r: FieldRow, f: Field, indices: Seq<IndexInfo>) -> bool {
    &&& r.name@ == f.name@
    &&& r.sql_type@ == f.sql_type@
    &&& r.nullable == f.nullable
    &&& r.pk == f.pk
    &&& opt_view(r.foreign_key) == opt_view(f.foreign_key)
    &&& opt_view(r.default_value) == opt_view(f.default_value)
    &&& r.is_indexed == indexed(indices, f.name@)
    &&& opt_view(r.description) == opt_view(f.description)
}

/// Marks the fields that stand in an index.
pub fn fields_with_badges(fields: &Vec<Field>, indices: &Vec<IndexInfo>) -> (r: Vec<FieldRow>)
    ensures
        r@.len() == fields@.len(),
        forall|i: int| 0 <= i < r@.len() ==> field_row(#[trigger] r@[i], fields@[i], indices@),
{
    let mut r: Vec<FieldRow> = Vec::new();
    let mut i: usize = 0;
    while i < fields.len()
        invariant
            i <= fields@.len(),
            r@.len() == i,
            forall|k: int| 0 <= k < i ==> field_row(#[trigger] r@[k], fields@[k], indices@),
        decreases fields@.len() - i,
    {
        let f: &Field = &fields[i];
        r.push(
            FieldRow {
                name: f.name.clone(),
                sql_type: f.sql_type.clone(),
                nullable: f.nullable,
                pk: f.pk,
                foreign_key: opt_copy(&f.foreign_key),
                default_value: opt_copy(&f.default_value),
                is_indexed: is_indexed(indices, f.name.as_str()),
                description: opt_copy(&f.description),
            },
        );
        i = i + 1;
    }
    r
}

// ---------------------------------------------------------------------------
// What anybody may do
// ---------------------------------------------------------------------------

#[derive(Debug)]
pub struct AnonCapsForm {
    pub caps: Vec<String>,
}

/// What somebody without a key may do with a collection.
#[derive(Clone, Copy, Debug, PartialEq, Eq, Structural)]
pub struct AnonCaps {
    pub select: bool,
    pub insert: bool,
    pub update: bool,
    pub delete: bool,
}

/// Reads the form. Verbs that there are not are passed over.
pub fn read_anon_caps(form: &AnonCapsForm) -> (r: AnonCaps)
    ensures
        r.select == views(form.caps@).contains("select"@),
        r.insert == views(form.caps@).contains("insert"@),
        r.update == views(form.caps@).contains("update"@),
        r.delete == views(form.caps@).contains("delete"@),
{
    AnonCaps {
        select: holds(&form.caps, "select"),
        insert: holds(&form.caps, "insert"),
        update: holds(&form.caps, "update"),
        delete: holds(&form.caps, "delete"),
    }
}

/// The four verbs in their order, each with whether it is allowed.
pub fn anon_cap_choices(caps: AnonCaps) -> (r: Vec<(&'static str, bool)>)
    ensures
        r@.len() == 4,
        r@[0].0@ == "select"@ && r@[0].1 == caps.select,
        r@[1].0@ == "insert"@ && r@[1].1 == caps.insert,
        r@[2].0@ == "update"@ && r@[2].1 == caps.update,
        r@[3].0@ == "delete"@ && r@[3].1 == caps.delete,
{
    let mut r: Vec<(&'static str, bool)> = Vec::new();
    r.push(("select", caps.select));
    r.push(("insert", caps.insert));
    r.push(("update", caps.update));
    r.push(("delete", caps.delete));
    r
}

/// What a setting does, in this order.
#[derive(Clone, Copy, Debug, PartialEq, Eq, Structural)]
pub enum SettingStep {
    WriteCaps(AnonCaps),
    WriteRealtime(bool),
    /// Forgets what is remembered of the collection.
    ForgetSchema,
    /// Ends the streams of the collection.
    EndStreams,
}

/// Plans a change of what anybody may do.
pub fn update_anon_caps(tenant_active: bool, form: &AnonCapsForm) -> (r: Result<
    Vec<SettingStep>,
    PlainRefusal,
>)
    ensures
        if !tenant_active {
            r is Err && plain(r->Err_0, 404, "no such tenant"@)
        } else {
            &&& r matches Ok(steps)
            &&& steps@.len() == 2
            &&& steps@[0] matches SettingStep::WriteCaps(c)
            &&& c.select == views(form.caps@).contains("select"@)
            &&& c.insert == views(form.caps@).contains("insert"@)
            &&& c.update == views(form.caps@).contains("update"@)
            &&& c.delete == views(form.caps@).contains("delete"@)
            &&& steps@[1] == SettingStep::ForgetSchema
        },
{
    if !tenant_active {
        return Err(words(404, "no such tenant"));
    }
    let mut steps: Vec<SettingStep> = Vec::new();
    steps.push(SettingStep::WriteCaps(read_anon_caps(form)));
    steps.push(SettingStep::ForgetSchema);
    Ok(steps)
}

#[derive(Debug)]
pub struct RealtimeForm {
    pub enabled: Option<String>,
}

/// The steps of a change of the streams of a collection. What is remembered
/// is forgotten before the streams end, so that whoever connects in between
/// sees the new setting.
pub open spec fn realtime_steps(enabled: bool) -> Seq<SettingStep> {
    let both = seq![SettingStep::WriteRealtime(enabled), SettingStep::ForgetSchema];
    if enabled {
        both
    } else {
        both.push(SettingStep::EndStreams)
    }
}

/// Plans a change of the streams of a collection.
pub fn update_realtime(tenant_active: bool, form: &RealtimeForm) -> (r: Result<
    Vec<SettingStep>,
    PlainRefusal,
>)
    ensures
        if !tenant_active {
            r is Err && plain(r->Err_0, 404, "no such tenant"@)
        } else {
            r is Ok && r->Ok_0@ == realtime_steps(form.enabled is Some)
        },
{
    if !tenant_active {
        return Err(words(404, "no such tenant"));
    }
    let enabled: bool = form.enabled.is_some();
    let mut steps: Vec<SettingStep> = Vec::new();
    steps.push(SettingStep::WriteRealtime(enabled));
    steps.push(SettingStep::ForgetSchema);
    if !enabled {
        steps.push(SettingStep::EndStreams);
    }
    assert(steps@ =~= realtime_steps(enabled));
    Ok(steps)
}

/// Streams end only after the setting is written and what was remembered of
/// the collection is forgotten.
pub proof fn law_streams_end_last(enabled: bool, i: int)
    requires
        0 <= i < realtime_steps(enabled).len(),
        realtime_steps(enabled)[i] == SettingStep::EndStreams,
    ensures
        !enabled,
        exists|j: int| 0 <= j < i && realtime_steps(enabled)[j] == SettingStep::ForgetSchema,
        exists|j: int| 0 <= j < i && realtime_steps(enabled)[j] == SettingStep::WriteRealtime(false),
{
    let s = realtime_steps(enabled);
    assert(s[0] == SettingStep::WriteRealtime(enabled));
    assert(s[1] == SettingStep::ForgetSchema);
}

/// The page to go to after a change of a setting.
pub fn setting_url(root: &str, tenant_id: &str, coll_name: &str, tab: &str) -> (r: String)
    ensures
        r@ == collection_url(root@, tenant_id@, coll_name@) + "?tab="@ + tab@,
{
    let mut s: String = write_collection_url(root, tenant_id, coll_name);
    s.append("?tab=");
    s.append(tab);
    s
}

// ---------------------------------------------------------------------------
// Policies
// ---------------------------------------------------------------------------

/// The policies of a collection. One that is absent is removed.
#[derive(Debug)]
pub struct AdminPoliciesBody {
    pub select: Option<Json>,
    pub insert: Option<Json>,
    pub update: Option<Json>,
    pub delete: Option<Json>,
}

/// What the check of the four policies found: the words about each that is
/// wrong.
#[derive(Debug)]
pub struct PolicyFaults {
    pub select: Option<String>,
    pub insert: Option<String>,
    pub update: Option<String>,
    pub delete: Option<String>,
}

/// The words about the first policy that is wrong.
pub open spec fn first_fault(body: AdminPoliciesBody, f: PolicyFaults) -> Option<Seq<char>> {
    if body.select is Some && f.select is Some {
        opt_view(f.select)
    } else if body.insert is Some && f.insert is Some {
        opt_view(f.insert)
    } else if body.update is Some && f.update is Some {
        opt_view(f.update)
    } else if body.delete is Some && f.delete is Some {
        opt_view(f.delete)
    } else {
        None
    }
}

/// Decides a change of the policies: all four are written, or none.
pub fn admin_update_policies(
    tenant_active: bool,
    protected: bool,
    opened: Result<(), String>,
    lookup: CollectionLookup,
    body: AdminPoliciesBody,
    faults: PolicyFaults,
) -> (r: Result<AdminPoliciesBody, PolicyRefusal>)
    ensures
        if !tenant_active {
            r is Err && r->Err_0 is Words && plain(r->Err_0->Words_0, 404, "no such tenant"@)
        } else if protected {
            r is Err && r->Err_0 is Coded && r->Err_0->Coded_0@ == refusal(
                403,
                "PROTECTED_COLLECTION"@,
                "cannot set policies on a _system_* collection"@,
            )
        } else {
            match (opened, lookup) {
                (Err(e), _) => r is Err && r->Err_0 is Words && plain(
                    r->Err_0->Words_0,
                    500,
                    e@,
                ),
                (Ok(_), CollectionLookup::Failed(e)) => r is Err && r->Err_0 is Coded
                    && r->Err_0->Coded_0@ == refusal(500, "DB_ERROR"@, e@),
                (Ok(_), CollectionLookup::Missing) => r is Err && r->Err_0 is Coded
                    && r->Err_0->Coded_0@ == refusal(
                    404,
                    "COLLECTION_NOT_FOUND"@,
                    "no such collection"@,
                ),
                (Ok(_), CollectionLookup::Found) => match first_fault(body, faults) {
                    Some(m) => r is Err && r->Err_0 is Coded && r->Err_0->Coded_0@ == refusal(
                        400,
                        "POLICY_INVALID"@,
                        m,
                    ),
                    None => r == Ok::<AdminPoliciesBody, PolicyRefusal>(body),
                },
            }
        },
{
    if !tenant_active {
        return Err(PolicyRefusal::Words(words(404, "no such tenant")));
    }
    if protected {
        return Err(
            PolicyRefusal::Coded(
                refuse(
                    403,
                    "PROTECTED_COLLECTION",
                    "cannot set policies on a _system_* collection",
                ),
            ),
        );
    }
    if let Err(e) = opened {
        return Err(PolicyRefusal::Words(PlainRefusal { status: 500, message: e }));
    }
    match lookup {
        CollectionLookup::Failed(e) => Err(PolicyRefusal::Coded(refuse_with(500, "DB_ERROR", e))),
        CollectionLookup::Missing => Err(
            PolicyRefusal::Coded(refuse(404, "COLLECTION_NOT_FOUND", "no such collection")),
        ),
        CollectionLookup::Found => {
            let fault: Option<String> = if body.select.is_some() && faults.select.is_some() {
                faults.select
            } else if body.insert.is_some() && faults.insert.is_some() {
                faults.insert
            } else if body.update.is_some() && faults.update.is_some() {
                faults.update
            } else if body.delete.is_some() && faults.delete.is_some() {
                faults.delete
            } else {
                None
            };
            match fault {
                Some(m) => Err(PolicyRefusal::Coded(refuse_with(400, "POLICY_INVALID", m))),
                None => Ok(body),
            }
        },
    }
}

/// A refusal in plain words, or with a code.
#[derive(Debug)]
pub enum PolicyRefusal {
    Words(PlainRefusal),
    Coded(Refusal),
}

// ---------------------------------------------------------------------------
// Indexes
// ---------------------------------------------------------------------------

#[derive(Debug)]
pub struct AdminCreateIndexBody {
    pub fields: Vec<String>,
    pub unique: Option<bool>,
    pub force: Option<bool>,
}

/// The two marks of a new index, which are off where they are not given.
pub fn index_marks(body: &AdminCreateIndexBody) -> (r: (bool, bool))
    ensures
        r.0 == (body.unique == Some(true)),
        r.1 == (body.force == Some(true)),
{
    (
        match body.unique {
            Some(b) => b,
            None => false,
        },
        match body.force {
            Some(b) => b,
            None => false,
        },
    )
}

/// The status and the code of a failure with an index, by its words.
pub open spec fn index_fault(msg: Seq<char>) -> (u16, Seq<char>) {
    if has_part(msg, "no such collection"@) || has_part(msg, "no such index"@) {
        (404, "NOT_FOUND"@)
    } else if has_part(msg, "not found on collection"@) {
        (404, "FIELD_NOT_FOUND"@)
    } else if has_part(msg, "LARGE_TABLE"@) {
        (409, "LARGE_TABLE"@)
    } else if has_part(msg, "already exists"@) {
        (409, "INDEX_EXISTS"@)
    } else if has_part(msg, "UNIQUE"@) || has_part(msg, "unique"@) {
        (409, "UNIQUE_VIOLATION"@)
    } else if has_part(msg, "INVALID_PARAMS"@) || has_part(msg, "must be non-empty"@) || has_part(
        msg,
        "non-empty"@,
    ) || has_part(msg, "duplicate"@) {
        (400, "INVALID_PARAMS"@)
    } else if has_part(msg, "invalid identifier"@) {
        (400, "INVALID_IDENTIFIER"@)
    } else {
        (500, "INTERNAL"@)
    }
}

/// Answers a failure with an index.
pub fn map_index_admin_error(msg: &str) -> (r: Refusal)
    ensures
        r@ == refusal(index_fault(msg@).0, index_fault(msg@).1, msg@),
{
    if contains(msg, "no such collection") || contains(msg, "no such index") {
        refuse(404, "NOT_FOUND", msg)
    } else if contains(msg, "not found on collection") {
        refuse(404, "FIELD_NOT_FOUND", msg)
    } else if contains(msg, "LARGE_TABLE") {
        refuse(409, "LARGE_TABLE", msg)
    } else if contains(msg, "already exists") {
        refuse(409, "INDEX_EXISTS", msg)
    } else if contains(msg, "UNIQUE") || contains(msg, "unique") {
        refuse(409, "UNIQUE_VIOLATION", msg)
    } else if contains(msg, "INVALID_PARAMS") || contains(msg, "must be non-empty") || contains(
        msg,
        "non-empty",
    ) || contains(msg, "duplicate") {
        refuse(400, "INVALID_PARAMS", msg)
    } else if contains(msg, "invalid identifier") {
        refuse(400, "INVALID_IDENTIFIER", msg)
    } else {
        refuse(500, "INTERNAL", msg)
    }
}

/// The code of a plan that could not be made, by the words of the failure.
pub open spec fn explain_code(msg: Seq<char>) -> Seq<char> {
    if has_part(msg, "not authorized"@) || has_part(msg, "authorizer"@) || has_part(
        msg,
        "prohibited"@,
    ) {
        "SQL_NOT_ALLOWED"@
    } else if has_part(msg, "syntax"@) || has_part(msg, "near"@) {
        "SQL_PARSE_ERROR"@
    } else {
        "SQL_ERROR"@
    }
}

/// Answers a plan that could not be made.
pub fn explain_failed(msg: &str) -> (r: Refusal)
    ensures
        r@ == refusal(400, explain_code(msg@), msg@),
{
    if contains(msg, "not authorized") || contains(msg, "authorizer") || contains(
        msg,
        "prohibited",
    ) {
        refuse(400, "SQL_NOT_ALLOWED", msg)
    } else if contains(msg, "syntax") || contains(msg, "near") {
        refuse(400, "SQL_PARSE_ERROR", msg)
    } else {
        refuse(400, "SQL_ERROR", msg)
    }
}

/// Checks the tenant of a request about an index.
pub fn check_index_tenant(tenant_active: bool, opened: Result<(), String>) -> (r: Result<
    (),
    PlainRefusal,
>)
    ensures
        if !tenant_active {
            r is Err && plain(r->Err_0, 404, "no such tenant"@)
        } else {
            match opened {
                Err(e) => r is Err && plain(r->Err_0, 500, e@),
                Ok(_) => r is Ok,
            }
        },
{
    if !tenant_active {
        return Err(words(404, "no such tenant"));
    }
    match opened {
        Err(e) => Err(PlainRefusal { status: 500, message: e }),
        Ok(_) => Ok(()),
    }
}

// ---------------------------------------------------------------------------
// Descriptions
// ---------------------------------------------------------------------------

#[derive(Debug)]
pub struct DescriptionForm {
    pub description: String,
}

/// What is described.
#[derive(Clone, Copy, Debug, PartialEq, Eq, Structural)]
pub enum Described {
    Collection,
    Field,
    Index,
}

/// The tab on which something is described.
pub open spec fn described_tab(d: Described) -> Seq<char> {
    match d {
        Described::Index => "indexes"@,
        _ => "schema"@,
    }
}

/// A request for a description that is not carried out.
#[derive(Debug)]
pub enum DescriptionRefusal {
    Words(PlainRefusal),
    /// The page to go to, with the code of what is wrong with the text.
    Go(String),
}

/// Checks the text of a description. `checked` is the text as it is stored,
/// or the code of what is wrong with it; an empty one removes the
/// description.
pub fn check_description(
    what: Described,
    tenant_active: bool,
    protected: bool,
    checked: Result<String, String>,
    root: &str,
    tenant_id: &str,
    coll_name: &str,
) -> (r: Result<Option<String>, DescriptionRefusal>)
    ensures
        if !tenant_active {
            r is Err && r->Err_0 is Words && plain(r->Err_0->Words_0, 404, "no such tenant"@)
        } else if protected {
            r is Err && r->Err_0 is Words && plain(
                r->Err_0->Words_0,
                403,
                "cannot set description on a _system_* collection"@,
            )
        } else {
            match checked {
                Err(code) => r is Err && r->Err_0 is Go && r->Err_0->Go_0@ == collection_url(
                    root@,
                    tenant_id@,
                    coll_name@,
                ) + "?tab="@ + described_tab(what) + "&desc_error="@ + code@,
                Ok(text) => r is Ok && opt_view(r->Ok_0) == (if text@.len() == 0 {
                    None
                } else {
                    Some(text@)
                }),
            }
        },
{
    if !tenant_active {
        return Err(DescriptionRefusal::Words(words(404, "no such tenant")));
    }
    if protected {
        return Err(
            DescriptionRefusal::Words(
                words(403, "cannot set description on a _system_* collection"),
            ),
        );
    }
    match checked {
        Err(code) => {
            let tab: &'static str = match what {
                Described::Index => "indexes",
                _ => "schema",
            };
            let mut s: String = setting_url(root, tenant_id, coll_name, tab);
            s.append("&desc_error=");
            s.append(code.as_str());
            Err(DescriptionRefusal::Go(s))
        },
        Ok(text) => if text.as_str().is_empty() {
            Ok(None)
        } else {
            Ok(Some(text))
        },
    }
}

/// Checks that what is described is there. `names` are those of the fields or
/// indexes of the collection.
pub fn check_described(
    what: Described,
    opened: Result<(), String>,
    lookup: CollectionLookup,
    names: &Vec<String>,
    name: &str,
) -> (r: Result<(), PlainRefusal>)
    ensures
        match (opened, lookup) {
            (Err(e), _) => r is Err && plain(r->Err_0, 500, e@),
            (Ok(_), CollectionLookup::Failed(e)) => r is Err && plain(r->Err_0, 500, e@),
            (Ok(_), CollectionLookup::Missing) => r is Err && plain(
                r->Err_0,
                404,
                "no such collection"@,
            ),
            (Ok(_), CollectionLookup::Found) => match what {
                Described::Collection => r is Ok,
                Described::Field => if views(names@).contains(name@) {
                    r is Ok
                } else {
                    r is Err && plain(r->Err_0, 404, "no such field"@)
                },
                Described::Index => if views(names@).contains(name@) {
                    r is Ok
                } else {
                    r is Err && plain(r->Err_0, 404, "no such index"@)
                },
            },
        },
{
    if let Err(e) = opened {
        return Err(PlainRefusal { status: 500, message: e });
    }
    match lookup {
        CollectionLookup::Failed(e) => Err(PlainRefusal { status: 500, message: e }),
        CollectionLookup::Missing => Err(words(404, "no such collection")),
        CollectionLookup::Found => match what {
            Described::Collection => Ok(()),
            Described::Field => if holds(names, name) {
                Ok(())
            } else {
                Err(words(404, "no such field"))
            },
            Described::Index => if holds(names, name) {
                Ok(())
            } else {
                Err(words(404, "no such index"))
            },
        },
    }
}

/// Where a request goes whose description was stored, or the refusal where
/// the storing failed.
pub fn description_reply(
    what: Described,
    outcome: Result<(), String>,
    root: &str,
    tenant_id: &str,
    coll_name: &str,
) -> (r: Result<String, PlainRefusal>)
    ensures
        match outcome {
            Err(e) => r is Err && plain(r->Err_0, 500, e@),
            Ok(_) => r is Ok && r->Ok_0@ == collection_url(root@, tenant_id@, coll_name@)
                + "?tab="@ + described_tab(what),
        },
{
    match outcome {
        Err(e) => Err(PlainRefusal { status: 500, message: e }),
        Ok(_) => {
            let tab: &'static str = match what {
                Described::Index => "indexes",
                _ => "schema",
            };
            Ok(setting_url(root, tenant_id, coll_name, tab))
        },
    }
}

// ---------------------------------------------------------------------------
// What is promised of collections
// ---------------------------------------------------------------------------

/// The hashes of passwords, the secrets of providers and those of webhooks are masked in
/// every row; a collection that is none of these is shown as it is.
pub proof fn law_secrets_are_masked(
    coll: Seq<char>,
    columns: Seq<Seq<char>>,
    row: Seq<Seq<char>>,
    i: int,
)
    requires
        0 <= i < columns.len(),
    ensures
        coll == "_system_users"@ && columns[i] == "password_hash"@ ==> shown_cell(
            coll,
            columns,
            row,
            i,
        ) == MASK@,
        coll == "_system_oauth_providers"@ && columns[i] == "client_secret"@ ==> shown_cell(
            coll,
            columns,
            row,
            i,
        ) == MASK@,
        coll == "_system_webhooks"@ && columns[i] == "secret"@ ==> shown_cell(coll, columns, row, i)
            == MASK@,
        coll != "_system_users"@ && coll != "_system_oauth_providers"@ && coll
            != "_system_webhooks"@ ==> shown_cell(coll, columns, row, i) == row[i],
        columns[i] != "password_hash"@ && columns[i] != "client_secret"@ && columns[i]
            != "secret"@ ==> shown_cell(coll, columns, row, i) == row[i],
{
}

/// Masking changes no row but in the cells that hold secrets, and loses none.
pub proof fn law_masking_keeps_the_rest(
    coll: Seq<char>,
    columns: Seq<Seq<char>>,
    rows: Seq<Vec<String>>,
    shown: Seq<Vec<String>>,
    i: int,
    j: int,
)
    requires
        shown_rows(coll, columns, rows, shown),
        0 <= i < rows.len(),
        0 <= j < rows[i]@.len(),
        j < columns.len() ==> !secret_column(coll, columns[j]),
    ensures
        shown.len() == rows.len(),
        shown[i]@.len() == rows[i]@.len(),
        shown[i]@[j]@ == rows[i]@[j]@,
{
    assert(shown[i]@.len() == rows[i]@.len());
    assert(shown[i]@[j]@ == shown_cell(coll, columns, views(rows[i]@), j));
}

/// Old tabs lead to the view that took their place.
pub proof fn law_old_tabs_lead_on(tab: Seq<char>)
    ensures
        tab == "schema"@ || tab == "indexes"@ ==> view_for_tab(Some(tab)) == Some("definition"@),
        tab == "anon"@ || tab == "realtime"@ || tab == "explain"@ ==> view_for_tab(Some(tab))
            == Some("table"@),
        tab == "definition"@ || tab == "table"@ ==> view_for_tab(Some(tab)) is None,
        view_for_tab(None) is None,
{
    reveal_strlit("schema");
    reveal_strlit("indexes");
    reveal_strlit("anon");
    reveal_strlit("realtime");
    reveal_strlit("explain");
    reveal_strlit("definition");
    reveal_strlit("table");
    assert("schema"@[0] == 's' && "indexes"@[0] == 'i' && "anon"@[0] == 'a' && "realtime"@[0] == 'r'
        && "explain"@[0] == 'e' && "definition"@[0] == 'd' && "table"@[0] == 't');
}

/// A change of the streams writes the setting that was asked for, and ends the streams
/// exactly where they are switched off.
pub proof fn law_streams_are_set_as_asked(enabled: bool)
    ensures
        realtime_steps(enabled).contains(SettingStep::WriteRealtime(enabled)),
        !realtime_steps(enabled).contains(SettingStep::WriteRealtime(!enabled)),
        realtime_steps(enabled).contains(SettingStep::ForgetSchema),
        realtime_steps(enabled).contains(SettingStep::EndStreams) <==> !enabled,
{
    let s = realtime_steps(enabled);
    assert(s[0] == SettingStep::WriteRealtime(enabled));
    assert(s[1] == SettingStep::ForgetSchema);
    if !enabled {
        assert(s[2] == SettingStep::EndStreams);
    }
}

/// A policy that is set and wrong refuses the change, in its own words; one that is not
/// set does not.
pub proof fn law_wrong_policies_are_refused(body: AdminPoliciesBody, f: PolicyFaults)
    ensures
        first_fault(body, f) is None <==> (body.select is None || f.select is None) && (body.insert
            is None || f.insert is None) && (body.update is None || f.update is None) && (
        body.delete is None || f.delete is None),
        body.select is Some && f.select is Some ==> first_fault(body, f) == opt_view(f.select),
        body.insert is Some && f.insert is Some && (body.select is None || f.select is None)
            ==> first_fault(body, f) == opt_view(f.insert),
        body.update is Some && f.update is Some && (body.select is None || f.select is None) && (
        body.insert is None || f.insert is None) ==> first_fault(body, f) == opt_view(f.update),
        body.delete is Some && f.delete is Some && (body.select is None || f.select is None) && (
        body.insert is None || f.insert is None) && (body.update is None || f.update is None)
            ==> first_fault(body, f) == opt_view(f.delete),
{
}

/// A failure with an index is answered by what its words say: what is missing is not
/// found, what stands in the way is a conflict, and what was asked for wrongly is a bad
/// request.
pub proof fn law_index_failures_are_told_apart(msg: Seq<char>)
    ensures
        has_part(msg, "no such collection"@) || has_part(msg, "no such index"@) ==> index_fault(msg)
            == (404u16, "NOT_FOUND"@),
        index_fault(msg).0 == 404 ==> has_part(msg, "no such collection"@) || has_part(
            msg,
            "no such index"@,
        ) || has_part(msg, "not found on collection"@),
        index_fault(msg).0 == 409 ==> has_part(msg, "LARGE_TABLE"@) || has_part(
            msg,
            "already exists"@,
        ) || has_part(msg, "UNIQUE"@) || has_part(msg, "unique"@),
        index_fault(msg).0 == 500 ==> !has_part(msg, "already exists"@) && !has_part(
            msg,
            "invalid identifier"@,
        ) && !has_part(msg, "LARGE_TABLE"@),
{
}

/// A plan that is not allowed, one that cannot be read and one that fails otherwise have
/// each their code.
pub proof fn law_plan_failures_are_told_apart(msg: Seq<char>)
    ensures
        has_part(msg, "not authorized"@) || has_part(msg, "authorizer"@) || has_part(
            msg,
            "prohibited"@,
        ) ==> explain_code(msg) == "SQL_NOT_ALLOWED"@,
        !has_part(msg, "not authorized"@) && !has_part(msg, "authorizer"@) && !has_part(
            msg,
            "prohibited"@,
        ) && (has_part(msg, "syntax"@) || has_part(msg, "near"@)) ==> explain_code(msg)
            == "SQL_PARSE_ERROR"@,
{
}

/// A field is shown as it is defined, and marked where one of the indexes has it.
pub proof fn law_fields_are_shown_as_defined(
    r: FieldRow,
    f: Field,
    indices: Seq<IndexInfo>,
    i: int,
)
    requires
        field_row(r, f, indices),
    ensures
        r.name@ == f.name@ && r.sql_type@ == f.sql_type@ && r.nullable == f.nullable && r.pk == f.pk,
        f.foreign_key is Some ==> r.foreign_key is Some && (r.foreign_key->0)@ == (f.foreign_key->0)@,
        f.default_value is Some ==> r.default_value is Some && (r.default_value->0)@ == (
        f.default_value->0)@,
        f.description is Some ==> r.description is Some && (r.description->0)@ == (f.description->0)@,
        0 <= i < indices.len() && views(indices[i].fields@).contains(f.name@) ==> r.is_indexed,
        indices.len() == 0 ==> !r.is_indexed,
{
}

/// A collection has its address below its tenant, and something that is described is
/// described on its own tab.
pub proof fn law_collections_stand_below_their_tenant(
    root: Seq<char>,
    tenant: Seq<char>,
    coll: Seq<char>,
)
    ensures
        has_prefix(collection_url(root, tenant, coll), root + "/admin/tenants/"@ + tenant),
        has_suffix(collection_url(root, tenant, coll), "/collections/"@ + coll),
        described_tab(Described::Index) == "indexes"@,
        described_tab(Described::Field) == "schema"@,
        described_tab(Described::Collection) == "schema"@,
{
    let u = collection_url(root, tenant, coll);
    let head = root + "/admin/tenants/"@ + tenant;
    let tail = "/collections/"@ + coll;
    assert(u =~= head + tail);
    assert(u.subrange(0, head.len() as int) =~= head);
    assert(u.subrange(u.len() - tail.len(), u.len() as int) =~= tail);
}

} // verus!
