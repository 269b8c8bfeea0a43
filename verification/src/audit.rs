//! The audit log: reading its files, and the pages that show it.
//!
//! Files are named `audit-YYYY-MM-DD.jsonl`, with `.N` or `.N.gz` behind that
//! for those that were rotated. The pages are made from the database; the
//! program around the library runs the queries that a plan asks for and
//! hands the rows back.

use vstd::prelude::*;
use vstd::relations::total_ordering;
use vstd::utf8::{decode_utf8, encode_utf8, valid_utf8};
use crate::backups::{plain, PlainRefusal};
use crate::clock::{in_calendar, iso_stamp, rfc3339_text, stamp, write_rfc3339};
use crate::json::{
    copy_fields, field_of, fields_model, find_field, json_of, lemma_object_model, names_of,
    object_names, opt_views, parse_json, Json, JsonView,
};
use crate::public_files::{extension, extension_of};
use crate::reply::{refusal, refuse, Refusal};
use crate::script_json::{escape_json_for_script, script_safe};
use crate::sorting::{
    arranged, ascending, law_sorted_order, law_sorting_keeps_rows, positions, sort_numbers,
    sort_positions, sort_texts, sorted_order,
};
use crate::text::{
    after_prefix, all_digits, before_suffix, concat2, concat3, copy_or, from_range, has_prefix,
    has_suffix, is_digit, is_le, lemma_text_antisym, lemma_text_total, lemma_text_trans, opt_copy,
    opt_eq, opt_view, parse_signed, parse_unsigned, signed_of, split, split_on, str_eq,
    strip_prefix, strip_suffix, text_le, to_chars, trim, trimmed, unsigned_of, view_or, views,
};
use crate::url::{
    lemma_encoded_param, lemma_first_param, lemma_next_param, one_param, params, path_of, percent,
    url_encode,
};

verus! {

// ---------------------------------------------------------------------------
// Windows of time
// ---------------------------------------------------------------------------

/// How far back a page looks.
#[derive(Clone, Copy, Debug, PartialEq, Eq, Hash, Structural)]
pub enum Window {
    H1,
    H24,
    D7,
}

/// The window that a text names; an hour where it names none.
pub open spec fn window_of(s: Seq<char>) -> Window {
    if s == "24h"@ {
        Window::H24
    } else if s == "7d"@ {
        Window::D7
    } else {
        Window::H1
    }
}

/// The name of a window.
pub open spec fn window_text(w: Window) -> Seq<char> {
    match w {
        Window::H1 => "1h"@,
        Window::H24 => "24h"@,
        Window::D7 => "7d"@,
    }
}

/// The length of a window in seconds.
pub open spec fn window_secs(w: Window) -> int {
    match w {
        Window::H1 => 3600,
        Window::H24 => 86400,
        Window::D7 => 604800,
    }
}

impl Window {
    pub fn from_str_or_default(s: &str) -> (r: Window)
        ensures
            r == window_of(s@),
    {
        if str_eq(s, "24h") {
            Window::H24
        } else if str_eq(s, "7d") {
            Window::D7
        } else {
            Window::H1
        }
    }

    pub fn as_str(self) -> (r: &'static str)
        ensures
            r@ == window_text(self),
    {
        match self {
            Window::H1 => "1h",
            Window::H24 => "24h",
            Window::D7 => "7d",
        }
    }

    /// The number of seconds in this window.
    pub fn seconds(self) -> (r: i64)
        ensures
            r == window_secs(self),
    {
        match self {
            Window::H1 => 3600,
            Window::H24 => 86400,
            Window::D7 => 604800,
        }
    }
}

/// A window is found again by its name.
pub proof fn law_window_is_found_by_its_name(w: Window)
    ensures
        window_of(window_text(w)) == w,
{
    reveal_strlit("1h");
    reveal_strlit("24h");
    reveal_strlit("7d");
    assert("7d"@[0] == '7' && "24h"@[0] == '2' && "1h"@[0] == '1');
}

/// The beginning of a window that ends now.
pub open spec fn cutoff(now: int, w: Window) -> int {
    now - window_secs(w) * 1000
}

/// A point in time at which every window lies in the calendar.
pub open spec fn windows_fit(now: int) -> bool {
    in_calendar(now - 604800000) && in_calendar(now)
}

fn cutoff_ms(now: i64, w: Window) -> (r: i64)
    requires
        windows_fit(now as int),
    ensures
        r == cutoff(now as int, w),
        in_calendar(r as int),
{
    now - w.seconds() * 1000
}

// ---------------------------------------------------------------------------
// Entries
// ---------------------------------------------------------------------------

/// A line of the audit log.
#[derive(Debug)]
pub struct AuditEntry {
    pub ts: String,
    pub tenant: String,
    pub token_hint: String,
    pub op: String,
    pub status: String,
    pub duration_ms: u64,
    pub collection: Option<String>,
    pub sql_hash: Option<String>,
    pub record_id: Option<i64>,
    pub error_code: Option<String>,
    pub error_message: Option<String>,
    pub auth_method: Option<String>,
    pub oauth_email: Option<String>,
    pub oauth_error_code: Option<String>,
    pub actor_admin_id: Option<i64>,
    pub actor_email_snapshot: Option<String>,
    pub extra: Vec<(String, Json)>,
}

/// A line of the audit log, as mathematics has it.
pub struct EntryData {
    pub ts: Seq<char>,
    pub tenant: Seq<char>,
    pub token_hint: Seq<char>,
    pub op: Seq<char>,
    pub status: Seq<char>,
    pub duration_ms: nat,
    pub collection: Option<Seq<char>>,
    pub sql_hash: Option<Seq<char>>,
    pub record_id: Option<int>,
    pub error_code: Option<Seq<char>>,
    pub error_message: Option<Seq<char>>,
    pub auth_method: Option<Seq<char>>,
    pub oauth_email: Option<Seq<char>>,
    pub oauth_error_code: Option<Seq<char>>,
    pub actor_admin_id: Option<int>,
    pub actor_email_snapshot: Option<Seq<char>>,
    pub extra: Seq<(Seq<char>, JsonView)>,
}

/// An optional number, as mathematics has it.
pub open spec fn int_view(o: Option<i64>) -> Option<int> {
    match o {
        Some(n) => Some(n as int),
        None => None,
    }
}

impl AuditEntry {
    pub open spec fn data(self) -> EntryData {
        EntryData {
            ts: self.ts@,
            tenant: self.tenant@,
            token_hint: self.token_hint@,
            op: self.op@,
            status: self.status@,
            duration_ms: self.duration_ms as nat,
            collection: opt_view(self.collection),
            sql_hash: opt_view(self.sql_hash),
            record_id: int_view(self.record_id),
            error_code: opt_view(self.error_code),
            error_message: opt_view(self.error_message),
            auth_method: opt_view(self.auth_method),
            oauth_email: opt_view(self.oauth_email),
            oauth_error_code: opt_view(self.oauth_error_code),
            actor_admin_id: int_view(self.actor_admin_id),
            actor_email_snapshot: opt_view(self.actor_email_snapshot),
            extra: fields_model(self.extra@),
        }
    }

    /// The same entry once more.
    pub fn copy(&self) -> (r: AuditEntry)
        ensures
            r.data() == self.data(),
    {
        AuditEntry {
            ts: self.ts.clone(),
            tenant: self.tenant.clone(),
            token_hint: self.token_hint.clone(),
            op: self.op.clone(),
            status: self.status.clone(),
            duration_ms: self.duration_ms,
            collection: opt_copy(&self.collection),
            sql_hash: opt_copy(&self.sql_hash),
            record_id: self.record_id,
            error_code: opt_copy(&self.error_code),
            error_message: opt_copy(&self.error_message),
            auth_method: opt_copy(&self.auth_method),
            oauth_email: opt_copy(&self.oauth_email),
            oauth_error_code: opt_copy(&self.oauth_error_code),
            actor_admin_id: self.actor_admin_id,
            actor_email_snapshot: opt_copy(&self.actor_email_snapshot),
            extra: copy_fields(&self.extra),
        }
    }
}

/// The entries, as mathematics has them.
pub open spec fn entry_data(v: Seq<AuditEntry>) -> Seq<EntryData> {
    v.map_values(|e: AuditEntry| e.data())
}

/// An entry as a page shows it: with the name of its tenant and a short time,
/// and with the extra fields in a place of their own.
#[derive(Debug)]
pub struct AuditEntryView {
    pub ts: String,
    pub ts_display: String,
    pub tenant: String,
    pub tenant_name: String,
    pub token_hint: String,
    pub op: String,
    pub status: String,
    pub duration_ms: u64,
    pub collection: Option<String>,
    pub sql_hash: Option<String>,
    pub record_id: Option<i64>,
    pub error_code: Option<String>,
    pub error_message: Option<String>,
    pub auth_method: Option<String>,
    pub oauth_email: Option<String>,
    pub oauth_error_code: Option<String>,
    pub extra: Vec<(String, Json)>,
}

/// `01-31 23:59:59`.
pub const SHORT_TIME: &'static str = "%m-%d %H:%M:%S";

/// A point in time that is written in the form of RFC 3339, in another form;
/// nothing where the text is that of no point in time.
pub uninterp spec fn reformatted(ts: Seq<char>, form: Seq<char>) -> Option<Seq<char>>;

/// `chrono::DateTime::parse_from_rfc3339` reads a point in time, and
/// `format` writes it in the given form; what comes out depends on the text
/// and the form alone. Which digits that are is not stated. A form that
/// chrono does not know would end the program, so the one that is used here is
/// asked for.
#[verifier::external_body]
fn reformat(ts: &str, form: &str) -> (r: Option<String>)
    requires
        form@ == SHORT_TIME@,
    ensures
        opt_view(r) == reformatted(ts@, form@),
{
    match chrono::DateTime::parse_from_rfc3339(ts) {
        Ok(t) => Some(t.format(form).to_string()),
        Err(_) => None,
    }
}

/// The short time of an entry; the text itself where it is no time.
pub open spec fn ts_shown(ts: Seq<char>) -> Seq<char> {
    match reformatted(ts, SHORT_TIME@) {
        Some(s) => s,
        None => ts,
    }
}

/// Writes the time of an entry in the short form.
pub fn format_ts_display(ts: &str) -> (r: String)
    ensures
        r@ == ts_shown(ts@),
{
    ts_display_of(reformat(ts, SHORT_TIME), ts)
}

/// The short time where there is one, and else the text itself.
pub fn ts_display_of(short: Option<String>, ts: &str) -> (r: String)
    ensures
        r@ == view_or(short, ts@),
{
    match short {
        Some(s) => s,
        None => ts.to_owned(),
    }
}

/// The view shows the entry under the name of its tenant.
pub open spec fn shows(v: AuditEntryView, e: EntryData, name: Seq<char>) -> bool {
    &&& v.ts@ == e.ts
    &&& v.ts_display@ == ts_shown(e.ts)
    &&& v.tenant@ == e.tenant
    &&& v.tenant_name@ == name
    &&& v.token_hint@ == e.token_hint
    &&& v.op@ == e.op
    &&& v.status@ == e.status
    &&& v.duration_ms == e.duration_ms
    &&& opt_view(v.collection) == e.collection
    &&& opt_view(v.sql_hash) == e.sql_hash
    &&& int_view(v.record_id) == e.record_id
    &&& opt_view(v.error_code) == e.error_code
    &&& opt_view(v.error_message) == e.error_message
    &&& opt_view(v.auth_method) == e.auth_method
    &&& opt_view(v.oauth_email) == e.oauth_email
    &&& opt_view(v.oauth_error_code) == e.oauth_error_code
    &&& fields_model(v.extra@) == e.extra
}

impl AuditEntryView {
    pub fn from_entry(e: &AuditEntry, tenant_name: &str) -> (r: AuditEntryView)
        ensures
            shows(r, e.data(), tenant_name@),
    {
        AuditEntryView {
            ts: e.ts.clone(),
            ts_display: format_ts_display(e.ts.as_str()),
            tenant: e.tenant.clone(),
            tenant_name: tenant_name.to_owned(),
            token_hint: e.token_hint.clone(),
            op: e.op.clone(),
            status: e.status.clone(),
            duration_ms: e.duration_ms,
            collection: opt_copy(&e.collection),
            sql_hash: opt_copy(&e.sql_hash),
            record_id: e.record_id,
            error_code: opt_copy(&e.error_code),
            error_message: opt_copy(&e.error_message),
            auth_method: opt_copy(&e.auth_method),
            oauth_email: opt_copy(&e.oauth_email),
            oauth_error_code: opt_copy(&e.oauth_error_code),
            extra: copy_fields(&e.extra),
        }
    }
}

// ---------------------------------------------------------------------------
// Names of tenants
// ---------------------------------------------------------------------------

/// A tenant with its name.
#[derive(Debug)]
pub struct TenantSummary {
    pub id: String,
    pub name: String,
}

/// The name of an id in a list, the last one counting.
pub open spec fn listed_name(names: Seq<TenantSummary>, id: Seq<char>) -> Option<Seq<char>>
    decreases names.len(),
{
    if names.len() == 0 {
        None
    } else if names.last().id@ == id {
        Some(names.last().name@)
    } else {
        listed_name(names.drop_last(), id)
    }
}

/// The name to show for an id. `-` stands for the console itself, and a
/// tenant that is gone keeps its id.
pub open spec fn shown_name(names: Seq<TenantSummary>, id: Seq<char>) -> Seq<char> {
    if id == "-"@ {
        "admin"@
    } else {
        match listed_name(names, id) {
            Some(n) => n,
            None => id,
        }
    }
}

/// Finds the name to show for an id.
pub fn resolve_tenant_name(names: &Vec<TenantSummary>, id: &str) -> (r: String)
    ensures
        r@ == shown_name(names@, id@),
{
    if str_eq(id, "-") {
        return "admin".to_owned();
    }
    let mut n: usize = names.len();
    assert(names@.take(n as int) =~= names@);
    while n > 0
        invariant
            n <= names@.len(),
            id@ != "-"@,
            listed_name(names@, id@) == listed_name(names@.take(n as int), id@),
        decreases n,
    {
        assert(names@.take(n as int).last() == names@[n - 1]);
        assert(names@.take(n as int).drop_last() =~= names@.take(n - 1));
        if str_eq(names[n - 1].id.as_str(), id) {
            return names[n - 1].name.clone();
        }
        n = n - 1;
    }
    id.to_owned()
}

/// Tenants as pairs of id and name.
pub open spec fn summary_views(v: Seq<TenantSummary>) -> Seq<(Seq<char>, Seq<char>)> {
    v.map_values(|t: TenantSummary| (t.id@, t.name@))
}

/// The order of tenants: that of their names, and among equal names that of
/// their ids.
pub open spec fn name_then_id() -> spec_fn((Seq<char>, Seq<char>), (Seq<char>, Seq<char>)) -> bool {
    |a: (Seq<char>, Seq<char>), b: (Seq<char>, Seq<char>)|
        if a.1 == b.1 {
            text_le(a.0, b.0)
        } else {
            text_le(a.1, b.1)
        }
}

/// Tenants in the order of their names, and among equal names of their ids.
pub open spec fn by_name(tenants: Seq<(Seq<char>, Seq<char>)>) -> Seq<(Seq<char>, Seq<char>)> {
    tenants.sort_by(name_then_id())
}

proof fn lemma_name_then_id_is_total()
    ensures
        total_ordering(name_then_id()),
{
    let leq = name_then_id();
    assert forall|a: (Seq<char>, Seq<char>), b: (Seq<char>, Seq<char>)| #[trigger]
        leq(a, b) && #[trigger] leq(b, a) implies a == b by {
        if a.1 == b.1 {
            lemma_text_antisym(a.0, b.0);
        } else {
            lemma_text_antisym(a.1, b.1);
        }
    }
    assert forall|
        a: (Seq<char>, Seq<char>),
        b: (Seq<char>, Seq<char>),
        c: (Seq<char>, Seq<char>),
    | #[trigger]
        leq(a, b) && #[trigger] leq(b, c) implies leq(a, c) by {
        if a.1 == b.1 && b.1 == c.1 {
            lemma_text_trans(a.0, b.0, c.0);
        } else if a.1 != b.1 && b.1 != c.1 {
            lemma_text_trans(a.1, b.1, c.1);
            if a.1 == c.1 {
                lemma_text_antisym(a.1, b.1);
            }
        }
    }
    assert forall|a: (Seq<char>, Seq<char>), b: (Seq<char>, Seq<char>)| #[trigger]
        leq(a, b) || #[trigger] leq(b, a) by {
        lemma_text_total(a.0, b.0);
        lemma_text_total(a.1, b.1);
    }
}

/// The tenants to choose from stand in the order of their names, and among
/// equal names of their ids, and none is lost or added.
pub proof fn law_tenants_are_in_order(tenants: Seq<(Seq<char>, Seq<char>)>)
    ensures
        by_name(tenants).to_multiset() == tenants.to_multiset(),
        forall|i: int, j: int|
            0 <= i < j < by_name(tenants).len() ==> {
                let a = #[trigger] by_name(tenants)[i];
                let b = #[trigger] by_name(tenants)[j];
                &&& text_le(a.1, b.1)
                &&& a.1 == b.1 ==> text_le(a.0, b.0)
            },
{
    lemma_name_then_id_is_total();
    tenants.lemma_sort_by_ensures(name_then_id());
    let r = by_name(tenants);
    assert forall|i: int, j: int| 0 <= i < j < r.len() implies {
        let a = #[trigger] r[i];
        let b = #[trigger] r[j];
        &&& text_le(a.1, b.1)
        &&& a.1 == b.1 ==> text_le(a.0, b.0)
    } by {
        assert(name_then_id()(r[i], r[j]));
        lemma_text_total(r[i].1, r[i].1);
    }
}

/// The list of tenants is stable: however the same tenants are read, each
/// once, they are listed in the same order.
pub proof fn law_tenants_are_stable(
    a: Seq<(Seq<char>, Seq<char>)>,
    b: Seq<(Seq<char>, Seq<char>)>,
)
    requires
        a.no_duplicates(),
        b.no_duplicates(),
        a.to_set() == b.to_set(),
    ensures
        by_name(a) == by_name(b),
{
    broadcast use vstd::seq_lib::group_to_multiset_ensures;

    a.lemma_multiset_has_no_duplicates();
    b.lemma_multiset_has_no_duplicates();
    assert forall|x: (Seq<char>, Seq<char>)| #[trigger]
        a.to_multiset().count(x) == b.to_multiset().count(x) by {
        assert(a.to_set().contains(x) == a.contains(x));
        assert(b.to_set().contains(x) == b.contains(x));
        assert(a.contains(x) ==> a.to_multiset().contains(x));
        assert(b.contains(x) ==> b.to_multiset().contains(x));
    }
    assert(a.to_multiset() =~= b.to_multiset());
    lemma_name_then_id_is_total();
    a.lemma_sort_by_ensures(name_then_id());
    b.lemma_sort_by_ensures(name_then_id());
    vstd::seq_lib::lemma_sorted_unique(by_name(a), by_name(b), name_then_id());
}

/// The ids of tenants, or their names.
spec fn summary_keys(v: Seq<(Seq<char>, Seq<char>)>, ids: bool) -> Seq<Seq<char>> {
    v.map_values(
        |t: (Seq<char>, Seq<char>)|
            if ids {
                t.0
            } else {
                t.1
            },
    )
}

/// Tenants in the order of their ids, or of their names.
spec fn key_order(v: Seq<(Seq<char>, Seq<char>)>, ids: bool) -> Seq<(Seq<char>, Seq<char>)> {
    sorted_order(summary_keys(v, ids), false).map_values(|i: int| v[i])
}

fn sort_summaries(names: &Vec<TenantSummary>, ids: bool) -> (r: Vec<TenantSummary>)
    ensures
        summary_views(r@) == key_order(summary_views(names@), ids),
{
    let ghost v = summary_views(names@);
    let mut keys: Vec<String> = Vec::new();
    let mut i: usize = 0;
    while i < names.len()
        invariant
            i <= names@.len(),
            keys@.len() == i,
            forall|k: int|
                0 <= k < i ==> (#[trigger] keys@[k])@ == (if ids {
                    names@[k].id@
                } else {
                    names@[k].name@
                }),
        decreases names@.len() - i,
    {
        keys.push(
            if ids {
                names[i].id.clone()
            } else {
                names[i].name.clone()
            },
        );
        i = i + 1;
    }
    assert(views(keys@) =~= summary_keys(v, ids));
    let order: Vec<usize> = sort_positions(&keys, false);
    let mut r: Vec<TenantSummary> = Vec::new();
    let mut j: usize = 0;
    while j < order.len()
        invariant
            j <= order@.len(),
            keys@.len() == names@.len(),
            v == summary_views(names@),
            forall|k: int| 0 <= k < order@.len() ==> (#[trigger] order@[k]) < keys@.len(),
            r@.len() == j,
            forall|k: int|
                0 <= k < j ==> ((#[trigger] r@[k]).id@, r@[k].name@) == v[order@[k] as int],
        decreases order@.len() - j,
    {
        let t: &TenantSummary = &names[order[j]];
        r.push(TenantSummary { id: t.id.clone(), name: t.name.clone() });
        j = j + 1;
    }
    proof {
        let o = sorted_order(summary_keys(v, ids), false);
        assert forall|k: int| 0 <= k < r@.len() implies summary_views(r@)[k] == key_order(
            v,
            ids,
        )[k] by {
            assert(positions(order@)[k] == o[k]);
            assert((r@[k].id@, r@[k].name@) == v[order@[k] as int]);
        }
        assert(summary_views(r@) =~= key_order(v, ids));
    }
    r
}

/// Lists the tenants in the order of their names, and those of one name in the
/// order of their ids.
pub fn tenant_summaries(names: &Vec<TenantSummary>) -> (r: Vec<TenantSummary>)
    ensures
        summary_views(r@) == by_name(summary_views(names@)),
{
    let ids: Vec<TenantSummary> = sort_summaries(names, true);
    let r: Vec<TenantSummary> = sort_summaries(&ids, false);
    proof {
        let v = summary_views(names@);
        let w = key_order(v, true);
        let x = key_order(w, false);
        let (ik, nk) = (summary_keys(v, true), summary_keys(w, false));
        let (io, no) = (sorted_order(ik, false), sorted_order(nk, false));
        law_sorted_order(ik, false);
        law_sorted_order(nk, false);
        law_sorting_keeps_rows(v, ik, false);
        law_sorting_keeps_rows(w, nk, false);
        let leq = name_then_id();
        assert forall|i: int, j: int| 0 <= i < j < x.len() implies #[trigger] leq(x[i], x[j]) by {
            let (a, b) = (no[i], no[j]);
            assert(no.contains(a) && no.contains(b));
            assert(x[i] == w[a] && x[j] == w[b]);
            assert(nk[a] == w[a].1 && nk[b] == w[b].1);
            if w[a].1 == w[b].1 {
                assert(a < b);
                let (c, d) = (io[a], io[b]);
                assert(io.contains(c) && io.contains(d));
                assert(ik[c] == w[a].0 && ik[d] == w[b].0);
            }
        }
        lemma_name_then_id_is_total();
        v.lemma_sort_by_ensures(leq);
        vstd::seq_lib::lemma_sorted_unique(x, by_name(v), leq);
    }
    r
}

// ---------------------------------------------------------------------------
// Operations
// ---------------------------------------------------------------------------

/// The operations of the first `k` entries, as far as a list of `limit` has room.
pub open spec fn ops_of(entries: Seq<AuditEntry>, k: nat, limit: nat) -> Set<Seq<char>>
    decreases k,
{
    if k == 0 {
        Set::<Seq<char>>::empty()
    } else {
        let before = ops_of(entries, (k - 1) as nat, limit);
        if before.len() >= limit {
            before
        } else {
            before.insert(entries[k - 1].op@)
        }
    }
}

/// Every text comes before the next, and none twice.
pub open spec fn strictly_rising(s: Seq<Seq<char>>) -> bool {
    forall|i: int, j: int|
        0 <= i < j < s.len() ==> text_le(#[trigger] s[i], #[trigger] s[j]) && s[i] != s[j]
}

fn place_text(list: &mut Vec<String>, s: &str)
    requires
        strictly_rising(views(old(list)@)),
    ensures
        strictly_rising(views(final(list)@)),
        views(final(list)@).to_set() =~= views(old(list)@).to_set().insert(s@),
{
    let ghost before = views(list@);
    let mut p: usize = 0;
    while p < list.len() && is_le(list[p].as_str(), s)
        invariant
            p <= list@.len(),
            before == views(list@),
            strictly_rising(before),
            forall|k: int| 0 <= k < p ==> text_le(#[trigger] before[k], s@) && before[k] != s@,
        decreases list@.len() - p,
    {
        assert(before[p as int] == list@[p as int]@);
        if str_eq(list[p].as_str(), s) {
            assert(before.to_set().insert(s@) =~= before.to_set()) by {
                assert(before.contains(s@));
            }
            return ;
        }
        p = p + 1;
    }
    list.insert(p, s.to_owned());
    let ghost after = views(list@);
    proof {
        assert(after =~= before.insert(p as int, s@));
        if p < before.len() {
            lemma_text_total(s@, before[p as int]);
        }
        assert forall|i: int, j: int| 0 <= i < j < after.len() implies text_le(
            #[trigger] after[i],
            #[trigger] after[j],
        ) && after[i] != after[j] by {
            if i < p && j == p {
                assert(after[i] == before[i]);
            } else if i < p && j > p {
                assert(after[i] == before[i] && after[j] == before[j - 1]);
            } else if i < p && j < p {
                assert(after[i] == before[i] && after[j] == before[j]);
            } else if i == p {
                assert(after[j] == before[j - 1]);
                if j - 1 > p {
                    assert(text_le(before[p as int], before[j - 1]));
                    lemma_text_trans(s@, before[p as int], before[j - 1]);
                    if s@ == before[j - 1] {
                        lemma_text_antisym(before[p as int], before[j - 1]);
                    }
                } else {
                    lemma_text_total(s@, s@);
                }
            } else {
                assert(after[i] == before[i - 1] && after[j] == before[j - 1]);
            }
        }
        assert forall|x: Seq<char>|
            after.to_set().contains(x) <==> before.to_set().insert(s@).contains(x) by {
            if after.contains(x) {
                let i = choose|i: int| 0 <= i < after.len() && after[i] == x;
                if i < p {
                    assert(before[i] == x);
                } else if i > p {
                    assert(before[i - 1] == x);
                }
            }
            if before.contains(x) {
                let i = choose|i: int| 0 <= i < before.len() && before[i] == x;
                if i < p {
                    assert(after[i] == x);
                } else {
                    assert(after[i + 1] == x);
                }
            }
            assert(after[p as int] == s@);
        }
    }
}

/// Lists the operations of some entries in ascending order, each once, and
/// no more than `limit` of them, so that the page stays small.
pub fn distinct_ops_capped(entries: &Vec<AuditEntry>, limit: usize) -> (r: Vec<String>)
    ensures
        strictly_rising(views(r@)),
        views(r@).to_set() == ops_of(entries@, entries@.len(), limit as nat),
        r@.len() <= limit,
{
    let mut r: Vec<String> = Vec::new();
    let mut i: usize = 0;
    assert(views(r@) =~= Seq::<Seq<char>>::empty());
    assert(views(r@).to_set() =~= Set::<Seq<char>>::empty());
    while i < entries.len()
        invariant
            i <= entries@.len(),
            strictly_rising(views(r@)),
            views(r@).to_set() == ops_of(entries@, i as nat, limit as nat),
            r@.len() <= limit,
        decreases entries@.len() - i,
    {
        proof {
            lemma_rising_len(views(r@));
        }
        if r.len() < limit {
            place_text(&mut r, entries[i].op.as_str());
            proof {
                lemma_rising_len(views(r@));
            }
        }
        i = i + 1;
    }
    r
}

proof fn lemma_rising_len(s: Seq<Seq<char>>)
    requires
        strictly_rising(s),
    ensures
        s.to_set().len() == s.len(),
        s.to_set().finite(),
{
    assert(s.no_duplicates()) by {
        assert forall|i: int, j: int| 0 <= i < s.len() && 0 <= j < s.len() && i != j implies s[i]
            != s[j] by {
            if i < j {
                assert(text_le(s[i], s[j]) && s[i] != s[j]);
            } else {
                assert(text_le(s[j], s[i]) && s[j] != s[i]);
            }
        }
    }
    s.unique_seq_to_set();
}

// ---------------------------------------------------------------------------
// Lines of a file
// ---------------------------------------------------------------------------

/// A field that an entry has a place for.
pub open spec fn known_field(name: Seq<char>) -> bool {
    ||| name == "ts"@
    ||| name == "tenant"@
    ||| name == "token_hint"@
    ||| name == "op"@
    ||| name == "status"@
    ||| name == "duration_ms"@
    ||| name == "collection"@
    ||| name == "sql_hash"@
    ||| name == "record_id"@
    ||| name == "error_code"@
    ||| name == "error_message"@
    ||| name == "auth_method"@
    ||| name == "oauth_email"@
    ||| name == "oauth_error_code"@
    ||| name == "actor_admin_id"@
    ||| name == "actor_email_snapshot"@
}

fn is_known_field(name: &str) -> (r: bool)
    ensures
        r == known_field(name@),
{
    str_eq(name, "ts") || str_eq(name, "tenant") || str_eq(name, "token_hint") || str_eq(name, "op")
        || str_eq(name, "status") || str_eq(name, "duration_ms") || str_eq(name, "collection")
        || str_eq(name, "sql_hash") || str_eq(name, "record_id") || str_eq(name, "error_code")
        || str_eq(name, "error_message") || str_eq(name, "auth_method") || str_eq(
        name,
        "oauth_email",
    ) || str_eq(name, "oauth_error_code") || str_eq(name, "actor_admin_id") || str_eq(
        name,
        "actor_email_snapshot",
    )
}

/// The fields of an object.
pub type Fields = Seq<(Seq<char>, JsonView)>;

/// The text of a field that has to be there.
pub open spec fn text_field_of(f: Fields, name: Seq<char>) -> Option<Seq<char>> {
    match field_of(f, name) {
        Some(JsonView::Text(t)) => Some(t),
        _ => None,
    }
}

/// The text of a field that may be missing or `null`; nothing at all where it
/// holds something else.
pub open spec fn opt_text_field_of(f: Fields, name: Seq<char>) -> Option<Option<Seq<char>>> {
    match field_of(f, name) {
        None => Some(None),
        Some(JsonView::Null) => Some(None),
        Some(JsonView::Text(t)) => Some(Some(t)),
        _ => None,
    }
}

/// The number of a field that has to be there.
pub open spec fn count_field_of(f: Fields, name: Seq<char>) -> Option<nat> {
    match field_of(f, name) {
        Some(JsonView::Number(n)) => unsigned_of(n, u64::MAX as nat),
        _ => None,
    }
}

/// The number of a field that may be missing or `null`; nothing at all where
/// it holds something else.
pub open spec fn opt_number_field_of(f: Fields, name: Seq<char>) -> Option<Option<int>> {
    match field_of(f, name) {
        None => Some(None),
        Some(JsonView::Null) => Some(None),
        Some(JsonView::Number(n)) => match signed_of(n) {
            Some(k) => Some(Some(k)),
            None => None,
        },
        _ => None,
    }
}

/// The fields of the first `k` that an entry has no place for.
pub open spec fn other_fields(f: Fields, k: nat) -> Fields
    decreases k,
{
    if k == 0 {
        Seq::<(Seq<char>, JsonView)>::empty()
    } else {
        let before = other_fields(f, (k - 1) as nat);
        if known_field(f[k - 1].0) {
            before
        } else {
            before.push(f[k - 1])
        }
    }
}

/// The entry that an object stands for, if it has all that an entry needs.
pub open spec fn entry_of(f: Fields) -> Option<EntryData> {
    match (
        (text_field_of(f, "ts"@), text_field_of(f, "tenant"@), text_field_of(f, "token_hint"@)),
        (text_field_of(f, "op"@), text_field_of(f, "status"@), count_field_of(f, "duration_ms"@)),
        (
            opt_text_field_of(f, "collection"@),
            opt_text_field_of(f, "sql_hash"@),
            opt_number_field_of(f, "record_id"@),
        ),
        (
            opt_text_field_of(f, "error_code"@),
            opt_text_field_of(f, "error_message"@),
            opt_text_field_of(f, "auth_method"@),
        ),
        (
            opt_text_field_of(f, "oauth_email"@),
            opt_text_field_of(f, "oauth_error_code"@),
        ),
        (
            opt_number_field_of(f, "actor_admin_id"@),
            opt_text_field_of(f, "actor_email_snapshot"@),
        ),
    ) {
        (
            (Some(ts), Some(tenant), Some(token_hint)),
            (Some(op), Some(status), Some(duration_ms)),
            (Some(collection), Some(sql_hash), Some(record_id)),
            (Some(error_code), Some(error_message), Some(auth_method)),
            (Some(oauth_email), Some(oauth_error_code)),
            (Some(actor_admin_id), Some(actor_email_snapshot)),
        ) => Some(
            EntryData {
                ts,
                tenant,
                token_hint,
                op,
                status,
                duration_ms,
                collection,
                sql_hash,
                record_id,
                error_code,
                error_message,
                auth_method,
                oauth_email,
                oauth_error_code,
                actor_admin_id,
                actor_email_snapshot,
                extra: other_fields(f, f.len()),
            },
        ),
        _ => None,
    }
}

fn read_text(fields: &Vec<(String, Json)>, name: &str) -> (r: Option<String>)
    ensures
        opt_view(r) == text_field_of(fields_model(fields@), name@),
{
    match find_field(fields, name) {
        Some(Json::Text(t)) => Some(t.clone()),
        _ => None,
    }
}

fn read_opt_text(fields: &Vec<(String, Json)>, name: &str) -> (r: Option<Option<String>>)
    ensures
        (match r {
            Some(o) => Some(opt_view(o)),
            None => None,
        }) == opt_text_field_of(fields_model(fields@), name@),
{
    match find_field(fields, name) {
        None => Some(None),
        Some(Json::Null) => Some(None),
        Some(Json::Text(t)) => Some(Some(t.clone())),
        _ => None,
    }
}

fn read_count(fields: &Vec<(String, Json)>, name: &str) -> (r: Option<u64>)
    ensures
        (match r {
            Some(n) => Some(n as nat),
            None => None,
        }) == count_field_of(fields_model(fields@), name@),
{
    match find_field(fields, name) {
        Some(Json::Number(n)) => parse_unsigned(n.as_str(), u64::MAX),
        _ => None,
    }
}

fn read_opt_number(fields: &Vec<(String, Json)>, name: &str) -> (r: Option<Option<i64>>)
    ensures
        (match r {
            Some(o) => Some(int_view(o)),
            None => None,
        }) == opt_number_field_of(fields_model(fields@), name@),
{
    match find_field(fields, name) {
        None => Some(None),
        Some(Json::Null) => Some(None),
        Some(Json::Number(n)) => match parse_signed(n.as_str()) {
            Some(k) => Some(Some(k)),
            None => None,
        },
        _ => None,
    }
}

fn read_others(fields: &Vec<(String, Json)>) -> (r: Vec<(String, Json)>)
    ensures
        fields_model(r@) == other_fields(fields_model(fields@), fields@.len()),
{
    let ghost f = fields_model(fields@);
    let mut r: Vec<(String, Json)> = Vec::new();
    let mut i: usize = 0;
    assert(fields_model(r@) =~= other_fields(f, 0));
    while i < fields.len()
        invariant
            i <= fields@.len(),
            f == fields_model(fields@),
            fields_model(r@) == other_fields(f, i as nat),
        decreases fields@.len() - i,
    {
        if !is_known_field(fields[i].0.as_str()) {
            let ghost before = fields_model(r@);
            r.push((fields[i].0.clone(), fields[i].1.copy()));
            assert(fields_model(r@) =~= before.push(f[i as int]));
        }
        i = i + 1;
    }
    r
}

/// Makes an entry of the fields of an object.
pub fn entry_of_fields(fields: &Vec<(String, Json)>) -> (r: Option<AuditEntry>)
    ensures
        (match r {
            Some(e) => Some(e.data()),
            None => None,
        }) == entry_of(fields_model(fields@)),
{
    match (
        (read_text(fields, "ts"), read_text(fields, "tenant"), read_text(fields, "token_hint")),
        (read_text(fields, "op"), read_text(fields, "status"), read_count(fields, "duration_ms")),
        (
            read_opt_text(fields, "collection"),
            read_opt_text(fields, "sql_hash"),
            read_opt_number(fields, "record_id"),
        ),
        (
            read_opt_text(fields, "error_code"),
            read_opt_text(fields, "error_message"),
            read_opt_text(fields, "auth_method"),
        ),
        (read_opt_text(fields, "oauth_email"), read_opt_text(fields, "oauth_error_code")),
        (read_opt_number(fields, "actor_admin_id"), read_opt_text(fields, "actor_email_snapshot")),
    ) {
        (
            (Some(ts), Some(tenant), Some(token_hint)),
            (Some(op), Some(status), Some(duration_ms)),
            (Some(collection), Some(sql_hash), Some(record_id)),
            (Some(error_code), Some(error_message), Some(auth_method)),
            (Some(oauth_email), Some(oauth_error_code)),
            (Some(actor_admin_id), Some(actor_email_snapshot)),
        ) => Some(
            AuditEntry {
                ts,
                tenant,
                token_hint,
                op,
                status,
                duration_ms,
                collection,
                sql_hash,
                record_id,
                error_code,
                error_message,
                auth_method,
                oauth_email,
                oauth_error_code,
                actor_admin_id,
                actor_email_snapshot,
                extra: read_others(fields),
            },
        ),
        _ => None,
    }
}

/// The entry that a JSON value stands for.
pub open spec fn entry_of_json(j: Option<JsonView>) -> Option<EntryData> {
    match j {
        Some(JsonView::Object(f)) => entry_of(f),
        _ => None,
    }
}

/// A field of an entry is named twice.
pub open spec fn repeats_a_field(names: Seq<Seq<char>>) -> bool {
    exists|i: int, j: int|
        0 <= i < j < names.len() && #[trigger] names[i] == #[trigger] names[j] && known_field(
            names[i],
        )
}

/// The entry that a JSON value stands for whose members have those names, if it
/// has members. One that names a field of an entry twice stands for none.
pub open spec fn entry_of_read(
    j: Option<JsonView>,
    names: Option<Seq<Seq<char>>>,
) -> Option<EntryData> {
    match names {
        Some(n) => if repeats_a_field(n) {
            None
        } else {
            entry_of_json(j)
        },
        None => entry_of_json(j),
    }
}

/// The entry that a line holds.
pub open spec fn entry_of_line(line: Seq<char>) -> Option<EntryData> {
    let t = trimmed(line);
    if t.len() == 0 {
        None
    } else {
        entry_of_read(json_of(t), names_of(encode_utf8(t)))
    }
}

fn has_field_twice(names: &Vec<String>) -> (r: bool)
    ensures
        r == repeats_a_field(views(names@)),
{
    let ghost all = views(names@);
    let mut i: usize = 0;
    while i < names.len()
        invariant
            i <= names@.len(),
            all == views(names@),
            forall|a: int, b: int|
                0 <= a < b < all.len() && a < i && #[trigger] all[a] == #[trigger] all[b]
                    ==> !known_field(all[a]),
        decreases names@.len() - i,
    {
        if is_known_field(names[i].as_str()) {
            let mut j: usize = i + 1;
            while j < names.len()
                invariant
                    i < j <= names@.len(),
                    all == views(names@),
                    known_field(all[i as int]),
                    forall|b: int| i < b < j ==> all[i as int] != #[trigger] all[b],
                decreases names@.len() - j,
            {
                if str_eq(names[i].as_str(), names[j].as_str()) {
                    assert(all[i as int] == all[j as int]);
                    return true;
                }
                assert(all[i as int] != all[j as int]);
                j = j + 1;
            }
        }
        i = i + 1;
    }
    false
}

/// Makes an entry of a JSON value and the names of its members.
pub fn entry_from_read(j: &Option<Json>, names: &Option<Vec<String>>) -> (r: Option<AuditEntry>)
    ensures
        (match r {
            Some(e) => Some(e.data()),
            None => None,
        }) == entry_of_read(
            match j {
                Some(v) => Some(v.model()),
                None => None,
            },
            match names {
                Some(n) => Some(views(n@)),
                None => None,
            },
        ),
{
    match names {
        Some(n) => if has_field_twice(n) {
            None
        } else {
            entry_from_json(j)
        },
        None => entry_from_json(j),
    }
}

/// Makes an entry of a JSON value.
pub fn entry_from_json(j: &Option<Json>) -> (r: Option<AuditEntry>)
    ensures
        (match r {
            Some(e) => Some(e.data()),
            None => None,
        }) == entry_of_json(
            match j {
                Some(v) => Some(v.model()),
                None => None,
            },
        ),
{
    match j {
        Some(Json::Object(fields)) => {
            proof {
                lemma_object_model(*fields);
            }
            entry_of_fields(fields)
        },
        _ => None,
    }
}

/// Reads the entry of a line. A blank line holds none, and neither does one that
/// names a field of an entry twice.
pub fn parse_jsonl_line(line: &str) -> (r: Option<AuditEntry>)
    ensures
        (match r {
            Some(e) => Some(e.data()),
            None => None,
        }) == entry_of_line(line@),
{
    let t: String = trim(line);
    if t.as_str().is_empty() {
        return None;
    }
    entry_from_read(&parse_json(t.as_str()), &object_names(t.as_str()))
}

/// The entries of the first `k` lines.
pub open spec fn entries_in(lines: Seq<Seq<char>>, k: nat) -> Seq<EntryData>
    decreases k,
{
    if k == 0 {
        Seq::<EntryData>::empty()
    } else {
        let before = entries_in(lines, (k - 1) as nat);
        match entry_of_line(lines[k - 1]) {
            Some(e) => before.push(e),
            None => before,
        }
    }
}

/// How many of the first `k` lines are neither blank nor an entry.
pub open spec fn faults_in(lines: Seq<Seq<char>>, k: nat) -> nat
    decreases k,
{
    if k == 0 {
        0
    } else {
        faults_in(lines, (k - 1) as nat) + if trimmed(lines[k - 1]).len() > 0 && entry_of_line(
            lines[k - 1],
        ) is None {
            1nat
        } else {
            0nat
        }
    }
}

/// Reads the entries of some lines and counts the lines that are none.
pub fn parse_lines(lines: &Vec<String>) -> (r: (Vec<AuditEntry>, usize))
    ensures
        entry_data(r.0@) == entries_in(views(lines@), lines@.len()),
        r.1 == faults_in(views(lines@), lines@.len()),
{
    let ghost l = views(lines@);
    let mut entries: Vec<AuditEntry> = Vec::new();
    let mut errs: usize = 0;
    let mut i: usize = 0;
    assert(entry_data(entries@) =~= entries_in(l, 0));
    while i < lines.len()
        invariant
            i <= lines@.len(),
            l == views(lines@),
            entry_data(entries@) == entries_in(l, i as nat),
            errs == faults_in(l, i as nat),
            errs <= i,
        decreases lines@.len() - i,
    {
        let line: &str = lines[i].as_str();
        assert(l[i as int] == line@);
        let t: String = trim(line);
        if !t.as_str().is_empty() {
            let ghost before = entry_data(entries@);
            match parse_jsonl_line(line) {
                Some(e) => {
                    let ghost d = e.data();
                    entries.push(e);
                    assert(entry_data(entries@) =~= before.push(d));
                },
                None => {
                    errs = errs + 1;
                },
            }
        }
        i = i + 1;
    }
    (entries, errs)
}

// ---------------------------------------------------------------------------
// Files
// ---------------------------------------------------------------------------

/// How many bytes a character takes in UTF-8.
pub open spec fn char_width(c: char) -> nat {
    if (c as u32) < 0x80 {
        1
    } else if (c as u32) < 0x800 {
        2
    } else if (c as u32) < 0x10000 {
        3
    } else {
        4
    }
}

/// How many characters make up the first `n` bytes of a text, if a character
/// ends there.
pub open spec fn chars_in_bytes(s: Seq<char>, n: nat) -> Option<nat>
    decreases s.len(),
{
    if n == 0 {
        Some(0)
    } else if s.len() == 0 || char_width(s[0]) > n {
        None
    } else {
        match chars_in_bytes(s.drop_first(), (n - char_width(s[0])) as nat) {
            Some(k) => Some(k + 1),
            None => None,
        }
    }
}

fn count_chars_in_bytes(a: &Vec<char>, n: usize) -> (r: Option<usize>)
    ensures
        (match r {
            Some(k) => Some(k as nat),
            None => None,
        }) == chars_in_bytes(a@, n as nat),
        r matches Some(k) ==> k <= a@.len(),
{
    let mut i: usize = 0;
    let mut left: usize = n;
    assert(a@.skip(0) =~= a@);
    while left > 0
        invariant
            i <= a@.len(),
            left <= n,
            chars_in_bytes(a@, n as nat) == (match chars_in_bytes(a@.skip(i as int), left as nat) {
                Some(k) => Some((k + i) as nat),
                None => None,
            }),
        decreases left,
    {
        if i >= a.len() {
            return None;
        }
        let code: u32 = a[i] as u32;
        let w: usize = if code < 0x80 {
            1
        } else if code < 0x800 {
            2
        } else if code < 0x10000 {
            3
        } else {
            4
        };
        assert(a@.skip(i as int)[0] == a@[i as int]);
        if w > left {
            return None;
        }
        assert(a@.skip(i as int).drop_first() =~= a@.skip(i as int + 1));
        left = left - w;
        i = i + 1;
    }
    Some(i)
}

/// What stands behind the date in the name of an audit file: `.jsonl`, and
/// then perhaps a number and perhaps `.gz` behind that.
pub open spec fn recognised_suffix(rest: Seq<char>) -> bool {
    match after_prefix(rest, ".jsonl"@) {
        None => false,
        Some(tail) => tail.len() == 0 || match after_prefix(tail, "."@) {
            None => false,
            Some(number) => match before_suffix(number, ".gz"@) {
                Some(n) => all_digits(n),
                None => all_digits(number),
            },
        },
    }
}

fn only_digits(s: &str) -> (r: bool)
    ensures
        r == all_digits(s@),
{
    let a: Vec<char> = to_chars(s);
    if a.len() == 0 {
        return false;
    }
    let mut i: usize = 0;
    while i < a.len()
        invariant
            i <= a@.len(),
            a@ == s@,
            forall|k: int| 0 <= k < i ==> crate::text::ascii_digit(#[trigger] a@[k]),
        decreases a@.len() - i,
    {
        if !is_digit(a[i]) {
            assert(!crate::text::ascii_digit(s@[i as int]));
            return false;
        }
        i = i + 1;
    }
    true
}

/// Whether a text is what stands behind the date in the name of an audit file.
pub fn is_recognised_suffix(rest: &str) -> (r: bool)
    ensures
        r == recognised_suffix(rest@),
{
    match strip_prefix(rest, ".jsonl") {
        None => false,
        Some(tail) => if tail.as_str().is_empty() {
            true
        } else {
            match strip_prefix(tail.as_str(), ".") {
                None => false,
                Some(number) => match strip_suffix(number.as_str(), ".gz") {
                    Some(n) => only_digits(n.as_str()),
                    None => only_digits(number.as_str()),
                },
            }
        },
    }
}

/// `2026-01-31`, the date in the name of a file.
pub const FILE_DATE: &'static str = "%Y-%m-%d";

/// The number of a day, the first of January of the year 1 being 1, if the
/// text is a date in the given form.
pub uninterp spec fn date_number(date: Seq<char>, form: Seq<char>) -> Option<int>;

/// `chrono::NaiveDate::parse_from_str` reads a date in the given form, and
/// `num_days_from_ce` gives its number; what comes out depends on the text and
/// the form alone. Which day a text means is not stated.
#[verifier::external_body]
fn read_date(date: &str, form: &str) -> (r: Option<i32>)
    ensures
        (match r {
            Some(n) => Some(n as int),
            None => None,
        }) == date_number(date@, form@),
{
    match chrono::NaiveDate::parse_from_str(date, form) {
        Ok(d) => Some(chrono::Datelike::num_days_from_ce(&d)),
        Err(_) => None,
    }
}

/// The number of the day on which a point in time lies.
pub open spec fn day_of(ms: int) -> int {
    ms / 86400000 + 719163
}

fn day_number(ms: i64) -> (r: i64)
    requires
        in_calendar(ms as int),
    ensures
        r == day_of(ms as int),
{
    // Moved by 800 000 days, so that the division has no negative operand.
    let moved: u64 = (ms + 69120000000000) as u64;
    let days: i64 = (moved / 86400000) as i64;
    assert(moved as int / 86400000 == ms as int / 86400000 + 800000);
    days - 800000 + 719163
}

/// The date in the name of a file and what stands behind it, where the name
/// has the form of an audit file's.
pub open spec fn date_part(name: Seq<char>) -> Option<(Seq<char>, Seq<char>)> {
    match after_prefix(name, "audit-"@) {
        None => None,
        Some(rest) => match chars_in_bytes(rest, 10) {
            None => None,
            Some(k) => Some((rest.take(k as int), rest.skip(k as int))),
        },
    }
}

/// The file belongs to the window, given the number of the day in its name.
pub open spec fn in_window(date: Option<int>, rest: Seq<char>, first_day: int) -> bool {
    match date {
        Some(d) => recognised_suffix(rest) && d >= first_day,
        None => false,
    }
}

/// Whether a file belongs to the window, given the number of the day in its name.
pub fn file_in_window(date: Option<i32>, rest: &str, first_day: i64) -> (r: bool)
    ensures
        r == in_window(
            match date {
                Some(d) => Some(d as int),
                None => None,
            },
            rest@,
            first_day as int,
        ),
{
    match date {
        Some(d) => is_recognised_suffix(rest) && d as i64 >= first_day,
        None => false,
    }
}

/// A file that the window reaches.
pub open spec fn wanted_file(name: Seq<char>, first_day: int) -> bool {
    match date_part(name) {
        Some((date, rest)) => in_window(date_number(date, FILE_DATE@), rest, first_day),
        None => false,
    }
}

/// The names of the first `k` files that the window reaches.
pub open spec fn wanted_files(names: Seq<Seq<char>>, k: nat, first_day: int) -> Seq<Seq<char>>
    decreases k,
{
    if k == 0 {
        Seq::<Seq<char>>::empty()
    } else {
        let before = wanted_files(names, (k - 1) as nat, first_day);
        if wanted_file(names[k - 1], first_day) {
            before.push(names[k - 1])
        } else {
            before
        }
    }
}

fn is_wanted_file(name: &str, first_day: i64) -> (r: bool)
    ensures
        r == wanted_file(name@, first_day as int),
{
    match strip_prefix(name, "audit-") {
        None => false,
        Some(rest) => {
            let a: Vec<char> = to_chars(rest.as_str());
            match count_chars_in_bytes(&a, 10) {
                None => false,
                Some(k) => {
                    let date: String = from_range(&a, 0, k);
                    let tail: String = from_range(&a, k, a.len());
                    assert(date@ =~= rest@.take(k as int));
                    assert(tail@ =~= rest@.skip(k as int));
                    file_in_window(read_date(date.as_str(), FILE_DATE), tail.as_str(), first_day)
                },
            }
        },
    }
}

/// Picks the files of a directory that a window reaches, the newest first:
/// the order of the names is that of the days.
pub fn enumerate_audit_files(names: &Vec<String>, window: Window, now: i64) -> (r: Vec<String>)
    requires
        windows_fit(now as int),
    ensures
        views(r@) == arranged(
            wanted_files(views(names@), names@.len(), day_of(cutoff(now as int, window))),
            true,
        ),
{
    let first_day: i64 = day_number(cutoff_ms(now, window));
    let ghost all = views(names@);
    let mut kept: Vec<String> = Vec::new();
    let mut i: usize = 0;
    assert(views(kept@) =~= wanted_files(all, 0, first_day as int));
    while i < names.len()
        invariant
            i <= names@.len(),
            all == views(names@),
            views(kept@) == wanted_files(all, i as nat, first_day as int),
        decreases names@.len() - i,
    {
        if is_wanted_file(names[i].as_str(), first_day) {
            let ghost before = views(kept@);
            kept.push(names[i].clone());
            assert(views(kept@) =~= before.push(all[i as int]));
        }
        i = i + 1;
    }
    sort_texts(&kept, true)
}

/// What is packed in a gzip archive, if it is one and whole.
pub uninterp spec fn gunzipped(bytes: Seq<u8>) -> Option<Seq<u8>>;

/// `flate2::read::GzDecoder` unpacks a gzip archive, or fails where the bytes
/// are none or end too soon; what comes out depends on them alone. What gzip
/// makes of some bytes is not stated.
#[verifier::external_body]
fn gunzip(bytes: &[u8]) -> (r: Option<Vec<u8>>)
    ensures
        (match r {
            Some(v) => Some(v@),
            None => None,
        }) == gunzipped(bytes@),
{
    let mut out = Vec::new();
    match std::io::Read::read_to_end(&mut flate2::read::GzDecoder::new(bytes), &mut out) {
        Ok(_) => Some(out),
        Err(_) => None,
    }
}

/// The text that some bytes are the UTF-8 form of, if they are one.
pub open spec fn text_in(bytes: Seq<u8>) -> Option<Seq<char>> {
    if valid_utf8(bytes) {
        Some(decode_utf8(bytes))
    } else {
        None
    }
}

/// `String::from_utf8` gives the text of some bytes where they are UTF-8.
#[verifier::external_body]
fn read_text_of(bytes: Vec<u8>) -> (r: Option<String>)
    ensures
        opt_view(r) == text_in(bytes@),
{
    String::from_utf8(bytes).ok()
}

/// The lines of a plain file, if it is a text.
pub open spec fn plain_lines(bytes: Seq<u8>) -> Option<Seq<Seq<char>>> {
    match text_in(bytes) {
        Some(t) => Some(split_on(t, '\n')),
        None => None,
    }
}

/// Reads the lines of a plain file. An empty one stands behind the last
/// line break; it counts for nothing.
pub fn read_plain(bytes: Vec<u8>) -> (r: Option<Vec<String>>)
    ensures
        opt_views(r) == plain_lines(bytes@),
{
    match read_text_of(bytes) {
        Some(t) => Some(split(t.as_str(), '\n')),
        None => None,
    }
}

/// Reads the lines of what was unpacked from an archive, if anything was.
pub fn read_unpacked(unpacked: Option<Vec<u8>>) -> (r: Option<Vec<String>>)
    ensures
        opt_views(r) == (match unpacked {
            Some(b) => plain_lines(b@),
            None => None,
        }),
{
    match unpacked {
        Some(b) => read_plain(b),
        None => None,
    }
}

/// Reads the lines of an archive.
pub fn read_gz(bytes: Vec<u8>) -> (r: Option<Vec<String>>)
    ensures
        opt_views(r) == (match gunzipped(bytes@) {
            Some(b) => plain_lines(b),
            None => None,
        }),
{
    read_unpacked(gunzip(bytes.as_slice()))
}

/// Reads a file of the log, which is an archive where its name says so.
/// `bytes` is nothing where the file could not be read.
pub fn read_file(name: &str, bytes: Option<Vec<u8>>) -> (r: FileRead)
    ensures
        r.name@ == name@,
        opt_views(r.lines) == (match bytes {
            Some(b) => if extension_of(name@) == Some("gz"@) {
                match gunzipped(b@) {
                    Some(u) => plain_lines(u),
                    None => None,
                }
            } else {
                plain_lines(b@)
            },
            None => None,
        }),
{
    let lines: Option<Vec<String>> = match bytes {
        Some(b) => if opt_eq(&extension(name), "gz") {
            read_gz(b)
        } else {
            read_plain(b)
        },
        None => None,
    };
    FileRead { name: name.to_owned(), lines }
}

/// What was read from a file; nothing where it could not be read.
#[derive(Debug)]
pub struct FileRead {
    pub name: String,
    pub lines: Option<Vec<String>>,
}

/// What a scan found.
#[derive(Debug)]
pub struct ScanResult {
    pub entries: Vec<AuditEntry>,
    pub parse_errors: usize,
    /// The names of the files that could not be read.
    pub archive_errors: Vec<String>,
}

/// The entries among the first `k` that are not older than the cutoff.
pub open spec fn recent(entries: Seq<EntryData>, k: nat, from: Seq<char>) -> Seq<EntryData>
    decreases k,
{
    if k == 0 {
        Seq::<EntryData>::empty()
    } else {
        let before = recent(entries, (k - 1) as nat, from);
        if text_le(from, entries[k - 1].ts) {
            before.push(entries[k - 1])
        } else {
            before
        }
    }
}

/// The recent entries of a file.
pub open spec fn recent_in_file(f: FileRead, from: Seq<char>) -> Seq<EntryData> {
    match f.lines {
        Some(l) => {
            let all = entries_in(views(l@), l@.len());
            recent(all, all.len(), from)
        },
        None => Seq::<EntryData>::empty(),
    }
}

/// The recent entries of the first `k` files.
pub open spec fn recent_in_files(files: Seq<FileRead>, k: nat, from: Seq<char>) -> Seq<EntryData>
    decreases k,
{
    if k == 0 {
        Seq::<EntryData>::empty()
    } else {
        recent_in_files(files, (k - 1) as nat, from) + recent_in_file(files[k - 1], from)
    }
}

/// The lines of the first `k` files that are no entries.
pub open spec fn faults_in_files(files: Seq<FileRead>, k: nat) -> nat
    decreases k,
{
    if k == 0 {
        0
    } else {
        faults_in_files(files, (k - 1) as nat) + match files[k - 1].lines {
            Some(l) => faults_in(views(l@), l@.len()),
            None => 0,
        }
    }
}

/// The lines of the first `k` files.
pub open spec fn lines_in_files(files: Seq<FileRead>, k: nat) -> nat
    decreases k,
{
    if k == 0 {
        0
    } else {
        lines_in_files(files, (k - 1) as nat) + match files[k - 1].lines {
            Some(l) => l@.len(),
            None => 0,
        }
    }
}

/// The names of those of the first `k` files that could not be read.
pub open spec fn unread_files(files: Seq<FileRead>, k: nat) -> Seq<Seq<char>>
    decreases k,
{
    if k == 0 {
        Seq::<Seq<char>>::empty()
    } else {
        let before = unread_files(files, (k - 1) as nat);
        if files[k - 1].lines is None {
            before.push(files[k - 1].name@)
        } else {
            before
        }
    }
}

/// The times of entries.
pub open spec fn entry_times(entries: Seq<EntryData>) -> Seq<Seq<char>> {
    entries.map_values(|e: EntryData| e.ts)
}

/// Entries in the order of their times, the newest first.
pub open spec fn newest_first(entries: Seq<EntryData>) -> Seq<EntryData> {
    sorted_order(entry_times(entries), true).map_values(|i: int| entries[i])
}

proof fn lemma_faults_in(lines: Seq<Seq<char>>, k: nat)
    ensures
        faults_in(lines, k) <= k,
    decreases k,
{
    if k > 0 {
        lemma_faults_in(lines, (k - 1) as nat);
    }
}

proof fn lemma_faults_in_files(files: Seq<FileRead>, j: nat, k: nat)
    requires
        j <= k <= files.len(),
    ensures
        faults_in_files(files, j) <= lines_in_files(files, k),
    decreases k,
{
    if j < k {
        lemma_faults_in_files(files, j, (k - 1) as nat);
    } else if k > 0 {
        lemma_faults_in_files(files, (k - 1) as nat, (k - 1) as nat);
        if let Some(l) = files[k - 1].lines {
            lemma_faults_in(views(l@), l@.len());
        }
    }
}

fn keep_recent(entries: &Vec<AuditEntry>, from: &str, out: &mut Vec<AuditEntry>)
    ensures
        entry_data(final(out)@) == entry_data(old(out)@) + recent(
            entry_data(entries@),
            entries@.len(),
            from@,
        ),
{
    let ghost start = entry_data(out@);
    let ghost d = entry_data(entries@);
    let mut i: usize = 0;
    assert(entry_data(out@) =~= start + recent(d, 0, from@));
    while i < entries.len()
        invariant
            i <= entries@.len(),
            d == entry_data(entries@),
            entry_data(out@) == start + recent(d, i as nat, from@),
        decreases entries@.len() - i,
    {
        assert(d[i as int] == entries@[i as int].data());
        if is_le(from, entries[i].ts.as_str()) {
            let ghost before = entry_data(out@);
            out.push(entries[i].copy());
            assert(entry_data(out@) =~= before.push(d[i as int]));
            assert(start + recent(d, i as nat, from@).push(d[i as int]) =~= before.push(d[i as int]));
        }
        i = i + 1;
    }
}

fn sort_entries(entries: &Vec<AuditEntry>) -> (r: Vec<AuditEntry>)
    ensures
        entry_data(r@) == newest_first(entry_data(entries@)),
{
    let ghost d = entry_data(entries@);
    let mut keys: Vec<String> = Vec::new();
    let mut i: usize = 0;
    while i < entries.len()
        invariant
            i <= entries@.len(),
            keys@.len() == i,
            forall|k: int| 0 <= k < i ==> (#[trigger] keys@[k])@ == entries@[k].ts@,
        decreases entries@.len() - i,
    {
        keys.push(entries[i].ts.clone());
        i = i + 1;
    }
    assert(views(keys@) =~= entry_times(d));
    let order: Vec<usize> = sort_positions(&keys, true);
    let mut r: Vec<AuditEntry> = Vec::new();
    let mut j: usize = 0;
    while j < order.len()
        invariant
            j <= order@.len(),
            keys@.len() == entries@.len(),
            forall|k: int| 0 <= k < order@.len() ==> (#[trigger] order@[k]) < keys@.len(),
            r@.len() == j,
            forall|k: int|
                0 <= k < j ==> (#[trigger] r@[k]).data() == entries@[order@[k] as int].data(),
        decreases order@.len() - j,
    {
        r.push(entries[order[j]].copy());
        j = j + 1;
    }
    assert(entry_data(r@) =~= newest_first(d)) by {
        assert forall|k: int| 0 <= k < r@.len() implies entry_data(r@)[k] == newest_first(d)[k] by {
            assert(positions(order@)[k] == order@[k] as int);
            assert(r@[k].data() == entries@[order@[k] as int].data());
        }
    }
    r
}

/// Puts together what was read from the files of a window: the entries that
/// are not older than it, the newest first. There are no more lines than a
/// number can count.
pub fn scan_window(files: &Vec<FileRead>, window: Window, now: i64) -> (r: ScanResult)
    requires
        windows_fit(now as int),
        lines_in_files(files@, files@.len()) <= usize::MAX,
    ensures
        entry_data(r.entries@) == newest_first(
            recent_in_files(files@, files@.len(), iso_stamp(cutoff(now as int, window))),
        ),
        r.parse_errors == faults_in_files(files@, files@.len()),
        views(r.archive_errors@) == unread_files(files@, files@.len()),
{
    let from: String = stamp(cutoff_ms(now, window));
    let mut entries: Vec<AuditEntry> = Vec::new();
    let mut parse_errors: usize = 0;
    let mut archive_errors: Vec<String> = Vec::new();
    let mut i: usize = 0;
    assert(entry_data(entries@) =~= recent_in_files(files@, 0, from@));
    assert(views(archive_errors@) =~= unread_files(files@, 0));
    while i < files.len()
        invariant
            i <= files@.len(),
            lines_in_files(files@, files@.len()) <= usize::MAX,
            entry_data(entries@) == recent_in_files(files@, i as nat, from@),
            parse_errors == faults_in_files(files@, i as nat),
            views(archive_errors@) == unread_files(files@, i as nat),
        decreases files@.len() - i,
    {
        proof {
            lemma_faults_in_files(files@, (i + 1) as nat, files@.len());
        }
        match &files[i].lines {
            Some(lines) => {
                let (found, errs): (Vec<AuditEntry>, usize) = parse_lines(lines);
                let ghost before = entry_data(entries@);
                keep_recent(&found, from.as_str(), &mut entries);
                parse_errors = parse_errors + errs;
            },
            None => {
                let ghost before = views(archive_errors@);
                archive_errors.push(files[i].name.clone());
                assert(views(archive_errors@) =~= before.push(files@[i as int].name@));
                assert(recent_in_files(files@, i as nat, from@) + Seq::<EntryData>::empty()
                    =~= recent_in_files(files@, i as nat, from@));
            },
        }
        i = i + 1;
    }
    ScanResult { entries: sort_entries(&entries), parse_errors, archive_errors }
}

// ---------------------------------------------------------------------------
// What a page asks for
// ---------------------------------------------------------------------------

/// Whose log a page shows.
#[derive(Debug)]
pub enum AuditScope {
    Host,
    Tenant(String),
}

#[derive(Debug)]
pub struct AuditQuery {
    pub tab: Option<String>,
    pub window: Option<String>,
    pub tenant: Option<String>,
    pub op: Option<String>,
    pub status: Option<String>,
    pub before_ts: Option<String>,
    pub auto: Option<String>,
}

/// How many entries a page shows.
pub const PAGE_SIZE: usize = 100;

/// What a page needs from the database. One entry more than the page shows is
/// asked for, which tells whether there is a next page.
#[derive(Debug)]
pub struct AuditPlan {
    pub tab: &'static str,
    pub window: Window,
    pub cutoff_ts: String,
    pub tenant_filter: Option<String>,
    pub op_filter: Option<String>,
    /// `all`, `ok` or `error`.
    pub status_filter: &'static str,
    pub before_ts: Option<String>,
    pub auto_refresh: bool,
    pub limit: usize,
}

/// A text of a query, where it is not empty.
pub open spec fn nonempty(o: Option<String>) -> Option<Seq<char>> {
    match o {
        Some(s) => if s@.len() == 0 {
            None
        } else {
            Some(s@)
        },
        None => None,
    }
}

fn keep_nonempty(o: &Option<String>) -> (r: Option<String>)
    ensures
        opt_view(r) == nonempty(*o),
{
    match o {
        Some(s) => if s.as_str().is_empty() {
            None
        } else {
            Some(s.clone())
        },
        None => None,
    }
}

/// The tab that a query names: `browse`, or else `overview`.
pub open spec fn tab_of(q: AuditQuery) -> Seq<char> {
    if opt_view(q.tab) == Some("browse"@) {
        "browse"@
    } else {
        "overview"@
    }
}

/// The outcome that a query asks for: `ok`, `error`, or else `all`.
pub open spec fn status_of(q: AuditQuery) -> Seq<char> {
    if opt_view(q.status) == Some("ok"@) {
        "ok"@
    } else if opt_view(q.status) == Some("error"@) {
        "error"@
    } else {
        "all"@
    }
}

/// The tenant whose entries are asked for. The page of a tenant shows that
/// tenant whatever the query says.
pub open spec fn tenant_asked(scope: AuditScope, q: AuditQuery) -> Option<Seq<char>> {
    match scope {
        AuditScope::Tenant(id) => Some(id@),
        AuditScope::Host => nonempty(q.tenant),
    }
}

/// The plan is that for the query.
pub open spec fn planned(p: AuditPlan, scope: AuditScope, q: AuditQuery, now: int) -> bool {
    &&& p.tab@ == tab_of(q)
    &&& p.window == window_of(view_or(q.window, ""@))
    &&& p.cutoff_ts@ == iso_stamp(cutoff(now, p.window))
    &&& opt_view(p.tenant_filter) == tenant_asked(scope, q)
    &&& opt_view(p.op_filter) == nonempty(q.op)
    &&& p.status_filter@ == status_of(q)
    &&& opt_view(p.before_ts) == opt_view(q.before_ts)
    &&& p.auto_refresh == (opt_view(q.auto) == Some("1"@))
    &&& p.limit == 101
}

/// Decides what a page needs from the database.
pub fn plan(scope: &AuditScope, q: &AuditQuery, now: i64) -> (r: AuditPlan)
    requires
        windows_fit(now as int),
    ensures
        planned(r, *scope, *q, now as int),
        asks_what_is_named(r, *scope, *q, now as int),
{
    proof {
        lemma_names_differ();
    }
    let w: String = copy_or(&q.window, "");
    let window: Window = Window::from_str_or_default(w.as_str());
    let tab: &'static str = if opt_eq(&q.tab, "browse") {
        "browse"
    } else {
        "overview"
    };
    let status_filter: &'static str = if opt_eq(&q.status, "ok") {
        "ok"
    } else if opt_eq(&q.status, "error") {
        "error"
    } else {
        "all"
    };
    let tenant_filter: Option<String> = match scope {
        AuditScope::Tenant(id) => Some(id.clone()),
        AuditScope::Host => keep_nonempty(&q.tenant),
    };
    AuditPlan {
        tab,
        window,
        cutoff_ts: stamp(cutoff_ms(now, window)),
        tenant_filter,
        op_filter: keep_nonempty(&q.op),
        status_filter,
        before_ts: opt_copy(&q.before_ts),
        auto_refresh: opt_eq(&q.auto, "1"),
        limit: PAGE_SIZE + 1,
    }
}

/// A plan asks for what the query names. Each outcome, each window and each tab is
/// planned by its own name; a filter that is given is kept as it is, and one that is
/// blank or missing filters nothing. Entries are asked for back to the length of the
/// window that is named.
pub open spec fn asks_what_is_named(p: AuditPlan, scope: AuditScope, q: AuditQuery, now: int) -> bool {
    let hour = 60 * 60 * 1000int;
    &&& forall|s: Seq<char>| #[trigger]
        opt_view(q.status) == Some(s) && (s == "ok"@ || s == "error"@) ==> p.status_filter@ == s
    &&& opt_view(q.status) != Some("ok"@) && opt_view(q.status) != Some("error"@)
        ==> p.status_filter@ == "all"@
    &&& (p.tab@ == "browse"@ <==> opt_view(q.tab) == Some("browse"@))
    &&& p.tab@ == "browse"@ || p.tab@ == "overview"@
    &&& opt_view(q.window) == Some("1h"@) ==> p.cutoff_ts@ == iso_stamp(now - hour)
    &&& opt_view(q.window) == Some("24h"@) ==> p.cutoff_ts@ == iso_stamp(now - 24 * hour)
    &&& opt_view(q.window) == Some("7d"@) ==> p.cutoff_ts@ == iso_stamp(now - 168 * hour)
    &&& q.window is None ==> p.cutoff_ts@ == iso_stamp(now - hour)
    &&& q.op is Some && q.op->0@.len() > 0 ==> opt_view(p.op_filter) == Some(q.op->0@)
    &&& (q.op is None || q.op->0@.len() == 0) ==> p.op_filter is None
    &&& scope matches AuditScope::Tenant(id) ==> opt_view(p.tenant_filter) == Some(id@)
    &&& scope is Host && q.tenant is Some && q.tenant->0@.len() > 0 ==> opt_view(p.tenant_filter)
        == Some(q.tenant->0@)
    &&& scope is Host && (q.tenant is None || q.tenant->0@.len() == 0) ==> p.tenant_filter is None
    &&& opt_view(p.before_ts) == opt_view(q.before_ts)
    &&& (p.auto_refresh <==> opt_view(q.auto) == Some("1"@))
}

proof fn lemma_names_differ()
    ensures
        "browse"@ != "overview"@,
        "1h"@ != "24h"@,
        "1h"@ != "7d"@,
        "24h"@ != "7d"@,
        ""@ != "24h"@,
        ""@ != "7d"@,
        "ok"@ != "error"@,
{
    reveal_strlit("browse");
    reveal_strlit("overview");
    reveal_strlit("1h");
    reveal_strlit("24h");
    reveal_strlit("7d");
    reveal_strlit("");
    reveal_strlit("ok");
    reveal_strlit("error");
    assert("browse"@[0] == 'b' && "overview"@[0] == 'o');
    assert("7d"@[0] == '7' && "24h"@[0] == '2' && "1h"@[0] == '1');
    assert("ok"@.len() == 2 && "error"@.len() == 5 && ""@.len() == 0);
}

/// Every plan asks for what its query names.
pub proof fn law_plan_asks_what_is_named(p: AuditPlan, scope: AuditScope, q: AuditQuery, now: int)
    requires
        planned(p, scope, q, now),
    ensures
        asks_what_is_named(p, scope, q, now),
{
    lemma_names_differ();
}

/// The page of a tenant never asks for the entries of another.
pub proof fn law_tenant_page_stays_in_its_tenant(
    p: AuditPlan,
    id: String,
    q: AuditQuery,
    now: int,
)
    requires
        planned(p, AuditScope::Tenant(id), q, now),
    ensures
        opt_view(p.tenant_filter) == Some(id@),
{
}

// ---------------------------------------------------------------------------
// Rows of the database
// ---------------------------------------------------------------------------

/// A row of the table of entries.
#[derive(Debug)]
pub struct AuditRow {
    pub ts: String,
    pub tenant: String,
    pub token_hint: String,
    pub op: String,
    pub status: String,
    pub duration_ms: u64,
    pub error_code: Option<String>,
    pub auth_method: Option<String>,
    pub oauth_email: Option<String>,
    pub oauth_error_code: Option<String>,
    pub caller_ip: Option<String>,
    pub user_agent: Option<String>,
    pub extra: Option<String>,
    pub actor_admin_id: Option<i64>,
    pub actor_email_snapshot: Option<String>,
}

/// The fields with one of them set.
pub open spec fn with_field(f: Fields, name: Seq<char>, value: JsonView) -> Fields
    decreases f.len(),
{
    if f.len() == 0 {
        seq![(name, value)]
    } else if f[0].0 == name {
        seq![(name, value)] + f.drop_first()
    } else {
        seq![f[0]] + with_field(f.drop_first(), name, value)
    }
}

/// Setting a field gives it its value and leaves the others, in an object
/// that names no field twice.
pub proof fn law_setting_a_field(f: Fields, name: Seq<char>, value: JsonView, other: Seq<char>)
    requires
        forall|i: int, j: int|
            0 <= i < j < f.len() ==> (#[trigger] f[i]).0 != (#[trigger] f[j]).0,
    ensures
        field_of(with_field(f, name, value), name) == Some(value),
        other != name ==> field_of(with_field(f, name, value), other) == field_of(f, other),
    decreases f.len(),
{
    if f.len() == 0 {
        assert(with_field(f, name, value).drop_last() =~= f);
    } else if f[0].0 == name {
        let r = with_field(f, name, value);
        lemma_field_of_tail(r, name);
        lemma_field_of_tail(r, other);
        lemma_field_of_tail(f, other);
        assert(r.drop_first() =~= f.drop_first());
        assert(field_of(f.drop_first(), name) is None) by {
            lemma_field_absent(f.drop_first(), name);
        }
    } else {
        let rest = f.drop_first();
        let r = with_field(f, name, value);
        assert(r.drop_first() =~= with_field(rest, name, value));
        law_setting_a_field(rest, name, value, other);
        lemma_field_of_tail(r, name);
        lemma_field_of_tail(r, other);
        lemma_field_of_tail(f, other);
    }
}

proof fn lemma_field_absent(f: Fields, name: Seq<char>)
    requires
        forall|i: int| 0 <= i < f.len() ==> (#[trigger] f[i]).0 != name,
    ensures
        field_of(f, name) is None,
    decreases f.len(),
{
    if f.len() > 0 {
        lemma_field_absent(f.drop_last(), name);
    }
}

proof fn lemma_field_of_tail(f: Fields, name: Seq<char>)
    requires
        f.len() > 0,
    ensures
        field_of(f, name) == (match field_of(f.drop_first(), name) {
            Some(v) => Some(v),
            None => if f[0].0 == name {
                Some(f[0].1)
            } else {
                None
            },
        }),
    decreases f.len(),
{
    if f.len() == 1 {
        assert(f.drop_first() =~= Seq::<(Seq<char>, JsonView)>::empty());
        assert(f.drop_last() =~= Seq::<(Seq<char>, JsonView)>::empty());
    } else {
        lemma_field_of_tail(f.drop_last(), name);
        assert(f.drop_last().drop_first() =~= f.drop_first().drop_last());
        assert(f.drop_first().last() == f.last());
    }
}

fn set_text(fields: Vec<(String, Json)>, name: &str, value: String) -> (r: Vec<(String, Json)>)
    ensures
        fields_model(r@) == with_field(fields_model(fields@), name@, JsonView::Text(value@)),
{
    let ghost f = fields_model(fields@);
    let ghost v = JsonView::Text(value@);
    let mut list: Vec<(String, Json)> = fields;
    let mut i: usize = 0;
    assert(f.skip(0) =~= f);
    assert(f.take(0) + with_field(f, name@, v) =~= with_field(f, name@, v));
    while i < list.len()
        invariant
            i <= list@.len(),
            f == fields_model(list@),
            f == fields_model(fields@),
            v == JsonView::Text(value@),
            with_field(f, name@, v) == f.take(i as int) + with_field(f.skip(i as int), name@, v),
        decreases list@.len() - i,
    {
        let ghost tail = f.skip(i as int);
        assert(tail[0] == (list@[i as int].0@, list@[i as int].1.model()));
        assert(tail.drop_first() =~= f.skip(i as int + 1));
        if str_eq(list[i].0.as_str(), name) {
            list.set(i, (name.to_owned(), Json::Text(value)));
            assert(fields_model(list@) =~= f.take(i as int) + (seq![(name@, v)] + f.skip(
                i as int + 1,
            )));
            return list;
        }
        assert(f.take(i as int) + (seq![tail[0]] + with_field(f.skip(i as int + 1), name@, v))
            =~= f.take(i as int + 1) + with_field(f.skip(i as int + 1), name@, v));
        i = i + 1;
    }
    assert(f.skip(i as int) =~= Seq::<(Seq<char>, JsonView)>::empty());
    list.push((name.to_owned(), Json::Text(value)));
    assert(fields_model(list@) =~= f.take(i as int) + seq![(name@, v)]);
    list
}

/// The fields of a JSON value, none where it is no object.
pub open spec fn object_fields(j: Option<JsonView>) -> Fields {
    match j {
        Some(JsonView::Object(f)) => f,
        _ => Seq::<(Seq<char>, JsonView)>::empty(),
    }
}

/// The extra fields of a row: those that were stored, and the address and the
/// program of the caller, where pages look for them.
pub open spec fn row_extra(stored: Option<JsonView>, ip: Option<Seq<char>>, agent: Option<Seq<char>>) -> Fields {
    let a = object_fields(stored);
    let b = match ip {
        Some(s) => with_field(a, "caller_ip"@, JsonView::Text(s)),
        None => a,
    };
    match agent {
        Some(s) => with_field(b, "user_agent"@, JsonView::Text(s)),
        None => b,
    }
}

/// Puts the extra fields of a row together.
pub fn extra_of_row(stored: Option<Json>, ip: Option<String>, agent: Option<String>) -> (r: Vec<
    (String, Json),
>)
    ensures
        fields_model(r@) == row_extra(
            match stored {
                Some(j) => Some(j.model()),
                None => None,
            },
            opt_view(ip),
            opt_view(agent),
        ),
{
    let mut extra: Vec<(String, Json)> = match stored {
        Some(Json::Object(f)) => {
            proof {
                lemma_object_model(f);
            }
            f
        },
        _ => {
            let none: Vec<(String, Json)> = Vec::new();
            assert(fields_model(none@) =~= Seq::<(Seq<char>, JsonView)>::empty());
            none
        },
    };
    if let Some(s) = ip {
        extra = set_text(extra, "caller_ip", s);
    }
    if let Some(s) = agent {
        extra = set_text(extra, "user_agent", s);
    }
    extra
}

/// The value that a column of JSON holds.
pub open spec fn stored_json(column: Option<String>) -> Option<JsonView> {
    match column {
        Some(s) => json_of(s@),
        None => None,
    }
}

/// Makes an entry of a row.
pub fn row_to_entry(row: AuditRow) -> (r: AuditEntry)
    ensures
        r.data() == (EntryData {
            ts: row.ts@,
            tenant: row.tenant@,
            token_hint: row.token_hint@,
            op: row.op@,
            status: row.status@,
            duration_ms: row.duration_ms as nat,
            collection: None,
            sql_hash: None,
            record_id: None,
            error_code: opt_view(row.error_code),
            error_message: None,
            auth_method: opt_view(row.auth_method),
            oauth_email: opt_view(row.oauth_email),
            oauth_error_code: opt_view(row.oauth_error_code),
            actor_admin_id: int_view(row.actor_admin_id),
            actor_email_snapshot: opt_view(row.actor_email_snapshot),
            extra: row_extra(
                stored_json(row.extra),
                opt_view(row.caller_ip),
                opt_view(row.user_agent),
            ),
        }),
{
    let stored: Option<Json> = match row.extra {
        Some(s) => parse_json(s.as_str()),
        None => None,
    };
    AuditEntry {
        ts: row.ts,
        tenant: row.tenant,
        token_hint: row.token_hint,
        op: row.op,
        status: row.status,
        duration_ms: row.duration_ms,
        collection: None,
        sql_hash: None,
        record_id: None,
        error_code: row.error_code,
        error_message: None,
        auth_method: row.auth_method,
        oauth_email: row.oauth_email,
        oauth_error_code: row.oauth_error_code,
        actor_admin_id: row.actor_admin_id,
        actor_email_snapshot: row.actor_email_snapshot,
        extra: extra_of_row(stored, row.caller_ip, row.user_agent),
    }
}

// ---------------------------------------------------------------------------
// The overview
// ---------------------------------------------------------------------------

/// A tenant among the busiest: its entries and how many of them are errors.
#[derive(Debug)]
pub struct TopTenant {
    pub tenant: String,
    pub tenant_name: String,
    pub count: u64,
    pub errors: u64,
}

/// The overview of a window. The shares and rates that a page shows are
/// quotients of these numbers.
#[derive(Debug)]
pub struct Overview {
    pub total: u64,
    pub error_count: u64,
    pub p50_ms: u64,
    pub p99_ms: u64,
    pub top_tenants: Vec<TopTenant>,
    pub top_slow_ops: Vec<AuditEntry>,
    /// How many entries were lost because the writer was behind.
    pub dropped_total: u64,
}

/// The position of a percentile among `n` values: that of the nearest rank.
pub open spec fn rank_position(n: nat, p: nat) -> int {
    let rank = (p * n + 99) / 100;
    if rank == 0 {
        0
    } else if rank > n {
        n - 1
    } else {
        rank - 1
    }
}

/// A percentile of values in ascending order; 0 where there are none.
pub open spec fn percentile_of(sorted: Seq<u64>, p: nat) -> u64 {
    if sorted.len() == 0 {
        0
    } else {
        sorted[rank_position(sorted.len(), p)]
    }
}

/// Finds a percentile of values in ascending order.
pub fn percentile(sorted: &Vec<u64>, p: u8) -> (r: u64)
    ensures
        r == percentile_of(sorted@, p as nat),
{
    if sorted.len() == 0 {
        return 0;
    }
    let n: usize = sorted.len();
    assert(p * n <= 255 * 0xffff_ffff_ffff_ffff) by (nonlinear_arith)
        requires
            p <= 255,
            n <= 0xffff_ffff_ffff_ffff,
    ;
    let rank: u128 = ((p as u128) * (n as u128) + 99) / 100;
    let at: usize = if rank == 0 {
        0
    } else if rank > n as u128 {
        n - 1
    } else {
        (rank - 1) as usize
    };
    sorted[at]
}

/// At least `p` in a hundred values are not above the percentile, for `p`
/// from 1 to 100.
pub proof fn law_percentile_covers(n: nat, p: nat)
    requires
        n > 0,
        1 <= p <= 100,
    ensures
        0 <= rank_position(n, p) < n,
        100 * (rank_position(n, p) + 1) >= p * n,
        100 * rank_position(n, p) < p * n,
{
    assert(p * n >= n) by (nonlinear_arith)
        requires
            p >= 1,
            n > 0,
    ;
    assert(p * n <= 100 * n) by (nonlinear_arith)
        requires
            p <= 100,
    ;
}

/// What the database gives for an overview. A query that could not be
/// prepared gives nothing; one that failed when it ran gives an empty list.
#[derive(Debug)]
pub struct OverviewRows {
    /// All entries and those that are errors.
    pub totals: Option<(u64, u64)>,
    pub durations: Option<Vec<u64>>,
    pub top_tenants: Option<Vec<TopTenant>>,
    pub top_slow_ops: Option<Vec<AuditEntry>>,
}

/// There is nothing to show: no entries, or no durations to be had.
pub open spec fn nothing_to_show(rows: OverviewRows) -> bool {
    ||| rows.totals is None
    ||| (rows.totals->0).0 == 0
    ||| rows.durations is None
}

/// Puts an overview together. The busiest tenants are shown only where all
/// tenants are. The count of dropped entries is that of the running program,
/// whatever there is to show.
pub fn overview_of(rows: OverviewRows, one_tenant: bool, dropped: u64) -> (r: Overview)
    ensures
        if nothing_to_show(rows) {
            &&& r.total == 0 && r.error_count == 0 && r.p50_ms == 0 && r.p99_ms == 0
            &&& r.dropped_total == dropped
            &&& r.top_tenants@.len() == 0
            &&& r.top_slow_ops@.len() == 0
        } else {
            let sorted = ascending((rows.durations->0)@);
            &&& r.total == (rows.totals->0).0
            &&& r.error_count == (rows.totals->0).1
            &&& r.p50_ms == percentile_of(sorted, 50)
            &&& r.p99_ms == percentile_of(sorted, 99)
            &&& r.dropped_total == dropped
            &&& if one_tenant || rows.top_tenants is None {
                r.top_tenants@.len() == 0
            } else {
                r.top_tenants == rows.top_tenants->0
            }
            &&& if (!one_tenant && rows.top_tenants is None) || rows.top_slow_ops is None {
                r.top_slow_ops@.len() == 0
            } else {
                r.top_slow_ops == rows.top_slow_ops->0
            }
        },
{
    let none: Overview = Overview {
        total: 0,
        error_count: 0,
        p50_ms: 0,
        p99_ms: 0,
        top_tenants: Vec::new(),
        top_slow_ops: Vec::new(),
        dropped_total: dropped,
    };
    let (total, error_count): (u64, u64) = match rows.totals {
        Some(t) => t,
        None => {
            return none;
        },
    };
    if total == 0 {
        return none;
    }
    let sorted: Vec<u64> = match rows.durations {
        Some(d) => sort_numbers(d),
        None => {
            return none;
        },
    };
    let p50_ms: u64 = percentile(&sorted, 50);
    let p99_ms: u64 = percentile(&sorted, 99);
    let top_tenants: Vec<TopTenant> = if one_tenant {
        Vec::new()
    } else {
        match rows.top_tenants {
            Some(t) => t,
            None => {
                return Overview {
                    total,
                    error_count,
                    p50_ms,
                    p99_ms,
                    top_tenants: Vec::new(),
                    top_slow_ops: Vec::new(),
                    dropped_total: dropped,
                };
            },
        }
    };
    let top_slow_ops: Vec<AuditEntry> = match rows.top_slow_ops {
        Some(s) => s,
        None => Vec::new(),
    };
    Overview {
        total,
        error_count,
        p50_ms,
        p99_ms,
        top_tenants,
        top_slow_ops,
        dropped_total: dropped,
    }
}

/// The tenant with the name to show for it.
pub open spec fn named(t: TopTenant, before: TopTenant, names: Seq<TenantSummary>) -> bool {
    &&& t.tenant@ == before.tenant@
    &&& t.tenant_name@ == shown_name(names, before.tenant@)
    &&& t.count == before.count
    &&& t.errors == before.errors
}

fn name_tenants(top: &Vec<TopTenant>, names: &Vec<TenantSummary>) -> (r: Vec<TopTenant>)
    ensures
        r@.len() == top@.len(),
        forall|i: int| 0 <= i < r@.len() ==> named(#[trigger] r@[i], top@[i], names@),
{
    let mut r: Vec<TopTenant> = Vec::new();
    let mut i: usize = 0;
    while i < top.len()
        invariant
            i <= top@.len(),
            r@.len() == i,
            forall|k: int| 0 <= k < i ==> named(#[trigger] r@[k], top@[k], names@),
        decreases top@.len() - i,
    {
        r.push(
            TopTenant {
                tenant: top[i].tenant.clone(),
                tenant_name: resolve_tenant_name(names, top[i].tenant.as_str()),
                count: top[i].count,
                errors: top[i].errors,
            },
        );
        i = i + 1;
    }
    r
}

/// The views show the entries, each under the name of its tenant.
pub open spec fn all_shown(v: Seq<AuditEntryView>, e: Seq<AuditEntry>, names: Seq<TenantSummary>) -> bool {
    v.len() == e.len() && forall|i: int|
        0 <= i < v.len() ==> shows(#[trigger] v[i], e[i].data(), shown_name(names, e[i].tenant@))
}

fn show_all(entries: &Vec<AuditEntry>, names: &Vec<TenantSummary>) -> (r: Vec<AuditEntryView>)
    ensures
        all_shown(r@, entries@, names@),
{
    let mut r: Vec<AuditEntryView> = Vec::new();
    let mut i: usize = 0;
    while i < entries.len()
        invariant
            i <= entries@.len(),
            r@.len() == i,
            forall|k: int|
                0 <= k < i ==> shows(
                    #[trigger] r@[k],
                    entries@[k].data(),
                    shown_name(names@, entries@[k].tenant@),
                ),
        decreases entries@.len() - i,
    {
        let name: String = resolve_tenant_name(names, entries[i].tenant.as_str());
        r.push(AuditEntryView::from_entry(&entries[i], name.as_str()));
        i = i + 1;
    }
    r
}

// ---------------------------------------------------------------------------
// Browsing
// ---------------------------------------------------------------------------

/// A page of entries.
#[derive(Debug)]
pub struct BrowsePage {
    pub entries: Vec<AuditEntry>,
    pub entries_view: Vec<AuditEntryView>,
    pub distinct_ops: Vec<String>,
    /// The time of the last entry shown, where there is a next page.
    pub next_cursor: Option<String>,
}

/// The first entries, as many as a page shows.
pub open spec fn shown_rows(rows: Seq<AuditEntry>) -> Seq<AuditEntry> {
    if rows.len() > 100 {
        rows.subrange(0, 100)
    } else {
        rows
    }
}

/// Makes a page of the rows that were found.
pub fn browse_page(rows: Vec<AuditEntry>, names: &Vec<TenantSummary>) -> (r: BrowsePage)
    ensures
        r.entries@ == shown_rows(rows@),
        all_shown(r.entries_view@, r.entries@, names@),
        strictly_rising(views(r.distinct_ops@)),
        views(r.distinct_ops@).to_set() == ops_of(r.entries@, r.entries@.len(), 200),
        opt_view(r.next_cursor) == (if rows@.len() > 100 {
            Some(rows@[99].ts@)
        } else {
            None
        }),
{
    let more: bool = rows.len() > PAGE_SIZE;
    let mut entries: Vec<AuditEntry> = rows;
    if more {
        entries.truncate(PAGE_SIZE);
    }
    let next_cursor: Option<String> = if more {
        Some(entries[PAGE_SIZE - 1].ts.clone())
    } else {
        None
    };
    let entries_view: Vec<AuditEntryView> = show_all(&entries, names);
    let distinct_ops: Vec<String> = distinct_ops_capped(&entries, 200);
    BrowsePage { entries, entries_view, distinct_ops, next_cursor }
}

// ---------------------------------------------------------------------------
// Pages
// ---------------------------------------------------------------------------

/// The address of the log.
pub open spec fn base_of(scope: AuditScope, root: Seq<char>) -> Seq<char> {
    match scope {
        AuditScope::Host => root + "/admin/audit"@,
        AuditScope::Tenant(id) => root + "/admin/tenants/"@ + id@ + "/_logs"@,
    }
}

/// The address of the log below `root`.
pub fn base_link(scope: &AuditScope, root: &str) -> (r: String)
    ensures
        r@ == base_of(*scope, root@),
{
    match scope {
        AuditScope::Host => concat2(root, "/admin/audit"),
        AuditScope::Tenant(id) => {
            let s: String = concat3(root, "/admin/tenants/", id.as_str());
            concat2(s.as_str(), "/_logs")
        },
    }
}

/// The parameters that hold something, each with an ampersand before it.
pub open spec fn parameters(extra: Seq<(&str, &str)>) -> Seq<char>
    decreases extra.len(),
{
    if extra.len() == 0 {
        Seq::<char>::empty()
    } else {
        let before = parameters(extra.drop_last());
        let (k, v) = extra.last();
        if v@.len() == 0 {
            before
        } else {
            before + ("&"@ + k@ + "="@ + percent(v@))
        }
    }
}

/// An address with a tab, a window and some parameters.
pub open spec fn link(
    base: Seq<char>,
    tab: Seq<char>,
    window: Seq<char>,
    auto: bool,
    extra: Seq<(&str, &str)>,
) -> Seq<char> {
    let s = base + "?tab="@ + tab + "&window="@ + window + parameters(extra);
    if auto {
        s + "&auto=1"@
    } else {
        s
    }
}

/// Writes an address with a tab, a window and some parameters.
pub fn url_with(base: &str, tab: &str, window: &str, auto: bool, extra: &Vec<(&str, &str)>) -> (r: String)
    ensures
        r@ == link(base@, tab@, window@, auto, extra@),
{
    let mut s: String = base.to_owned();
    s.append("?tab=");
    s.append(tab);
    s.append("&window=");
    s.append(window);
    let ghost head = s@;
    let mut i: usize = 0;
    assert(head + parameters(extra@.take(0)) =~= head);
    while i < extra.len()
        invariant
            i <= extra@.len(),
            s@ == head + parameters(extra@.take(i as int)),
        decreases extra@.len() - i,
    {
        let (k, v): (&str, &str) = extra[i];
        let ghost before = s@;
        assert(extra@.take(i as int + 1).drop_last() =~= extra@.take(i as int));
        assert(extra@.take(i as int + 1).last() == extra@[i as int]);
        if !v.is_empty() {
            s.append("&");
            s.append(k);
            s.append("=");
            s.append(url_encode(v).as_str());
            assert(s@ =~= before + ("&"@ + k@ + "="@ + percent(v@)));
        }
        assert(s@ =~= head + parameters(extra@.take(i as int + 1)));
        i = i + 1;
    }
    assert(extra@.take(extra@.len() as int) =~= extra@);
    if auto {
        s.append("&auto=1");
    }
    s
}

/// A window to choose.
#[derive(Debug)]
pub struct WindowChoice {
    pub label: &'static str,
    pub href: String,
    pub active: bool,
}

/// The choice of a window.
pub open spec fn choice_of(c: WindowChoice, w: Window, base: Seq<char>, tab: Seq<char>, current: Window) -> bool {
    &&& c.label@ == window_text(w)
    &&& c.href@ == link(base, tab, window_text(w), false, Seq::<(&str, &str)>::empty())
    &&& c.active == (w == current)
}

fn window_choice(w: Window, base: &str, tab: &str, current: Window) -> (r: WindowChoice)
    ensures
        choice_of(r, w, base@, tab@, current),
{
    let none: Vec<(&str, &str)> = Vec::new();
    assert(none@ =~= Seq::<(&str, &str)>::empty());
    WindowChoice {
        label: w.as_str(),
        href: url_with(base, tab, w.as_str(), false, &none),
        active: w == current,
    }
}

/// What the database gave for a page: an overview, or a page of entries with
/// their JSON, where that could be made.
#[derive(Debug)]
pub enum AuditContent {
    Overview(Overview),
    Browse(BrowsePage, Option<String>),
}

/// Everything that a page of the log shows.
pub struct BodyCtx {
    pub scope: AuditScope,
    pub is_host_scope: bool,
    pub tab: &'static str,
    pub window_str: &'static str,
    pub auto_refresh: bool,
    pub overview_link: String,
    pub browse_link: String,
    pub window_choices: Vec<WindowChoice>,
    pub refresh_link: String,
    pub auto_toggle_link: String,
    pub next_page_link: Option<String>,
    pub overview: Option<Overview>,
    pub entries: Vec<AuditEntry>,
    pub parse_errors: usize,
    pub archive_errors: Vec<String>,
    pub tenant_filter: Option<String>,
    pub op_filter: Option<String>,
    pub status_filter: &'static str,
    pub tenants: Vec<TenantSummary>,
    pub distinct_ops: Vec<String>,
    pub entries_view: Vec<AuditEntryView>,
    pub entries_json: String,
    pub top_slow_ops_view: Vec<AuditEntryView>,
}

/// The parameters of the link to the next page.
pub open spec fn next_parameters(p: AuditPlan, cursor: Seq<char>) -> Seq<char> {
    let a = if view_or(p.tenant_filter, ""@).len() == 0 {
        Seq::<char>::empty()
    } else {
        "&"@ + "tenant"@ + "="@ + percent(view_or(p.tenant_filter, ""@))
    };
    let b = if view_or(p.op_filter, ""@).len() == 0 {
        a
    } else {
        a + ("&"@ + "op"@ + "="@ + percent(view_or(p.op_filter, ""@)))
    };
    let c = if p.status_filter@.len() == 0 {
        b
    } else {
        b + ("&"@ + "status"@ + "="@ + percent(p.status_filter@))
    };
    if cursor.len() == 0 {
        c
    } else {
        c + ("&"@ + "before_ts"@ + "="@ + percent(cursor))
    }
}

/// The link to the next page.
pub open spec fn next_link(p: AuditPlan, base: Seq<char>, cursor: Seq<char>) -> Seq<char> {
    let s = base + "?tab="@ + "browse"@ + "&window="@ + window_text(p.window) + next_parameters(
        p,
        cursor,
    );
    if p.auto_refresh {
        s + "&auto=1"@
    } else {
        s
    }
}

fn next_page_url(p: &AuditPlan, base: &str, cursor: &str) -> (r: String)
    ensures
        r@ == next_link(*p, base@, cursor@),
{
    let tenant: String = copy_or(&p.tenant_filter, "");
    let op: String = copy_or(&p.op_filter, "");
    let mut extra: Vec<(&str, &str)> = Vec::new();
    let ghost x0 = extra@;
    extra.push(("tenant", tenant.as_str()));
    let ghost x1 = extra@;
    extra.push(("op", op.as_str()));
    let ghost x2 = extra@;
    extra.push(("status", p.status_filter));
    let ghost x3 = extra@;
    extra.push(("before_ts", cursor));
    proof {
        assert(extra@.drop_last() =~= x3);
        assert(x3.drop_last() =~= x2);
        assert(x2.drop_last() =~= x1);
        assert(x1.drop_last() =~= x0);
        assert(parameters(x0) =~= Seq::<char>::empty());
        let a = "&"@ + "tenant"@ + "="@ + percent(tenant@);
        assert(Seq::<char>::empty() + a =~= a);
        assert(parameters(x1) == if tenant@.len() == 0 {
            Seq::<char>::empty()
        } else {
            a
        });
        assert(parameters(x2) == if op@.len() == 0 {
            parameters(x1)
        } else {
            parameters(x1) + ("&"@ + "op"@ + "="@ + percent(op@))
        });
        assert(parameters(x3) == if p.status_filter@.len() == 0 {
            parameters(x2)
        } else {
            parameters(x2) + ("&"@ + "status"@ + "="@ + percent(p.status_filter@))
        });
        assert(parameters(extra@) == next_parameters(*p, cursor@));
    }
    url_with(base, "browse", p.window.as_str(), p.auto_refresh, &extra)
}

/// The links and filters of a page.
pub open spec fn framed(r: BodyCtx, p: AuditPlan, scope: AuditScope, root: Seq<char>) -> bool {
    let base = base_of(scope, root);
    let w = window_text(p.window);
    let none = Seq::<(&str, &str)>::empty();
    &&& r.scope == scope
    &&& r.is_host_scope == (scope is Host)
    &&& r.tab@ == p.tab@
    &&& r.window_str@ == w
    &&& r.auto_refresh == p.auto_refresh
    &&& r.overview_link@ == link(base, "overview"@, w, false, none)
    &&& r.browse_link@ == link(base, "browse"@, w, false, none)
    &&& r.refresh_link@ == link(base, p.tab@, w, false, none)
    &&& r.auto_toggle_link@ == link(base, p.tab@, w, !p.auto_refresh, none)
    &&& r.window_choices@.len() == 3
    &&& choice_of(r.window_choices@[0], Window::H1, base, p.tab@, p.window)
    &&& choice_of(r.window_choices@[1], Window::H24, base, p.tab@, p.window)
    &&& choice_of(r.window_choices@[2], Window::D7, base, p.tab@, p.window)
    &&& r.parse_errors == 0
    &&& r.archive_errors@.len() == 0
    &&& opt_view(r.tenant_filter) == (if scope is Host {
        opt_view(p.tenant_filter)
    } else {
        None
    })
    &&& opt_view(r.op_filter) == opt_view(p.op_filter)
    &&& r.status_filter@ == p.status_filter@
}

/// The page shows what the database gave.
pub open spec fn filled(r: BodyCtx, p: AuditPlan, base: Seq<char>, names: Seq<TenantSummary>, content: AuditContent) -> bool {
    match content {
        AuditContent::Overview(o) => {
            &&& r.overview matches Some(ov)
            &&& ov.total == o.total && ov.error_count == o.error_count
            &&& ov.p50_ms == o.p50_ms && ov.p99_ms == o.p99_ms
            &&& ov.dropped_total == o.dropped_total
            &&& ov.top_slow_ops == o.top_slow_ops
            &&& ov.top_tenants@.len() == o.top_tenants@.len()
            &&& forall|i: int|
                0 <= i < ov.top_tenants@.len() ==> named(
                    #[trigger] ov.top_tenants@[i],
                    o.top_tenants@[i],
                    names,
                )
            &&& all_shown(r.top_slow_ops_view@, o.top_slow_ops@, names)
            &&& r.entries@.len() == 0 && r.entries_view@.len() == 0 && r.distinct_ops@.len() == 0
            &&& r.entries_json@ == "[]"@
            &&& r.next_page_link is None
        },
        AuditContent::Browse(page, json) => {
            &&& r.overview is None
            &&& r.entries == page.entries
            &&& r.entries_view == page.entries_view
            &&& r.distinct_ops == page.distinct_ops
            &&& r.entries_json@ == script_safe(view_or(json, "[]"@))
            &&& r.top_slow_ops_view@.len() == 0
            &&& opt_view(r.next_page_link) == (match page.next_cursor {
                Some(c) => Some(next_link(p, base, c@)),
                None => None,
            })
        },
    }
}

/// The tenants to choose from: all of them on the page of all tenants, and
/// none on the page of one.
pub open spec fn offered(r: Seq<TenantSummary>, scope: AuditScope, names: Seq<TenantSummary>) -> bool {
    if scope is Host {
        summary_views(r) == by_name(summary_views(names))
    } else {
        r.len() == 0
    }
}

/// Puts a page of the log together.
pub fn build_body_ctx(
    p: AuditPlan,
    scope: AuditScope,
    root: &str,
    names: &Vec<TenantSummary>,
    content: AuditContent,
) -> (r: BodyCtx)
    ensures
        framed(r, p, scope, root@),
        filled(r, p, base_of(scope, root@), names@, content),
        offered(r.tenants@, scope, names@),
{
    let base: String = base_link(&scope, root);
    let window_str: &'static str = p.window.as_str();
    let none: Vec<(&str, &str)> = Vec::new();
    assert(none@ =~= Seq::<(&str, &str)>::empty());
    let is_host_scope: bool = match &scope {
        AuditScope::Host => true,
        AuditScope::Tenant(_) => false,
    };
    let tenants: Vec<TenantSummary> = if is_host_scope {
        tenant_summaries(names)
    } else {
        Vec::new()
    };
    let mut window_choices: Vec<WindowChoice> = Vec::new();
    window_choices.push(window_choice(Window::H1, base.as_str(), p.tab, p.window));
    window_choices.push(window_choice(Window::H24, base.as_str(), p.tab, p.window));
    window_choices.push(window_choice(Window::D7, base.as_str(), p.tab, p.window));
    let overview_link: String = url_with(base.as_str(), "overview", window_str, false, &none);
    let browse_link: String = url_with(base.as_str(), "browse", window_str, false, &none);
    let refresh_link: String = url_with(base.as_str(), p.tab, window_str, false, &none);
    let auto_toggle_link: String = url_with(
        base.as_str(),
        p.tab,
        window_str,
        !p.auto_refresh,
        &none,
    );
    let tenant_filter: Option<String> = if is_host_scope {
        opt_copy(&p.tenant_filter)
    } else {
        None
    };
    match content {
        AuditContent::Overview(o) => {
            let top_slow_ops_view: Vec<AuditEntryView> = show_all(&o.top_slow_ops, names);
            let top_tenants: Vec<TopTenant> = name_tenants(&o.top_tenants, names);
            let overview: Overview = Overview {
                total: o.total,
                error_count: o.error_count,
                p50_ms: o.p50_ms,
                p99_ms: o.p99_ms,
                top_tenants,
                top_slow_ops: o.top_slow_ops,
                dropped_total: o.dropped_total,
            };
            BodyCtx {
                scope,
                is_host_scope,
                tab: p.tab,
                window_str,
                auto_refresh: p.auto_refresh,
                overview_link,
                browse_link,
                window_choices,
                refresh_link,
                auto_toggle_link,
                next_page_link: None,
                overview: Some(overview),
                entries: Vec::new(),
                parse_errors: 0,
                archive_errors: Vec::new(),
                tenant_filter,
                op_filter: opt_copy(&p.op_filter),
                status_filter: p.status_filter,
                tenants,
                distinct_ops: Vec::new(),
                entries_view: Vec::new(),
                entries_json: "[]".to_owned(),
                top_slow_ops_view,
            }
        },
        AuditContent::Browse(page, json) => {
            let next_page_link: Option<String> = match &page.next_cursor {
                Some(c) => Some(next_page_url(&p, base.as_str(), c.as_str())),
                None => None,
            };
            let raw: String = copy_or(&json, "[]");
            BodyCtx {
                scope,
                is_host_scope,
                tab: p.tab,
                window_str,
                auto_refresh: p.auto_refresh,
                overview_link,
                browse_link,
                window_choices,
                refresh_link,
                auto_toggle_link,
                next_page_link,
                overview: None,
                entries: page.entries,
                parse_errors: 0,
                archive_errors: Vec::new(),
                tenant_filter,
                op_filter: opt_copy(&p.op_filter),
                status_filter: p.status_filter,
                tenants,
                distinct_ops: page.distinct_ops,
                entries_view: page.entries_view,
                entries_json: escape_json_for_script(raw.as_str()),
                top_slow_ops_view: Vec::new(),
            }
        },
    }
}

// ---------------------------------------------------------------------------
// JSON
// ---------------------------------------------------------------------------

/// The overview for programs.
pub struct OverviewJson {
    pub total: u64,
    pub error_count: u64,
    pub p50_ms: u64,
    pub p99_ms: u64,
    pub dropped_total: u64,
    pub top_tenants: Vec<TopTenant>,
    pub top_slow_ops: Vec<AuditEntryView>,
}

/// The page of one tenant is for a tenant that is there.
pub fn audit_tenant_page(tenant_name: Option<String>) -> (r: Result<String, PlainRefusal>)
    ensures
        match tenant_name {
            Some(n) => r == Ok::<String, PlainRefusal>(n),
            None => r is Err && plain(r->Err_0, 404, "tenant not found"@),
        },
{
    match tenant_name {
        Some(n) => Ok(n),
        None => Err(PlainRefusal { status: 404, message: "tenant not found".to_owned() }),
    }
}

/// So is the log of one tenant for programs.
pub fn audit_tenant_json(tenant_active: bool) -> (r: Result<(), Refusal>)
    ensures
        tenant_active ==> r is Ok,
        !tenant_active ==> r is Err && r->Err_0@ == refusal(
            404,
            "TENANT_NOT_FOUND"@,
            "no such tenant"@,
        ),
{
    if tenant_active {
        Ok(())
    } else {
        Err(refuse(404, "TENANT_NOT_FOUND", "no such tenant"))
    }
}

/// The log for programs.
pub struct AuditJson {
    pub tab: &'static str,
    pub window: &'static str,
    pub tenant: Option<String>,
    pub overview: Option<OverviewJson>,
    pub entries: Option<Vec<AuditEntryView>>,
    pub next_before_ts: Option<String>,
}

/// Puts the log together for programs.
pub fn audit_json(p: AuditPlan, names: &Vec<TenantSummary>, content: AuditContent) -> (r: AuditJson)
    ensures
        r.tab@ == p.tab@,
        r.window@ == window_text(p.window),
        opt_view(r.tenant) == opt_view(p.tenant_filter),
        match content {
            AuditContent::Overview(o) => {
                &&& r.overview matches Some(ov)
                &&& ov.total == o.total && ov.error_count == o.error_count
                &&& ov.p50_ms == o.p50_ms && ov.p99_ms == o.p99_ms
                &&& ov.dropped_total == o.dropped_total
                &&& ov.top_tenants@.len() == o.top_tenants@.len()
                &&& forall|i: int|
                    0 <= i < ov.top_tenants@.len() ==> named(
                        #[trigger] ov.top_tenants@[i],
                        o.top_tenants@[i],
                        names@,
                    )
                &&& all_shown(ov.top_slow_ops@, o.top_slow_ops@, names@)
                &&& r.entries is None
                &&& r.next_before_ts is None
            },
            AuditContent::Browse(page, _) => {
                &&& r.overview is None
                &&& r.entries == Some(page.entries_view)
                &&& r.next_before_ts == page.next_cursor
            },
        },
{
    match content {
        AuditContent::Overview(o) => {
            let top_tenants: Vec<TopTenant> = name_tenants(&o.top_tenants, names);
            let top_slow_ops: Vec<AuditEntryView> = show_all(&o.top_slow_ops, names);
            AuditJson {
                tab: p.tab,
                window: p.window.as_str(),
                tenant: p.tenant_filter,
                overview: Some(
                    OverviewJson {
                        total: o.total,
                        error_count: o.error_count,
                        p50_ms: o.p50_ms,
                        p99_ms: o.p99_ms,
                        dropped_total: o.dropped_total,
                        top_tenants,
                        top_slow_ops,
                    },
                ),
                entries: None,
                next_before_ts: None,
            }
        },
        AuditContent::Browse(page, _) => AuditJson {
            tab: p.tab,
            window: p.window.as_str(),
            tenant: p.tenant_filter,
            overview: None,
            entries: Some(page.entries_view),
            next_before_ts: page.next_cursor,
        },
    }
}

// ---------------------------------------------------------------------------
// Entries of the console
// ---------------------------------------------------------------------------

/// The entry about something that was done on a page of a tenant.
pub open spec fn page_entry(tenant: Seq<char>, op: Seq<char>, name: Seq<char>, ts: Seq<char>) -> EntryData {
    EntryData {
        ts,
        tenant,
        token_hint: "admin-ui"@,
        op,
        status: "ok"@,
        duration_ms: 0,
        collection: Some(name),
        sql_hash: None,
        record_id: None,
        error_code: None,
        error_message: None,
        auth_method: None,
        oauth_email: None,
        oauth_error_code: None,
        actor_admin_id: None,
        actor_email_snapshot: None,
        extra: Seq::<(Seq<char>, JsonView)>::empty(),
    }
}

/// Makes the entry about something that was done on a page of a tenant, now
/// being a point in time in seconds and nanoseconds.
pub fn audit_admin(tenant_id: &str, op: &str, name: &str, now_secs: i64, now_nanos: u32) -> (r: AuditEntry)
    requires
        in_calendar(now_secs * 1000),
        now_nanos < 1000000000,
    ensures
        r.data() == page_entry(
            tenant_id@,
            op@,
            name@,
            rfc3339_text(now_secs as int, now_nanos as int),
        ),
{
    let extra: Vec<(String, Json)> = Vec::new();
    assert(fields_model(extra@) =~= Seq::<(Seq<char>, JsonView)>::empty());
    AuditEntry {
        ts: write_rfc3339(now_secs, now_nanos),
        tenant: tenant_id.to_owned(),
        token_hint: "admin-ui".to_owned(),
        op: op.to_owned(),
        status: "ok".to_owned(),
        duration_ms: 0,
        collection: Some(name.to_owned()),
        sql_hash: None,
        record_id: None,
        error_code: None,
        error_message: None,
        auth_method: None,
        oauth_email: None,
        oauth_error_code: None,
        actor_admin_id: None,
        actor_email_snapshot: None,
        extra,
    }
}

// ---------------------------------------------------------------------------
// What the log promises
// ---------------------------------------------------------------------------

/// A parameter that is given where it holds something.
pub open spec fn given(name: Seq<char>, value: Seq<char>) -> Seq<Seq<char>> {
    if value.len() == 0 {
        Seq::<Seq<char>>::empty()
    } else {
        seq![name + "="@ + percent(value)]
    }
}

/// The parameters of a list that hold something.
pub open spec fn all_given(extra: Seq<(&str, &str)>) -> Seq<Seq<char>>
    decreases extra.len(),
{
    if extra.len() == 0 {
        Seq::<Seq<char>>::empty()
    } else {
        all_given(extra.drop_last()) + given(extra.last().0@, extra.last().1@)
    }
}

/// The parameter that keeps a page up to date.
pub open spec fn kept_up(auto: bool) -> Seq<Seq<char>> {
    if auto {
        seq!["auto=1"@]
    } else {
        Seq::<Seq<char>>::empty()
    }
}

proof fn lemma_given(url: Seq<char>, name: Seq<char>, value: Seq<char>, longer: Seq<char>)
    requires
        url.contains('?'),
        one_param(name),
        value.len() == 0 ==> longer == url,
        value.len() > 0 ==> longer == url + ("&"@ + name + "="@ + percent(value)),
    ensures
        longer.contains('?'),
        path_of(longer) == path_of(url),
        params(longer) == params(url) + given(name, value),
{
    if value.len() == 0 {
        assert(params(url) + given(name, value) =~= params(url));
    } else {
        reveal_strlit("=");
        let full = name + "="@;
        assert forall|i: int| 0 <= i < full.len() implies #[trigger] full[i] != '&' by {
            if i < name.len() {
                assert(full[i] == name[i]);
            }
        }
        lemma_encoded_param(full, value);
        lemma_next_param(url, full + percent(value));
        assert(longer =~= url + "&"@ + (full + percent(value)));
        assert(params(url).push(full + percent(value)) =~= params(url) + given(name, value));
    }
}

proof fn lemma_kept_up(url: Seq<char>, auto: bool)
    requires
        url.contains('?'),
    ensures
        path_of(if auto { url + "&auto=1"@ } else { url }) == path_of(url),
        params(if auto { url + "&auto=1"@ } else { url }) == params(url) + kept_up(auto),
{
    if auto {
        reveal_strlit("&auto=1");
        reveal_strlit("auto=1");
        reveal_strlit("&");
        lemma_next_param(url, "auto=1"@);
        assert(url + "&auto=1"@ =~= url + "&"@ + "auto=1"@);
        assert(params(url).push("auto=1"@) =~= params(url) + kept_up(auto));
    } else {
        assert(params(url) + kept_up(auto) =~= params(url));
    }
}

proof fn lemma_link_head(base: Seq<char>, tab: Seq<char>, window: Seq<char>)
    requires
        !base.contains('?'),
        one_param(tab),
        one_param(window),
    ensures
        path_of(base + "?tab="@ + tab + "&window="@ + window) == base,
        params(base + "?tab="@ + tab + "&window="@ + window) == seq![
            "tab="@ + tab,
            "window="@ + window,
        ],
        (base + "?tab="@ + tab + "&window="@ + window).contains('?'),
{
    reveal_strlit("?tab=");
    reveal_strlit("?");
    reveal_strlit("tab=");
    reveal_strlit("&window=");
    reveal_strlit("&");
    reveal_strlit("window=");
    let a = "tab="@ + tab;
    let b = "window="@ + window;
    assert forall|i: int| 0 <= i < a.len() implies #[trigger] a[i] != '&' by {
        if i >= 4 {
            assert(a[i] == tab[i - 4]);
        }
    }
    assert forall|i: int| 0 <= i < b.len() implies #[trigger] b[i] != '&' by {
        if i >= 7 {
            assert(b[i] == window[i - 7]);
        }
    }
    lemma_first_param(base, a);
    lemma_next_param(base + "?"@ + a, b);
    assert(base + "?tab="@ + tab + "&window="@ + window =~= base + "?"@ + a + "&"@ + b);
    assert(seq![a].push(b) =~= seq![a, b]);
}

proof fn lemma_link_names(w: Window)
    ensures
        one_param(window_text(w)),
        one_param("browse"@),
        one_param("overview"@),
        one_param("tenant"@),
        one_param("op"@),
        one_param("status"@),
        one_param("before_ts"@),
{
    reveal_strlit("1h");
    reveal_strlit("24h");
    reveal_strlit("7d");
    reveal_strlit("browse");
    reveal_strlit("overview");
    reveal_strlit("tenant");
    reveal_strlit("op");
    reveal_strlit("status");
    reveal_strlit("before_ts");
}

proof fn lemma_parameters(url: Seq<char>, extra: Seq<(&str, &str)>)
    requires
        url.contains('?'),
        forall|i: int| 0 <= i < extra.len() ==> one_param((#[trigger] extra[i]).0@),
    ensures
        (url + parameters(extra)).contains('?'),
        path_of(url + parameters(extra)) == path_of(url),
        params(url + parameters(extra)) == params(url) + all_given(extra),
    decreases extra.len(),
{
    if extra.len() == 0 {
        assert(url + parameters(extra) =~= url);
        assert(params(url) + all_given(extra) =~= params(url));
    } else {
        let head = extra.drop_last();
        assert forall|i: int| 0 <= i < head.len() implies one_param((#[trigger] head[i]).0@) by {
            assert(head[i] == extra[i]);
        }
        lemma_parameters(url, head);
        let k = extra[extra.len() - 1].0@;
        let v = extra.last().1@;
        let shorter = url + parameters(head);
        assert(v.len() > 0 ==> url + parameters(extra) =~= shorter + ("&"@ + k + "="@ + percent(v)));
        lemma_given(shorter, k, v, url + parameters(extra));
        assert(params(url) + all_given(extra) =~= params(url) + all_given(head) + given(k, v));
    }
}

/// A link leads to the page it is below, on its tab and its window, with every
/// parameter that holds something, in their order, and keeps the page up to date
/// exactly where it is to.
pub proof fn law_links_carry_their_parameters(
    base: Seq<char>,
    tab: Seq<char>,
    window: Seq<char>,
    auto: bool,
    extra: Seq<(&str, &str)>,
)
    requires
        !base.contains('?'),
        one_param(tab),
        one_param(window),
        forall|i: int| 0 <= i < extra.len() ==> one_param((#[trigger] extra[i]).0@),
    ensures
        path_of(link(base, tab, window, auto, extra)) == base,
        params(link(base, tab, window, auto, extra)) == seq!["tab="@ + tab, "window="@ + window]
            + all_given(extra) + kept_up(auto),
{
    let head = base + "?tab="@ + tab + "&window="@ + window;
    lemma_link_head(base, tab, window);
    lemma_parameters(head, extra);
    lemma_kept_up(head + parameters(extra), auto);
}

/// The link to the next page keeps the window and every filter that is set, and
/// asks for what lies before the last entry that was shown.
#[verifier::rlimit(60)]
#[verifier::spinoff_prover]
pub proof fn law_next_page_keeps_the_filters(p: AuditPlan, base: Seq<char>, cursor: Seq<char>)
    requires
        !base.contains('?'),
    ensures
        path_of(next_link(p, base, cursor)) == base,
        params(next_link(p, base, cursor)) == seq![
            "tab="@ + "browse"@,
            "window="@ + window_text(p.window),
        ] + given("tenant"@, view_or(p.tenant_filter, ""@)) + given(
            "op"@,
            view_or(p.op_filter, ""@),
        ) + given("status"@, p.status_filter@) + given("before_ts"@, cursor) + kept_up(
            p.auto_refresh,
        ),
{
    lemma_link_names(p.window);
    let t = view_or(p.tenant_filter, ""@);
    let o = view_or(p.op_filter, ""@);
    let s = p.status_filter@;
    let u0 = base + "?tab="@ + "browse"@ + "&window="@ + window_text(p.window);
    let u1 = if t.len() == 0 { u0 } else { u0 + ("&"@ + "tenant"@ + "="@ + percent(t)) };
    let u2 = if o.len() == 0 { u1 } else { u1 + ("&"@ + "op"@ + "="@ + percent(o)) };
    let u3 = if s.len() == 0 { u2 } else { u2 + ("&"@ + "status"@ + "="@ + percent(s)) };
    let u4 = if cursor.len() == 0 {
        u3
    } else {
        u3 + ("&"@ + "before_ts"@ + "="@ + percent(cursor))
    };
    lemma_link_head(base, "browse"@, window_text(p.window));
    lemma_given(u0, "tenant"@, t, u1);
    lemma_given(u1, "op"@, o, u2);
    lemma_given(u2, "status"@, s, u3);
    lemma_given(u3, "before_ts"@, cursor, u4);
    assert(u0 + next_parameters(p, cursor) =~= u4);
    lemma_kept_up(u4, p.auto_refresh);
}

/// A field of an object holds that text.
pub open spec fn holds_text(f: Fields, name: Seq<char>, value: Seq<char>) -> bool {
    field_of(f, name) == Some(JsonView::Text(value))
}

/// A field of an object holds that text, or nothing.
pub open spec fn may_hold_text(f: Fields, name: Seq<char>, value: Option<Seq<char>>) -> bool {
    match value {
        Some(t) => field_of(f, name) == Some(JsonView::Text(t)),
        None => field_of(f, name) is None || field_of(f, name) == Some(JsonView::Null),
    }
}

/// A field of an object holds that number, or nothing.
pub open spec fn may_hold_number(f: Fields, name: Seq<char>, value: Option<int>) -> bool {
    match value {
        Some(n) => field_of(f, name) matches Some(JsonView::Number(t)) && signed_of(t) == Some(n),
        None => field_of(f, name) is None || field_of(f, name) == Some(JsonView::Null),
    }
}

proof fn lemma_other_fields(f: Fields, k: nat, name: Seq<char>)
    requires
        k <= f.len(),
    ensures
        field_of(other_fields(f, k), name) == (if known_field(name) {
            None
        } else {
            field_of(f.take(k as int), name)
        }),
    decreases k,
{
    if k > 0 {
        let before = other_fields(f, (k - 1) as nat);
        lemma_other_fields(f, (k - 1) as nat, name);
        assert(f.take(k as int).drop_last() =~= f.take(k - 1));
        assert(f.take(k as int).last() == f[k - 1]);
        assert(before.push(f[k - 1]).drop_last() =~= before);
        assert(before.push(f[k - 1]).last() == f[k - 1]);
    }
}

/// Every field of an entry is that of its own name in the object that it was read
/// from, and what an entry has no place for it keeps aside.
pub proof fn law_entries_hold_their_fields(f: Fields)
    ensures
        entry_of(f) matches Some(e) ==> {
            &&& holds_text(f, "ts"@, e.ts) && holds_text(f, "tenant"@, e.tenant)
            &&& holds_text(f, "token_hint"@, e.token_hint)
            &&& holds_text(f, "op"@, e.op) && holds_text(f, "status"@, e.status)
            &&& field_of(f, "duration_ms"@) matches Some(JsonView::Number(t)) && unsigned_of(
                t,
                u64::MAX as nat,
            ) == Some(e.duration_ms)
            &&& may_hold_text(f, "collection"@, e.collection)
            &&& may_hold_text(f, "sql_hash"@, e.sql_hash)
            &&& may_hold_number(f, "record_id"@, e.record_id)
            &&& may_hold_text(f, "error_code"@, e.error_code)
            &&& may_hold_text(f, "error_message"@, e.error_message)
            &&& may_hold_text(f, "auth_method"@, e.auth_method)
            &&& may_hold_text(f, "oauth_email"@, e.oauth_email)
            &&& may_hold_text(f, "oauth_error_code"@, e.oauth_error_code)
            &&& may_hold_number(f, "actor_admin_id"@, e.actor_admin_id)
            &&& may_hold_text(f, "actor_email_snapshot"@, e.actor_email_snapshot)
            &&& forall|name: Seq<char>| #[trigger]
                field_of(e.extra, name) == (if known_field(name) {
                    None
                } else {
                    field_of(f, name)
                })
        },
{
    assert(f.take(f.len() as int) =~= f);
    assert forall|name: Seq<char>| #[trigger]
        field_of(other_fields(f, f.len()), name) == (if known_field(name) {
            None
        } else {
            field_of(f, name)
        }) by {
        lemma_other_fields(f, f.len(), name);
    }
}

/// How many of the first `k` lines are blank.
pub open spec fn blanks_in(lines: Seq<Seq<char>>, k: nat) -> nat
    decreases k,
{
    if k == 0 {
        0
    } else {
        blanks_in(lines, (k - 1) as nat) + if trimmed(lines[k - 1]).len() == 0 {
            1nat
        } else {
            0nat
        }
    }
}

/// Every line is an entry, a fault or blank.
pub proof fn law_every_line_counts(lines: Seq<Seq<char>>, k: nat)
    requires
        k <= lines.len(),
    ensures
        entries_in(lines, k).len() + faults_in(lines, k) + blanks_in(lines, k) == k,
    decreases k,
{
    if k > 0 {
        law_every_line_counts(lines, (k - 1) as nat);
    }
}

proof fn lemma_entries_in(lines: Seq<Seq<char>>, k: nat, e: EntryData)
    requires
        k <= lines.len(),
    ensures
        entries_in(lines, k).contains(e) <==> exists|i: int|
            0 <= i < k && #[trigger] entry_of_line(lines[i]) == Some(e),
    decreases k,
{
    if k > 0 {
        let before = entries_in(lines, (k - 1) as nat);
        lemma_entries_in(lines, (k - 1) as nat, e);
        match entry_of_line(lines[k - 1]) {
            Some(x) => {
                lemma_pushed(before, x, e);
            },
            None => {},
        }
        if entries_in(lines, k).contains(e) {
            if before.contains(e) {
                let i = choose|i: int|
                    0 <= i < k - 1 && #[trigger] entry_of_line(lines[i]) == Some(e);
                assert(entry_of_line(lines[i]) == Some(e));
            } else {
                assert(entry_of_line(lines[k - 1]) == Some(e));
            }
        }
    }
}

proof fn lemma_pushed<T>(s: Seq<T>, x: T, e: T)
    ensures
        s.push(x).contains(e) <==> s.contains(e) || x == e,
{
    assert(s.push(x)[s.len() as int] == x);
    if s.contains(e) {
        let i = choose|i: int| 0 <= i < s.len() && s[i] == e;
        assert(s.push(x)[i] == e);
    }
}

proof fn lemma_joined<T>(a: Seq<T>, b: Seq<T>, e: T)
    ensures
        (a + b).contains(e) <==> a.contains(e) || b.contains(e),
{
    if a.contains(e) {
        let i = choose|i: int| 0 <= i < a.len() && a[i] == e;
        assert((a + b)[i] == e);
    }
    if b.contains(e) {
        let i = choose|i: int| 0 <= i < b.len() && b[i] == e;
        assert((a + b)[a.len() + i] == e);
    }
    if (a + b).contains(e) {
        let i = choose|i: int| 0 <= i < (a + b).len() && (a + b)[i] == e;
        if i < a.len() {
            assert(a[i] == e);
        } else {
            assert(b[i - a.len()] == e);
        }
    }
}

proof fn lemma_recent(entries: Seq<EntryData>, k: nat, from: Seq<char>, e: EntryData)
    requires
        k <= entries.len(),
    ensures
        recent(entries, k, from).contains(e) <==> entries.take(k as int).contains(e) && text_le(
            from,
            e.ts,
        ),
    decreases k,
{
    if k > 0 {
        let before = recent(entries, (k - 1) as nat, from);
        lemma_recent(entries, (k - 1) as nat, from, e);
        assert(entries.take(k as int) =~= entries.take(k - 1).push(entries[k - 1]));
        lemma_pushed(before, entries[k - 1], e);
        lemma_pushed(entries.take(k - 1), entries[k - 1], e);
    }
}

/// A file that could be read has a line that is the entry.
pub open spec fn line_holds(f: FileRead, e: EntryData) -> bool {
    match f.lines {
        Some(l) => exists|i: int| 0 <= i < l@.len() && #[trigger] entry_of_line(l@[i]@) == Some(e),
        None => false,
    }
}

proof fn lemma_recent_in_file(f: FileRead, from: Seq<char>, e: EntryData)
    ensures
        recent_in_file(f, from).contains(e) <==> line_holds(f, e) && text_le(from, e.ts),
{
    match f.lines {
        Some(l) => {
            let lines = views(l@);
            let all = entries_in(lines, l@.len());
            lemma_recent(all, all.len(), from, e);
            assert(all.take(all.len() as int) =~= all);
            lemma_entries_in(lines, l@.len(), e);
            if all.contains(e) {
                let i = choose|i: int|
                    0 <= i < l@.len() && #[trigger] entry_of_line(lines[i]) == Some(e);
                assert(entry_of_line(l@[i]@) == Some(e));
            }
            if line_holds(f, e) {
                let i = choose|i: int|
                    0 <= i < l@.len() && #[trigger] entry_of_line(l@[i]@) == Some(e);
                assert(entry_of_line(lines[i]) == Some(e));
            }
        },
        None => {},
    }
}

proof fn lemma_recent_in_files(files: Seq<FileRead>, k: nat, from: Seq<char>, e: EntryData)
    requires
        k <= files.len(),
    ensures
        recent_in_files(files, k, from).contains(e) <==> (exists|i: int|
            0 <= i < k && line_holds(#[trigger] files[i], e)) && text_le(from, e.ts),
    decreases k,
{
    if k > 0 {
        let n = (k - 1) as nat;
        lemma_recent_in_files(files, n, from, e);
        lemma_recent_in_file(files[k - 1], from, e);
        lemma_joined(recent_in_files(files, n, from), recent_in_file(files[k - 1], from), e);
    }
}

/// A scan finds the entries of all lines of all files that are not older than the
/// window, nothing else, and shows the newest first.
pub proof fn law_scan_finds_what_is_recent(files: Seq<FileRead>, from: Seq<char>)
    ensures
        forall|e: EntryData|
            #![trigger newest_first(recent_in_files(files, files.len(), from)).contains(e)]
            newest_first(recent_in_files(files, files.len(), from)).contains(e) <==> (exists|
                i: int,
            |
                0 <= i < files.len() && line_holds(#[trigger] files[i], e)) && text_le(from, e.ts),
        forall|i: int, j: int|
            0 <= i < j < newest_first(recent_in_files(files, files.len(), from)).len() ==> text_le(
                (#[trigger] newest_first(recent_in_files(files, files.len(), from))[j]).ts,
                (#[trigger] newest_first(recent_in_files(files, files.len(), from))[i]).ts,
            ),
{
    let rows = recent_in_files(files, files.len(), from);
    let keys = entry_times(rows);
    let sorted = newest_first(rows);
    law_sorted_order(keys, true);
    let order = sorted_order(keys, true);
    assert forall|e: EntryData| #![trigger sorted.contains(e)]
        sorted.contains(e) <==> (exists|i: int|
            0 <= i < files.len() && line_holds(#[trigger] files[i], e)) && text_le(from, e.ts) by {
        lemma_recent_in_files(files, files.len(), from, e);
        if sorted.contains(e) {
            let i = choose|i: int| 0 <= i < sorted.len() && sorted[i] == e;
            assert(order.contains(order[i]));
            assert(rows[order[i]] == e);
        }
        if rows.contains(e) {
            let i = choose|i: int| 0 <= i < rows.len() && rows[i] == e;
            assert(order.contains(i));
            let j = choose|j: int| 0 <= j < order.len() && order[j] == i;
            assert(sorted[j] == e);
        }
    }
    assert forall|i: int, j: int| 0 <= i < j < sorted.len() implies text_le(
        (#[trigger] sorted[j]).ts,
        (#[trigger] sorted[i]).ts,
    ) by {
        assert(order.contains(order[i]) && order.contains(order[j]));
        assert(keys[order[i]] == sorted[i].ts && keys[order[j]] == sorted[j].ts);
    }
}

/// A page shows the first hundred entries that were found, each in its place.
pub proof fn law_page_shows_the_first_hundred(rows: Seq<AuditEntry>)
    ensures
        rows.len() <= 100 ==> shown_rows(rows).len() == rows.len(),
        rows.len() > 100 ==> shown_rows(rows).len() == 100,
        forall|i: int| 0 <= i < shown_rows(rows).len() ==> #[trigger] shown_rows(rows)[i] == rows[i],
{
}

/// A tenant is shown under its name, the console under its own, and a tenant that is
/// gone under its id.
pub proof fn law_tenants_are_shown_by_name(names: Seq<TenantSummary>, id: Seq<char>, i: int)
    ensures
        id == "-"@ ==> shown_name(names, id) == "admin"@,
        id != "-"@ && (forall|k: int| 0 <= k < names.len() ==> (#[trigger] names[k]).id@ != id)
            ==> shown_name(names, id) == id,
        0 <= i < names.len() && id != "-"@ && names[i].id@ == id && (forall|k: int|
            i < k < names.len() ==> (#[trigger] names[k]).id@ != id) ==> shown_name(names, id)
            == names[i].name@,
    decreases names.len(),
{
    if names.len() > 0 {
        let head = names.drop_last();
        let last = names.len() - 1;
        law_tenants_are_shown_by_name(head, id, i);
        assert forall|k: int| 0 <= k < head.len() implies head[k] == names[k] by {}
        if names[last].id@ == id {
            assert(listed_name(names, id) == Some(names[last].name@));
        } else {
            assert(listed_name(names, id) == listed_name(head, id));
            if 0 <= i < last && names[i].id@ == id {
                assert(head[i] == names[i]);
            }
        }
    }
}

/// The operations that a page offers to filter by are those of its entries, and all
/// of them as long as there is room.
pub proof fn law_operations_are_those_of_the_entries(
    entries: Seq<AuditEntry>,
    k: nat,
    limit: nat,
)
    requires
        k <= entries.len(),
    ensures
        ops_of(entries, k, limit).finite(),
        ops_of(entries, k, limit).len() <= limit,
        forall|op: Seq<char>| #[trigger]
            ops_of(entries, k, limit).contains(op) ==> exists|i: int|
                0 <= i < k && (#[trigger] entries[i]).op@ == op,
        ops_of(entries, k, limit).len() < limit ==> forall|i: int|
            0 <= i < k ==> ops_of(entries, k, limit).contains((#[trigger] entries[i]).op@),
    decreases k,
{
    if k > 0 {
        let before = ops_of(entries, (k - 1) as nat, limit);
        law_operations_are_those_of_the_entries(entries, (k - 1) as nat, limit);
        let now = ops_of(entries, k, limit);
        assert forall|op: Seq<char>| #[trigger] now.contains(op) implies exists|i: int|
            0 <= i < k && (#[trigger] entries[i]).op@ == op by {
            if before.contains(op) {
                let i = choose|i: int| 0 <= i < k - 1 && (#[trigger] entries[i]).op@ == op;
                assert(entries[i].op@ == op);
            } else {
                assert(entries[k - 1].op@ == op);
            }
        }
    }
}

/// A percentile is one of the values; at least so many in a hundred come no later
/// than it in the order, and fewer come before it.
pub proof fn law_percentile_is_the_nearest_rank(sorted: Seq<u64>, p: nat)
    requires
        sorted.len() > 0,
        1 <= p <= 100,
    ensures
        exists|k: int|
            0 <= k < sorted.len() && percentile_of(sorted, p) == #[trigger] sorted[k] && 100 * (k
                + 1) >= p * sorted.len() && 100 * k < p * sorted.len(),
{
    law_percentile_covers(sorted.len(), p);
    let k = rank_position(sorted.len(), p);
    assert(percentile_of(sorted, p) == sorted[k]);
}

proof fn lemma_wanted_files(names: Seq<Seq<char>>, k: nat, first_day: int, name: Seq<char>)
    requires
        k <= names.len(),
    ensures
        wanted_files(names, k, first_day).contains(name) <==> names.take(k as int).contains(name)
            && wanted_file(name, first_day),
    decreases k,
{
    if k > 0 {
        lemma_wanted_files(names, (k - 1) as nat, first_day, name);
        assert(names.take(k as int) =~= names.take(k - 1).push(names[k - 1]));
        lemma_pushed(names.take(k - 1), names[k - 1], name);
        lemma_pushed(wanted_files(names, (k - 1) as nat, first_day), names[k - 1], name);
    }
}

/// The files that are read are those whose name begins as that of a log file, dates
/// a day that is not before the window, and ends as one does; the last in the order
/// of the names comes first.
pub proof fn law_files_of_the_window_are_read(names: Seq<Seq<char>>, first_day: int)
    ensures
        forall|name: Seq<char>| #[trigger]
            arranged(wanted_files(names, names.len(), first_day), true).contains(name)
                <==> names.contains(name) && (date_part(name) matches Some(p) && (date_number(
                p.0,
                FILE_DATE@,
            ) matches Some(d) && d >= first_day) && recognised_suffix(p.1)),
        forall|i: int, j: int|
            0 <= i < j < arranged(wanted_files(names, names.len(), first_day), true).len()
                ==> text_le(
                #[trigger] arranged(wanted_files(names, names.len(), first_day), true)[j],
                #[trigger] arranged(wanted_files(names, names.len(), first_day), true)[i],
            ),
{
    let keys = wanted_files(names, names.len(), first_day);
    let out = arranged(keys, true);
    let order = sorted_order(keys, true);
    law_sorted_order(keys, true);
    assert(names.take(names.len() as int) =~= names);
    assert forall|name: Seq<char>| #[trigger] out.contains(name) <==> names.contains(name) && (
    date_part(name) matches Some(p) && (date_number(p.0, FILE_DATE@) matches Some(d) && d
        >= first_day) && recognised_suffix(p.1)) by {
        lemma_wanted_files(names, names.len(), first_day, name);
        if out.contains(name) {
            let i = choose|i: int| 0 <= i < out.len() && out[i] == name;
            assert(order.contains(order[i]));
            assert(keys[order[i]] == name);
        }
        if keys.contains(name) {
            let i = choose|i: int| 0 <= i < keys.len() && keys[i] == name;
            assert(order.contains(i));
            let j = choose|j: int| 0 <= j < order.len() && order[j] == i;
            assert(out[j] == name);
        }
    }
    assert forall|i: int, j: int| 0 <= i < j < out.len() implies text_le(
        #[trigger] out[j],
        #[trigger] out[i],
    ) by {
        assert(order.contains(order[i]) && order.contains(order[j]));
        assert(keys[order[i]] == out[i] && keys[order[j]] == out[j]);
    }
}

/// The window of seven days reaches seven times as far back as that of a day, and
/// that of a day as far as twenty-four of an hour.
pub proof fn law_windows_reach_back(now: int)
    ensures
        now - cutoff(now, Window::H24) == 24 * (now - cutoff(now, Window::H1)),
        now - cutoff(now, Window::D7) == 7 * (now - cutoff(now, Window::H24)),
        now - cutoff(now, Window::H1) == 60 * 60 * 1000,
{
}

proof fn lemma_with_field_distinct(f: Fields, name: Seq<char>, value: JsonView)
    requires
        forall|i: int, j: int|
            0 <= i < j < f.len() ==> (#[trigger] f[i]).0 != (#[trigger] f[j]).0,
    ensures
        forall|i: int, j: int|
            0 <= i < j < with_field(f, name, value).len() ==> (#[trigger] with_field(
                f,
                name,
                value,
            )[i]).0 != (#[trigger] with_field(f, name, value)[j]).0,
        forall|i: int|
            0 <= i < with_field(f, name, value).len() ==> (#[trigger] with_field(
                f,
                name,
                value,
            )[i]).0 == name || exists|j: int|
                0 <= j < f.len() && (#[trigger] f[j]).0 == with_field(f, name, value)[i].0,
    decreases f.len(),
{
    let r = with_field(f, name, value);
    if f.len() > 0 {
        let rest = f.drop_first();
        if f[0].0 == name {
            assert forall|i: int| 0 <= i < r.len() implies (#[trigger] r[i]).0 == name || exists|
                j: int,
            |
                0 <= j < f.len() && (#[trigger] f[j]).0 == r[i].0 by {
                assert(f[i].0 == r[i].0);
            }
        } else {
            lemma_with_field_distinct(rest, name, value);
            let w = with_field(rest, name, value);
            assert forall|i: int| 0 <= i < r.len() implies (#[trigger] r[i]).0 == name || exists|
                j: int,
            |
                0 <= j < f.len() && (#[trigger] f[j]).0 == r[i].0 by {
                if i == 0 {
                    assert(f[0].0 == r[0].0);
                } else {
                    assert(r[i] == w[i - 1]);
                    if w[i - 1].0 != name {
                        let j = choose|j: int|
                            0 <= j < rest.len() && (#[trigger] rest[j]).0 == w[i - 1].0;
                        assert(f[j + 1].0 == r[i].0);
                    }
                }
            }
            assert forall|i: int, j: int| 0 <= i < j < r.len() implies (#[trigger] r[i]).0
                != (#[trigger] r[j]).0 by {
                assert(r[j] == w[j - 1]);
                if i == 0 {
                    if w[j - 1].0 != name {
                        let k = choose|k: int|
                            0 <= k < rest.len() && (#[trigger] rest[k]).0 == w[j - 1].0;
                        assert(f[k + 1] == rest[k]);
                    }
                } else {
                    assert(r[i] == w[i - 1]);
                }
            }
        }
    }
}

/// The extra fields of a row hold the address and the program of the caller, each
/// under its own name, and all else that was stored stays as it was.
pub proof fn law_rows_name_their_caller(
    stored: Fields,
    ip: Option<Seq<char>>,
    agent: Option<Seq<char>>,
    other: Seq<char>,
)
    requires
        forall|i: int, j: int|
            0 <= i < j < stored.len() ==> (#[trigger] stored[i]).0 != (#[trigger] stored[j]).0,
    ensures
        ip is Some ==> field_of(row_extra(Some(JsonView::Object(stored)), ip, agent), "caller_ip"@)
            == Some(JsonView::Text(ip->0)),
        agent is Some ==> field_of(
            row_extra(Some(JsonView::Object(stored)), ip, agent),
            "user_agent"@,
        ) == Some(JsonView::Text(agent->0)),
        (other == "caller_ip"@ ==> ip is None) && (other == "user_agent"@ ==> agent is None)
            ==> field_of(row_extra(Some(JsonView::Object(stored)), ip, agent), other) == field_of(
            stored,
            other,
        ),
{
    reveal_strlit("caller_ip");
    reveal_strlit("user_agent");
    assert("caller_ip"@.len() != "user_agent"@.len());
    let a = stored;
    let b = match ip {
        Some(s) => with_field(a, "caller_ip"@, JsonView::Text(s)),
        None => a,
    };
    match ip {
        Some(s) => {
            law_setting_a_field(a, "caller_ip"@, JsonView::Text(s), other);
            lemma_with_field_distinct(a, "caller_ip"@, JsonView::Text(s));
        },
        None => {},
    }
    match agent {
        Some(s) => {
            law_setting_a_field(b, "user_agent"@, JsonView::Text(s), other);
            law_setting_a_field(b, "user_agent"@, JsonView::Text(s), "caller_ip"@);
        },
        None => {},
    }
}

/// The rows of a page say what the entries say, each field under its own heading.
pub proof fn law_views_say_what_the_entries_say(v: AuditEntryView, e: EntryData, name: Seq<char>)
    requires
        shows(v, e, name),
    ensures
        v.tenant@ == e.tenant && v.tenant_name@ == name && v.token_hint@ == e.token_hint,
        v.op@ == e.op && v.status@ == e.status && v.duration_ms == e.duration_ms,
        v.error_code is Some == (e.error_code is Some),
        v.error_message is Some == (e.error_message is Some),
        v.error_code is Some ==> (v.error_code->0)@ == e.error_code->0,
        v.error_message is Some ==> (v.error_message->0)@ == e.error_message->0,
        v.collection is Some ==> (v.collection->0)@ == e.collection->0,
        v.sql_hash is Some ==> (v.sql_hash->0)@ == e.sql_hash->0,
        v.oauth_email is Some ==> (v.oauth_email->0)@ == e.oauth_email->0,
        v.oauth_error_code is Some ==> (v.oauth_error_code->0)@ == e.oauth_error_code->0,
        v.auth_method is Some ==> (v.auth_method->0)@ == e.auth_method->0,
        v.record_id is Some ==> v.record_id->0 == e.record_id->0,
        v.ts@ == e.ts,
        reformatted(e.ts, SHORT_TIME@) is None ==> v.ts_display@ == e.ts,
{
}

/// The links of a page stay on the log that it shows. Each tab has its own link, the
/// tabs keep the window, and of the windows to choose exactly the one that is shown is
/// marked; choosing one keeps the tab.
pub proof fn law_page_links_lead_where_they_say(
    r: BodyCtx,
    p: AuditPlan,
    scope: AuditScope,
    root: Seq<char>,
)
    requires
        framed(r, p, scope, root),
        !root.contains('?'),
        scope matches AuditScope::Tenant(id) ==> !id@.contains('?'),
        one_param(p.tab@),
    ensures
        params(r.overview_link@) == seq!["tab="@ + "overview"@, "window="@ + window_text(p.window)],
        params(r.browse_link@) == seq!["tab="@ + "browse"@, "window="@ + window_text(p.window)],
        params(r.refresh_link@) == seq!["tab="@ + p.tab@, "window="@ + window_text(p.window)],
        params(r.auto_toggle_link@) == seq!["tab="@ + p.tab@, "window="@ + window_text(p.window)]
            + kept_up(!p.auto_refresh),
        r.window_choices@.len() == 3,
        forall|i: int|
            0 <= i < 3 ==> {
                let c = #[trigger] r.window_choices@[i];
                &&& params(c.href@) == seq!["tab="@ + p.tab@, "window="@ + c.label@]
                &&& c.active <==> c.label@ == window_text(p.window)
            },
        window_of(r.window_choices@[0].label@) is H1,
        window_of(r.window_choices@[1].label@) is H24,
        window_of(r.window_choices@[2].label@) is D7,
        scope matches AuditScope::Tenant(id) ==> path_of(r.browse_link@) == root
            + "/admin/tenants/"@ + id@ + "/_logs"@ && r.tenant_filter is None,
        scope is Host ==> path_of(r.browse_link@) == root + "/admin/audit"@,
{
    let base = base_of(scope, root);
    let none = Seq::<(&str, &str)>::empty();
    reveal_strlit("/admin/audit");
    reveal_strlit("/admin/tenants/");
    reveal_strlit("/_logs");
    reveal_strlit("1h");
    reveal_strlit("24h");
    reveal_strlit("7d");
    assert("1h"@[0] == '1' && "24h"@[0] == '2' && "7d"@[0] == '7');
    assert(!base.contains('?')) by {
        if base.contains('?') {
            let i = choose|i: int| 0 <= i < base.len() && base[i] == '?';
            if i < root.len() {
                assert(root[i] == '?');
            } else {
                match scope {
                    AuditScope::Host => {
                        assert(base[i] == "/admin/audit"@[i - root.len()]);
                    },
                    AuditScope::Tenant(id) => {
                        let n = root.len() + "/admin/tenants/"@.len();
                        if i < n {
                            assert(base[i] == "/admin/tenants/"@[i - root.len()]);
                        } else if i < n + id@.len() {
                            assert(base[i] == id@[i - n]);
                        } else {
                            assert(base[i] == "/_logs"@[i - n - id@.len()]);
                        }
                    },
                }
            }
        }
    }
    lemma_link_names(p.window);
    lemma_link_names(Window::H1);
    lemma_link_names(Window::H24);
    lemma_link_names(Window::D7);
    let w = window_text(p.window);
    law_links_carry_their_parameters(base, "overview"@, w, false, none);
    law_links_carry_their_parameters(base, "browse"@, w, false, none);
    law_links_carry_their_parameters(base, p.tab@, w, false, none);
    law_links_carry_their_parameters(base, p.tab@, w, !p.auto_refresh, none);
    law_links_carry_their_parameters(base, p.tab@, "1h"@, false, none);
    law_links_carry_their_parameters(base, p.tab@, "24h"@, false, none);
    law_links_carry_their_parameters(base, p.tab@, "7d"@, false, none);
    lemma_no_extras("overview"@, w);
    lemma_no_extras("browse"@, w);
    lemma_no_extras(p.tab@, w);
    lemma_no_extras(p.tab@, "1h"@);
    lemma_no_extras(p.tab@, "24h"@);
    lemma_no_extras(p.tab@, "7d"@);
}

proof fn lemma_no_extras(tab: Seq<char>, window: Seq<char>)
    ensures
        seq!["tab="@ + tab, "window="@ + window] + all_given(Seq::<(&str, &str)>::empty())
            + kept_up(false) == seq!["tab="@ + tab, "window="@ + window],
        seq!["tab="@ + tab, "window="@ + window] + all_given(Seq::<(&str, &str)>::empty())
            == seq!["tab="@ + tab, "window="@ + window],
{
    let a = seq!["tab="@ + tab, "window="@ + window];
    assert(a + all_given(Seq::<(&str, &str)>::empty()) =~= a);
    assert(a + kept_up(false) =~= a);
}

/// What is done on a page of a tenant stands in the log of that tenant as done, with
/// what was done and what it was done to, and as done by no program.
pub proof fn law_page_entries_name_what_was_done(
    tenant: Seq<char>,
    op: Seq<char>,
    name: Seq<char>,
    ts: Seq<char>,
)
    ensures
        ({
            let e = page_entry(tenant, op, name, ts);
            &&& e.tenant == tenant && e.op == op && e.collection == Some(name) && e.ts == ts
            &&& e.status == "ok"@ && e.error_code is None && e.error_message is None
            &&& e.token_hint == "admin-ui"@ && e.extra.len() == 0
        }),
{
}

/// A line that names a field of an entry twice is none; any other is the entry that its
/// JSON stands for, and a blank line is none.
pub proof fn law_repeated_fields_are_refused(
    j: Option<JsonView>,
    names: Seq<Seq<char>>,
    a: int,
    b: int,
)
    ensures
        0 <= a < b < names.len() && names[a] == names[b] && known_field(names[a]) ==> entry_of_read(
            j,
            Some(names),
        ) is None,
        (forall|i: int, k: int|
            0 <= i < k < names.len() ==> #[trigger] names[i] != #[trigger] names[k])
            ==> entry_of_read(j, Some(names)) == (match j {
            Some(JsonView::Object(f)) => entry_of(f),
            _ => None,
        }),
{
    if 0 <= a < b < names.len() && names[a] == names[b] && known_field(names[a]) {
        assert(repeats_a_field(names));
    }
}

/// The fields that an entry has a place for.
pub open spec fn entry_fields() -> Seq<Seq<char>> {
    seq![
        "ts"@,
        "tenant"@,
        "token_hint"@,
        "op"@,
        "status"@,
        "duration_ms"@,
        "collection"@,
        "sql_hash"@,
        "record_id"@,
        "error_code"@,
        "error_message"@,
        "auth_method"@,
        "oauth_email"@,
        "oauth_error_code"@,
        "actor_admin_id"@,
        "actor_email_snapshot"@,
    ]
}

/// An entry has a place for exactly these fields.
pub proof fn law_entries_have_a_place_for_their_fields(name: Seq<char>)
    ensures
        known_field(name) <==> entry_fields().contains(name),
{
    let f = entry_fields();
    assert(f[0] == "ts"@ && f[1] == "tenant"@ && f[2] == "token_hint"@ && f[3] == "op"@);
    assert(f[4] == "status"@ && f[5] == "duration_ms"@ && f[6] == "collection"@);
    assert(f[7] == "sql_hash"@ && f[8] == "record_id"@ && f[9] == "error_code"@);
    assert(f[10] == "error_message"@ && f[11] == "auth_method"@ && f[12] == "oauth_email"@);
    assert(f[13] == "oauth_error_code"@ && f[14] == "actor_admin_id"@);
    assert(f[15] == "actor_email_snapshot"@);
}

/// Days are counted one by one, each of 86400 seconds, and 1970 begins with the day after
/// 719162.
pub proof fn law_days_are_counted(ms: int, within: int)
    requires
        ms % 86400000 == 0,
        0 <= within < 86400000,
    ensures
        day_of(ms + within) == day_of(ms),
        day_of(ms + 86400000) == day_of(ms) + 1,
        day_of(0) == 719163,
{
}

proof fn lemma_ascii_bytes(s: Seq<char>, n: nat)
    requires
        n <= s.len(),
        forall|i: int| 0 <= i < n ==> (#[trigger] s[i] as u32) < 0x80,
    ensures
        chars_in_bytes(s, n) == Some(n),
    decreases n,
{
    if n > 0 {
        assert((s[0] as u32) < 0x80);
        assert forall|i: int| 0 <= i < n - 1 implies (#[trigger] s.drop_first()[i] as u32) < 0x80 by {
            assert(s.drop_first()[i] == s[i + 1]);
        }
        lemma_ascii_bytes(s.drop_first(), (n - 1) as nat);
    }
}

/// The name of a log file holds its date, ten characters long, behind `audit-`; behind
/// the date stands `.jsonl`, and perhaps a number and perhaps `.gz`.
pub proof fn law_log_files_are_named_by_date(date: Seq<char>, rest: Seq<char>, number: Seq<char>)
    requires
        date.len() == 10,
        forall|i: int| 0 <= i < 10 ==> (#[trigger] date[i] as u32) < 0x80,
        all_digits(number),
    ensures
        date_part("audit-"@ + (date + rest)) == Some((date, rest)),
        recognised_suffix(".jsonl"@),
        recognised_suffix(".jsonl"@ + ("."@ + number)),
        recognised_suffix(".jsonl"@ + ("."@ + (number + ".gz"@))),
        !recognised_suffix(".jsonl"@ + number),
{
    reveal_strlit("audit-");
    reveal_strlit(".jsonl");
    reveal_strlit(".");
    reveal_strlit(".gz");
    let a = "audit-"@;
    let whole = date + rest;
    assert((a + whole).subrange(0, a.len() as int) =~= a);
    assert((a + whole).skip(a.len() as int) =~= whole);
    assert forall|i: int| 0 <= i < 10 implies (#[trigger] whole[i] as u32) < 0x80 by {
        assert(whole[i] == date[i]);
    }
    lemma_ascii_bytes(whole, 10);
    assert(whole.take(10) =~= date);
    assert(whole.skip(10) =~= rest);
    let j = ".jsonl"@;
    let dot = "."@;
    let gz = ".gz"@;
    let none = Seq::<char>::empty();
    assert(j.subrange(0, j.len() as int) =~= j);
    assert(j.skip(j.len() as int) =~= none);
    let t1 = dot + number;
    let t2 = dot + (number + gz);
    assert((j + t1).subrange(0, j.len() as int) =~= j);
    assert((j + t1).skip(j.len() as int) =~= t1);
    assert((j + t2).subrange(0, j.len() as int) =~= j);
    assert((j + t2).skip(j.len() as int) =~= t2);
    assert(t1.subrange(0, 1) =~= dot);
    assert(t1.skip(1) =~= number);
    assert(t2.subrange(0, 1) =~= dot);
    assert(t2.skip(1) =~= number + gz);
    let ng = number + gz;
    assert(ng.subrange(ng.len() - 3, ng.len() as int) =~= gz);
    assert(ng.take(ng.len() - 3) =~= number);
    assert(ng.subrange(0, ng.len() - 3) =~= number);
    assert(before_suffix(number, gz) is None) by {
        if before_suffix(number, gz) is Some {
            let n = number.len() as int;
            assert(number.subrange(n - 3, n)[2] == number[n - 1]);
            assert(gz[2] == 'z');
            assert(crate::text::ascii_digit(number[n - 1]));
        }
    }
    assert((j + number).subrange(0, j.len() as int) =~= j);
    assert((j + number).skip(j.len() as int) =~= number);
    if has_prefix_dot(number) {
        assert(number.subrange(0, 1)[0] == number[0]);
        assert(crate::text::ascii_digit(number[0]));
    }
}

spec fn has_prefix_dot(s: Seq<char>) -> bool {
    after_prefix(s, "."@) is Some
}

/// The files that could not be read are named, and no others.
pub proof fn law_unread_files_are_named(files: Seq<FileRead>, k: nat, name: Seq<char>)
    requires
        k <= files.len(),
    ensures
        unread_files(files, k).contains(name) <==> exists|i: int|
            0 <= i < k && (#[trigger] files[i]).lines is None && files[i].name@ == name,
    decreases k,
{
    if k > 0 {
        let before = unread_files(files, (k - 1) as nat);
        law_unread_files_are_named(files, (k - 1) as nat, name);
        if files[k - 1].lines is None {
            lemma_pushed(before, files[k - 1].name@, name);
        }
        if unread_files(files, k).contains(name) {
            if before.contains(name) {
                let i = choose|i: int|
                    0 <= i < k - 1 && (#[trigger] files[i]).lines is None && files[i].name@ == name;
                assert(files[i].name@ == name);
            } else {
                assert(files[k - 1].name@ == name);
            }
        }
    }
}

/// A tenant of the overview keeps its counts and gets its name.
pub proof fn law_busiest_tenants_keep_their_counts(
    t: TopTenant,
    before: TopTenant,
    names: Seq<TenantSummary>,
)
    requires
        named(t, before, names),
    ensures
        t.tenant@ == before.tenant@ && t.count == before.count && t.errors == before.errors,
        t.tenant_name@ == shown_name(names, before.tenant@),
{
}

/// A page shows the entries that were found, or the overview, and never both; only a page
/// of entries leads on, and from the last entry that it shows.
pub proof fn law_pages_show_what_was_found(
    r: BodyCtx,
    p: AuditPlan,
    base: Seq<char>,
    names: Seq<TenantSummary>,
    content: AuditContent,
)
    requires
        filled(r, p, base, names, content),
    ensures
        content is Overview <==> r.overview is Some,
        content matches AuditContent::Overview(o) ==> {
            &&& (r.overview->0).total == o.total && (r.overview->0).error_count == o.error_count
            &&& (r.overview->0).p50_ms == o.p50_ms && (r.overview->0).p99_ms == o.p99_ms
            &&& r.entries@.len() == 0 && r.next_page_link is None
        },
        content matches AuditContent::Browse(page, json) ==> {
            &&& r.entries == page.entries && r.entries_view == page.entries_view
            &&& r.next_page_link is Some <==> page.next_cursor is Some
            &&& page.next_cursor matches Some(c) ==> (r.next_page_link->0)@ == next_link(p, base, c@)
        },
{
}

/// Somebody who looks at one tenant is offered no other.
pub proof fn law_one_tenant_offers_no_other(
    r: Seq<TenantSummary>,
    scope: AuditScope,
    names: Seq<TenantSummary>,
)
    requires
        offered(r, scope, names),
    ensures
        scope is Tenant ==> r.len() == 0,
        scope is Host ==> summary_views(r).to_multiset() == summary_views(names).to_multiset(),
{
    if scope is Host {
        let all = summary_views(names);
        lemma_name_then_id_is_total();
        all.lemma_sort_by_ensures(name_then_id());
    }
}

/// A file that is a text is read as its lines.
pub proof fn law_texts_are_read_by_lines(t: Seq<char>)
    ensures
        plain_lines(encode_utf8(t)) == Some(split_on(t, '\n')),
{
    vstd::utf8::encode_utf8_valid_utf8(t);
    vstd::utf8::encode_utf8_decode_utf8(t);
}

/// The log of the server stands below the console, that of a tenant below the tenant.
pub proof fn law_logs_have_their_place(root: Seq<char>, id: String, other: String)
    ensures
        base_of(AuditScope::Host, root) == root + "/admin/audit"@,
        has_prefix(base_of(AuditScope::Tenant(id), root), root + "/admin/tenants/"@ + id@),
        has_suffix(base_of(AuditScope::Tenant(id), root), "/_logs"@),
        base_of(AuditScope::Tenant(id), root) == base_of(AuditScope::Tenant(other), root) ==> id@
            == other@,
{
    let a = base_of(AuditScope::Tenant(id), root);
    let head = root + "/admin/tenants/"@ + id@;
    assert(a.subrange(0, head.len() as int) =~= head);
    assert(a.subrange(a.len() - "/_logs"@.len(), a.len() as int) =~= "/_logs"@);
    let p = root + "/admin/tenants/"@;
    let b = base_of(AuditScope::Tenant(other), root);
    assert(a.subrange(p.len() as int, a.len() - "/_logs"@.len()) =~= id@);
    assert(b.subrange(p.len() as int, b.len() - "/_logs"@.len()) =~= other@);
}

/// There is something to show where entries were counted and their durations are known.
pub proof fn law_counted_entries_are_shown(rows: OverviewRows)
    ensures
        !nothing_to_show(rows) <==> rows.totals is Some && (rows.totals->0).0 > 0
            && rows.durations is Some,
{
}

/// The choice of a window leads to the same tab with that window, and is marked where it
/// is the one that is shown.
pub proof fn law_window_choices_lead_to_their_window(
    c: WindowChoice,
    w: Window,
    base: Seq<char>,
    tab: Seq<char>,
    current: Window,
)
    requires
        choice_of(c, w, base, tab, current),
        !base.contains('?'),
        one_param(tab),
    ensures
        c.label@ == window_text(w),
        path_of(c.href@) == base,
        params(c.href@) == seq!["tab="@ + tab, "window="@ + window_text(w)],
        c.active <==> w == current,
{
    lemma_link_names(w);
    law_links_carry_their_parameters(
        base,
        tab,
        window_text(w),
        false,
        Seq::<(&str, &str)>::empty(),
    );
    assert(params(c.href@) =~= seq!["tab="@ + tab, "window="@ + window_text(w)]);
}

} // verus!
