//! The functions of a tenant: their list, and what is done to them there.

use vstd::prelude::*;
use crate::backups::{plain, PlainRefusal};
use crate::json::{json_of, json_string, parse_json, text_to_json, Json};
use crate::text::{
    concat2, concat3, first_chars, has_prefix, has_suffix, join, joined_with, take_chars, trim,
    trimmed, views,
};

verus! {

fn words(status: u16, message: &str) -> (r: PlainRefusal)
    ensures
        plain(r, status, message@),
{
    PlainRefusal { status, message: message.to_owned() }
}

// ---------------------------------------------------------------------------
// The list
// ---------------------------------------------------------------------------

/// What a function is called by.
#[derive(Debug)]
pub enum TriggerSpec {
    Record { collection: String, events: Vec<String> },
    FileUploaded,
}

/// A trigger for a reader.
pub open spec fn trigger_text(t: TriggerSpec) -> Seq<char> {
    match t {
        TriggerSpec::Record { collection, events } => "record."@ + joined_with(
            views(events@),
            "|"@,
        ) + ":"@ + collection@,
        TriggerSpec::FileUploaded => "file.uploaded"@,
    }
}

/// The triggers for a reader.
pub open spec fn trigger_texts(t: Seq<TriggerSpec>) -> Seq<Seq<char>> {
    t.map_values(|s: TriggerSpec| trigger_text(s))
}

fn write_trigger(t: &TriggerSpec) -> (r: String)
    ensures
        r@ == trigger_text(*t),
{
    match t {
        TriggerSpec::Record { collection, events } => {
            let e: String = join(events, "|");
            let s: String = concat3("record.", e.as_str(), ":");
            concat2(s.as_str(), collection.as_str())
        },
        TriggerSpec::FileUploaded => "file.uploaded".to_owned(),
    }
}

/// Sums the triggers of a function up. Where they could not be read, the text
/// they are stored as is shown.
pub fn triggers_summary(parsed: &Option<Vec<TriggerSpec>>, triggers_json: &str) -> (r: String)
    ensures
        r@ == (match parsed {
            Some(t) => joined_with(trigger_texts(t@), ", "@),
            None => triggers_json@,
        }),
{
    match parsed {
        None => triggers_json.to_owned(),
        Some(t) => {
            let mut parts: Vec<String> = Vec::new();
            let mut i: usize = 0;
            while i < t.len()
                invariant
                    i <= t@.len(),
                    parts@.len() == i,
                    forall|k: int| 0 <= k < i ==> (#[trigger] parts@[k])@ == trigger_text(t@[k]),
                decreases t@.len() - i,
            {
                parts.push(write_trigger(&t[i]));
                i = i + 1;
            }
            assert(views(parts@) =~= trigger_texts(t@));
            join(&parts, ", ")
        },
    }
}

/// A line of the log of a function.
#[derive(Debug)]
pub struct LogRow {
    pub status: String,
    pub created_at: String,
}

/// The status and the time of the last run, empty where there was none.
pub fn last_run(logs: &Vec<LogRow>) -> (r: (String, String))
    ensures
        if logs@.len() > 0 {
            r.0@ == logs@[0].status@ && r.1@ == logs@[0].created_at@
        } else {
            r.0@ == ""@ && r.1@ == ""@
        },
{
    if logs.len() > 0 {
        (logs[0].status.clone(), logs[0].created_at.clone())
    } else {
        ("".to_owned(), "".to_owned())
    }
}

/// The beginning of a checksum, which identifies a function on the page.
pub fn sha_short(sha: &str) -> (r: String)
    ensures
        r@ == first_chars(sha@, 12),
{
    take_chars(sha, 12)
}

/// The address of the list.
pub open spec fn list_url(root: Seq<char>, tenant: Seq<char>) -> Seq<char> {
    root + "/admin/tenants/"@ + tenant + "/_functions"@
}

fn write_list_url(root: &str, tenant: &str) -> (r: String)
    ensures
        r@ == list_url(root@, tenant@),
{
    let s: String = concat3(root, "/admin/tenants/", tenant);
    concat2(s.as_str(), "/_functions")
}

// ---------------------------------------------------------------------------
// What is done to a function
// ---------------------------------------------------------------------------

/// What the tables say of a function.
#[derive(Debug)]
pub enum FunctionLookup {
    Found { active: bool },
    Missing,
    Failed(String),
}

/// Plans the switching of a function: whether it is active afterwards.
pub fn toggle(opened: bool, lookup: FunctionLookup) -> (r: Result<bool, PlainRefusal>)
    ensures
        if !opened {
            r is Err && plain(r->Err_0, 404, "no such tenant"@)
        } else {
            match lookup {
                FunctionLookup::Missing => r is Err && plain(r->Err_0, 404, "no such function"@),
                FunctionLookup::Failed(e) => r is Err && plain(r->Err_0, 500, e@),
                FunctionLookup::Found { active } => r == Ok::<bool, PlainRefusal>(!active),
            }
        },
{
    if !opened {
        return Err(words(404, "no such tenant"));
    }
    match lookup {
        FunctionLookup::Missing => Err(words(404, "no such function")),
        FunctionLookup::Failed(e) => Err(PlainRefusal { status: 500, message: e }),
        FunctionLookup::Found { active } => Ok(!active),
    }
}

/// What follows a change of a function, in this order.
#[derive(Clone, Copy, Debug, PartialEq, Eq, Structural)]
pub enum Afterwards {
    /// Forgets which functions are called by what.
    ForgetTriggers,
    /// Writes the audit entry for the operation.
    Note(FunctionOp),
}

/// An operation on a function.
#[derive(Clone, Copy, Debug, PartialEq, Eq, Structural)]
pub enum FunctionOp {
    Update,
    Delete,
}

/// The name of an operation in the log.
pub fn op_name(op: FunctionOp) -> (r: &'static str)
    ensures
        r@ == (match op {
            FunctionOp::Update => "function.update"@,
            FunctionOp::Delete => "function.delete"@,
        }),
{
    match op {
        FunctionOp::Update => "function.update",
        FunctionOp::Delete => "function.delete",
    }
}

/// Answers the switching of a function.
pub fn toggle_reply(written: Result<(), String>, root: &str, tenant_id: &str) -> (r: Result<
    (Vec<Afterwards>, String),
    PlainRefusal,
>)
    ensures
        match written {
            Err(e) => r is Err && plain(r->Err_0, 500, e@),
            Ok(_) => {
                &&& r matches Ok(a)
                &&& a.0@ == seq![Afterwards::ForgetTriggers, Afterwards::Note(FunctionOp::Update)]
                &&& a.1@ == list_url(root@, tenant_id@)
            },
        },
{
    match written {
        Err(e) => Err(PlainRefusal { status: 500, message: e }),
        Ok(_) => Ok(updated(root, tenant_id)),
    }
}

fn updated(root: &str, tenant_id: &str) -> (r: (Vec<Afterwards>, String))
    ensures
        r.0@ == seq![Afterwards::ForgetTriggers, Afterwards::Note(FunctionOp::Update)],
        r.1@ == list_url(root@, tenant_id@),
{
    let mut steps: Vec<Afterwards> = Vec::new();
    steps.push(Afterwards::ForgetTriggers);
    steps.push(Afterwards::Note(FunctionOp::Update));
    assert(steps@ =~= seq![Afterwards::ForgetTriggers, Afterwards::Note(FunctionOp::Update)]);
    (steps, write_list_url(root, tenant_id))
}

/// Who may call a function besides the service itself.
#[derive(Debug)]
pub struct InvokeAclForm {
    pub invoke_anon: bool,
    pub invoke_user: bool,
}

/// Answers a change of who may call a function. `written` is whether there was
/// such a function.
pub fn set_invoke_acl(opened: bool, written: Result<bool, String>, root: &str, tenant_id: &str) -> (r: Result<
    (Vec<Afterwards>, String),
    PlainRefusal,
>)
    ensures
        if !opened {
            r is Err && plain(r->Err_0, 404, "no such tenant"@)
        } else {
            match written {
                Err(e) => r is Err && plain(r->Err_0, 500, e@),
                Ok(false) => r is Err && plain(r->Err_0, 404, "no such function"@),
                Ok(true) => {
                    &&& r matches Ok(a)
                    &&& a.0@ == seq![
                        Afterwards::ForgetTriggers,
                        Afterwards::Note(FunctionOp::Update),
                    ]
                    &&& a.1@ == list_url(root@, tenant_id@)
                },
            }
        },
{
    if !opened {
        return Err(words(404, "no such tenant"));
    }
    match written {
        Err(e) => Err(PlainRefusal { status: 500, message: e }),
        Ok(false) => Err(words(404, "no such function")),
        Ok(true) => Ok(updated(root, tenant_id)),
    }
}

/// Answers a deletion. One that found nothing writes no entry and counts as
/// done.
pub fn delete(opened: bool, deleted: Result<bool, String>, root: &str, tenant_id: &str) -> (r: Result<
    (Option<FunctionOp>, String),
    PlainRefusal,
>)
    ensures
        if !opened {
            r is Err && plain(r->Err_0, 404, "no such tenant"@)
        } else {
            match deleted {
                Err(e) => r is Err && plain(r->Err_0, 500, e@),
                Ok(there) => {
                    &&& r matches Ok(a)
                    &&& a.0 == (if there {
                        Some(FunctionOp::Delete)
                    } else {
                        None
                    })
                    &&& a.1@ == list_url(root@, tenant_id@)
                },
            }
        },
{
    if !opened {
        return Err(words(404, "no such tenant"));
    }
    match deleted {
        Err(e) => Err(PlainRefusal { status: 500, message: e }),
        Ok(there) => {
            let op: Option<FunctionOp> = if there {
                Some(FunctionOp::Delete)
            } else {
                None
            };
            Ok((op, write_list_url(root, tenant_id)))
        },
    }
}

#[derive(Debug)]
pub struct InvokeForm {
    pub event: String,
}

/// The event that a function is called with: the text that was entered where
/// it is JSON, and else that text as a JSON string.
pub open spec fn event_body(event: Seq<char>, is_json: bool) -> Seq<char> {
    if is_json {
        trimmed(event)
    } else {
        json_string(event)
    }
}

/// Prepares the event, given whether the text that was entered is JSON.
pub fn write_event(event: &str, is_json: bool) -> (r: String)
    ensures
        r@ == event_body(event@, is_json),
{
    if is_json {
        trim(event)
    } else {
        text_to_json(event)
    }
}

/// Prepares the event that a function is called with.
pub fn invoke_event(form: &InvokeForm) -> (r: String)
    ensures
        r@ == event_body(form.event@, json_of(trimmed(form.event@)) is Some),
{
    let t: String = trim(form.event.as_str());
    let parsed: Option<Json> = parse_json(t.as_str());
    write_event(form.event.as_str(), parsed.is_some())
}

/// Checks that a function can be called. A database that cannot be opened is
/// left for the call to find.
pub fn invoke_check(opened: bool, lookup: FunctionLookup) -> (r: Result<(), PlainRefusal>)
    ensures
        if !opened {
            r is Ok
        } else {
            match lookup {
                FunctionLookup::Missing => r is Err && plain(r->Err_0, 404, "no such function"@),
                FunctionLookup::Failed(e) => r is Err && plain(r->Err_0, 500, e@),
                FunctionLookup::Found { active } => r is Ok,
            }
        },
{
    if !opened {
        return Ok(());
    }
    match lookup {
        FunctionLookup::Missing => Err(words(404, "no such function")),
        FunctionLookup::Failed(e) => Err(PlainRefusal { status: 500, message: e }),
        FunctionLookup::Found { active } => Ok(()),
    }
}

/// A trigger on records names its collection behind the events that it waits for; that
/// on files names none.
pub proof fn law_triggers_name_what_they_wait_for(t: TriggerSpec)
    ensures
        t matches TriggerSpec::Record { collection, events } ==> has_prefix(
            trigger_text(t),
            "record."@ + joined_with(views(events@), "|"@),
        ) && has_suffix(trigger_text(t), ":"@ + collection@),
        t is FileUploaded ==> trigger_text(t) == "file.uploaded"@,
{
    match t {
        TriggerSpec::Record { collection, events } => {
            let s = trigger_text(t);
            let head = "record."@ + joined_with(views(events@), "|"@);
            let tail = ":"@ + collection@;
            assert(s =~= head + tail);
            assert(s.subrange(0, head.len() as int) =~= head);
            assert(s.subrange(s.len() - tail.len(), s.len() as int) =~= tail);
        },
        TriggerSpec::FileUploaded => {},
    }
}

/// A function is called with the JSON that was entered, and with any other text as one
/// string.
pub proof fn law_events_are_json(event: Seq<char>)
    ensures
        event_body(event, true) == trimmed(event),
        event_body(event, false) == json_string(event),
{
}

/// The list of functions stands below its tenant.
pub proof fn law_functions_stand_below_their_tenant(root: Seq<char>, tenant: Seq<char>)
    ensures
        has_prefix(list_url(root, tenant), root + "/admin/tenants/"@ + tenant),
        has_suffix(list_url(root, tenant), "/_functions"@),
{
    let u = list_url(root, tenant);
    let head = root + "/admin/tenants/"@ + tenant;
    assert(u.subrange(0, head.len() as int) =~= head);
    assert(u.subrange(u.len() - "/_functions"@.len(), u.len() as int) =~= "/_functions"@);
}

} // verus!
