//! The scheduled jobs of a tenant: their list, and what is done to them there.

use vstd::prelude::*;
use crate::backups::{plain, PlainRefusal};
use crate::text::{concat2, concat3, dec, dec_of, has_prefix, has_suffix, opt_view, trim, trimmed};

verus! {

fn words(status: u16, message: &str) -> (r: PlainRefusal)
    ensures
        plain(r, status, message@),
{
    PlainRefusal { status, message: message.to_owned() }
}

/// Why a change of the jobs failed.
#[derive(Debug)]
pub enum OpsError {
    InvalidName,
    InvalidSchedule(String),
    TargetNotFound,
    Duplicate,
    JobLimit(u64),
    PayloadTooLarge,
    RpcUserId,
    NotFound,
    Db(String),
}

/// The words for a failure. `max_payload` is the size that a payload may have.
pub open spec fn ops_words(e: OpsError, max_payload: u64) -> Seq<char> {
    match e {
        OpsError::InvalidName => "CRON_INVALID_NAME: job name must match [a-z0-9_-]{1,64}"@,
        OpsError::InvalidSchedule(m) => "CRON_INVALID_SCHEDULE: invalid cron schedule: "@ + m@,
        OpsError::TargetNotFound =>
            "CRON_TARGET_NOT_FOUND: target does not exist on this tenant (target_kind must be 'function' or 'rpc')"@,
        OpsError::Duplicate => "CRON_DUPLICATE: a cron job with this name already exists"@,
        OpsError::JobLimit(n) => "CRON_JOB_LIMIT: per-tenant cron job limit reached ("@ + dec(
            n as nat,
        ) + ")"@,
        OpsError::PayloadTooLarge =>
            "CRON_PAYLOAD_TOO_LARGE: payload must be a JSON object of at most "@ + dec(
            max_payload as nat,
        ) + " bytes"@,
        OpsError::RpcUserId =>
            "CRON_RPC_USER_ID: rpc declares :user_id — cron has no user identity to bind"@,
        OpsError::NotFound => "CRON_NOT_FOUND: no such cron job"@,
        OpsError::Db(m) => "INTERNAL_ERROR: "@ + m@,
    }
}

/// Writes the words for a failure.
pub fn ops_error_text(e: &OpsError, max_payload: u64) -> (r: String)
    ensures
        r@ == ops_words(*e, max_payload),
{
    match e {
        OpsError::InvalidName =>
            "CRON_INVALID_NAME: job name must match [a-z0-9_-]{1,64}".to_owned(),
        OpsError::InvalidSchedule(m) => concat2(
            "CRON_INVALID_SCHEDULE: invalid cron schedule: ",
            m.as_str(),
        ),
        OpsError::TargetNotFound =>
            "CRON_TARGET_NOT_FOUND: target does not exist on this tenant (target_kind must be 'function' or 'rpc')".to_owned(),
        OpsError::Duplicate =>
            "CRON_DUPLICATE: a cron job with this name already exists".to_owned(),
        OpsError::JobLimit(n) => concat3(
            "CRON_JOB_LIMIT: per-tenant cron job limit reached (",
            dec_of(*n).as_str(),
            ")",
        ),
        OpsError::PayloadTooLarge => concat3(
            "CRON_PAYLOAD_TOO_LARGE: payload must be a JSON object of at most ",
            dec_of(max_payload).as_str(),
            " bytes",
        ),
        OpsError::RpcUserId =>
            "CRON_RPC_USER_ID: rpc declares :user_id — cron has no user identity to bind".to_owned(),
        OpsError::NotFound => "CRON_NOT_FOUND: no such cron job".to_owned(),
        OpsError::Db(m) => concat2("INTERNAL_ERROR: ", m.as_str()),
    }
}

#[derive(Debug)]
pub struct CronCreateForm {
    pub name: String,
    pub schedule: String,
    pub target_kind: String,
    pub target_name: String,
    pub payload: String,
}

/// The payload of a new job. A blank one is none.
pub fn create_payload(form: &CronCreateForm) -> (r: Option<String>)
    ensures
        opt_view(r) == (if trimmed(form.payload@).len() == 0 {
            None
        } else {
            Some(trimmed(form.payload@))
        }),
{
    let t: String = trim(form.payload.as_str());
    if t.as_str().is_empty() {
        None
    } else {
        Some(t)
    }
}

/// The target of a job for a reader.
pub fn target_text(kind: &str, name: &str) -> (r: String)
    ensures
        r@ == kind@ + ":"@ + name@,
{
    concat3(kind, ":", name)
}

/// The address of the list.
pub open spec fn list_url(root: Seq<char>, tenant: Seq<char>) -> Seq<char> {
    root + "/admin/tenants/"@ + tenant + "/_cron"@
}

fn write_list_url(root: &str, tenant: &str) -> (r: String)
    ensures
        r@ == list_url(root@, tenant@),
{
    let s: String = concat3(root, "/admin/tenants/", tenant);
    concat2(s.as_str(), "/_cron")
}

/// Answers the creation of a job: an entry with this operation and the address
/// of the list, or the words to show above it.
pub fn create(outcome: Result<(), OpsError>, max_payload: u64, root: &str, tenant_id: &str) -> (r: Result<
    (&'static str, String),
    String,
>)
    ensures
        match outcome {
            Ok(_) => r matches Ok(a) && a.0@ == "cron.create"@ && a.1@ == list_url(
                root@,
                tenant_id@,
            ),
            Err(e) => r is Err && r->Err_0@ == ops_words(e, max_payload),
        },
{
    match outcome {
        Ok(_) => Ok(("cron.create", write_list_url(root, tenant_id))),
        Err(e) => Err(ops_error_text(&e, max_payload)),
    }
}

/// Plans the switching of a job: whether it is active afterwards.
pub fn toggle(opened: bool, current: Result<bool, OpsError>, max_payload: u64) -> (r: Result<
    bool,
    PlainRefusal,
>)
    ensures
        if !opened {
            r is Err && plain(r->Err_0, 404, "no such tenant"@)
        } else {
            match current {
                Ok(active) => r == Ok::<bool, PlainRefusal>(!active),
                Err(OpsError::NotFound) => r is Err && plain(r->Err_0, 404, "no such cron job"@),
                Err(e) => r is Err && plain(r->Err_0, 500, ops_words(e, max_payload)),
            }
        },
{
    if !opened {
        return Err(words(404, "no such tenant"));
    }
    match current {
        Ok(active) => Ok(!active),
        Err(OpsError::NotFound) => Err(words(404, "no such cron job")),
        Err(e) => Err(PlainRefusal { status: 500, message: ops_error_text(&e, max_payload) }),
    }
}

/// Answers the switching of a job.
pub fn toggle_reply(written: Result<(), OpsError>, max_payload: u64, root: &str, tenant_id: &str) -> (r: Result<
    (&'static str, String),
    PlainRefusal,
>)
    ensures
        match written {
            Ok(_) => r matches Ok(a) && a.0@ == "cron.update"@ && a.1@ == list_url(
                root@,
                tenant_id@,
            ),
            Err(e) => r is Err && plain(r->Err_0, 500, ops_words(e, max_payload)),
        },
{
    match written {
        Ok(_) => Ok(("cron.update", write_list_url(root, tenant_id))),
        Err(e) => Err(PlainRefusal { status: 500, message: ops_error_text(&e, max_payload) }),
    }
}

/// Answers a deletion. A job that was gone already writes no entry and counts
/// as deleted.
pub fn delete(
    opened: bool,
    outcome: Result<(), OpsError>,
    max_payload: u64,
    root: &str,
    tenant_id: &str,
) -> (r: Result<(Option<&'static str>, String), PlainRefusal>)
    ensures
        if !opened {
            r is Err && plain(r->Err_0, 404, "no such tenant"@)
        } else {
            match outcome {
                Ok(_) => r matches Ok(a) && (a.0 matches Some(op) && op@ == "cron.delete"@) && a.1@
                    == list_url(root@, tenant_id@),
                Err(OpsError::NotFound) => r matches Ok(a) && a.0 is None && a.1@ == list_url(
                    root@,
                    tenant_id@,
                ),
                Err(e) => r is Err && plain(r->Err_0, 500, ops_words(e, max_payload)),
            }
        },
{
    if !opened {
        return Err(words(404, "no such tenant"));
    }
    match outcome {
        Ok(_) => Ok((Some("cron.delete"), write_list_url(root, tenant_id))),
        Err(OpsError::NotFound) => Ok((None, write_list_url(root, tenant_id))),
        Err(e) => Err(PlainRefusal { status: 500, message: ops_error_text(&e, max_payload) }),
    }
}

/// A failure is worded with its own code first, and with what was wrong.
pub proof fn law_failures_begin_with_their_code(e: OpsError, max_payload: u64)
    ensures
        e is InvalidName ==> has_prefix(ops_words(e, max_payload), "CRON_INVALID_NAME: "@),
        e matches OpsError::InvalidSchedule(m) ==> has_prefix(
            ops_words(e, max_payload),
            "CRON_INVALID_SCHEDULE: "@,
        ) && has_suffix(ops_words(e, max_payload), m@),
        e is TargetNotFound ==> has_prefix(ops_words(e, max_payload), "CRON_TARGET_NOT_FOUND: "@),
        e is Duplicate ==> has_prefix(ops_words(e, max_payload), "CRON_DUPLICATE: "@),
        e matches OpsError::JobLimit(n) ==> has_prefix(ops_words(e, max_payload), "CRON_JOB_LIMIT: "@)
            && has_suffix(ops_words(e, max_payload), "("@ + dec(n as nat) + ")"@),
        e is PayloadTooLarge ==> has_prefix(ops_words(e, max_payload), "CRON_PAYLOAD_TOO_LARGE: "@)
            && has_suffix(ops_words(e, max_payload), dec(max_payload as nat) + " bytes"@),
        e is RpcUserId ==> has_prefix(ops_words(e, max_payload), "CRON_RPC_USER_ID: "@),
        e is NotFound ==> has_prefix(ops_words(e, max_payload), "CRON_NOT_FOUND: "@),
        e matches OpsError::Db(m) ==> ops_words(e, max_payload) == "INTERNAL_ERROR: "@ + m@,
{
    let w = ops_words(e, max_payload);
    match e {
        OpsError::InvalidName => {
            reveal_strlit("CRON_INVALID_NAME: ");
            reveal_strlit("CRON_INVALID_NAME: job name must match [a-z0-9_-]{1,64}");
            assert(w.subrange(0, 19) =~= "CRON_INVALID_NAME: "@);
        },
        OpsError::InvalidSchedule(m) => {
            reveal_strlit("CRON_INVALID_SCHEDULE: ");
            reveal_strlit("CRON_INVALID_SCHEDULE: invalid cron schedule: ");
            assert(w.subrange(0, 23) =~= "CRON_INVALID_SCHEDULE: "@);
            assert(w.subrange(w.len() - m@.len(), w.len() as int) =~= m@);
        },
        OpsError::TargetNotFound => {
            reveal_strlit("CRON_TARGET_NOT_FOUND: ");
            reveal_strlit(
                "CRON_TARGET_NOT_FOUND: target does not exist on this tenant (target_kind must be 'function' or 'rpc')",
            );
            assert(w.subrange(0, 23) =~= "CRON_TARGET_NOT_FOUND: "@);
        },
        OpsError::Duplicate => {
            reveal_strlit("CRON_DUPLICATE: ");
            reveal_strlit("CRON_DUPLICATE: a cron job with this name already exists");
            assert(w.subrange(0, 16) =~= "CRON_DUPLICATE: "@);
        },
        OpsError::JobLimit(n) => {
            reveal_strlit("CRON_JOB_LIMIT: ");
            reveal_strlit("CRON_JOB_LIMIT: per-tenant cron job limit reached (");
            reveal_strlit("(");
            assert(w.subrange(0, 16) =~= "CRON_JOB_LIMIT: "@);
            let t = "("@ + dec(n as nat) + ")"@;
            assert("CRON_JOB_LIMIT: per-tenant cron job limit reached ("@.last() == '(');
            assert(w.subrange(w.len() - t.len(), w.len() as int) =~= t);
        },
        OpsError::PayloadTooLarge => {
            reveal_strlit("CRON_PAYLOAD_TOO_LARGE: ");
            reveal_strlit("CRON_PAYLOAD_TOO_LARGE: payload must be a JSON object of at most ");
            assert(w.subrange(0, 24) =~= "CRON_PAYLOAD_TOO_LARGE: "@);
            let t = dec(max_payload as nat) + " bytes"@;
            assert(w.subrange(w.len() - t.len(), w.len() as int) =~= t);
        },
        OpsError::RpcUserId => {
            reveal_strlit("CRON_RPC_USER_ID: ");
            reveal_strlit(
                "CRON_RPC_USER_ID: rpc declares :user_id — cron has no user identity to bind",
            );
            assert(w.subrange(0, 18) =~= "CRON_RPC_USER_ID: "@);
        },
        OpsError::NotFound => {
            reveal_strlit("CRON_NOT_FOUND: ");
            reveal_strlit("CRON_NOT_FOUND: no such cron job");
            assert(w.subrange(0, 16) =~= "CRON_NOT_FOUND: "@);
        },
        OpsError::Db(m) => {},
    }
}

/// The list of jobs stands below its tenant.
pub proof fn law_jobs_stand_below_their_tenant(root: Seq<char>, tenant: Seq<char>)
    ensures
        has_prefix(list_url(root, tenant), root + "/admin/tenants/"@ + tenant),
        has_suffix(list_url(root, tenant), "/_cron"@),
{
    let u = list_url(root, tenant);
    let head = root + "/admin/tenants/"@ + tenant;
    assert(u.subrange(0, head.len() as int) =~= head);
    assert(u.subrange(u.len() - "/_cron"@.len(), u.len() as int) =~= "/_cron"@);
}

} // verus!
