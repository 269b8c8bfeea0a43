//! Requests for a larger quota, and their review.
//!
//! The owner of a tenant asks for a higher tier; an owner of the server
//! decides. Nobody raises the tier of their own tenant, and no tenant has two
//! requests open at once.

use vstd::prelude::*;
use crate::audit_note::{about, by_actor, done, field_views, note_about, note_by, note_done, null_field, number_field, text_field, AuditNote, Field, FieldView, NoteView};
use crate::reply::{refusal, refuse, refuse_with, Refusal, RefusalView};
use crate::text::{byte_count, byte_len, control, is_control, opt_view, str_eq, to_chars, trim, trimmed};

verus! {

/// The highest tier.
pub const MAX_TIER: i64 = 1000;

#[derive(Debug)]
pub struct QuotaRequestBody {
    pub requested_tier: i64,
    pub reason: Option<String>,
}

#[derive(Debug)]
pub struct QuotaTierBody {
    pub tier: i64,
}

#[derive(Debug)]
pub struct DecideBody {
    pub action: String,
}

#[derive(Debug)]
pub struct QuotaRequestRow {
    pub id: i64,
    pub tenant_id: String,
    pub tenant_name: String,
    pub requester: String,
    pub current_tier: i64,
    pub requested_tier: i64,
    pub reason: String,
    pub created_at: String,
}

/// A tier that exists.
pub open spec fn tier_ok(tier: int) -> bool {
    1 <= tier <= MAX_TIER
}

/// A character that no reason has.
pub open spec fn bad_reason_char(c: char) -> bool {
    control(c) && c != '\n' && c != '\t'
}

/// The reason as it is stored, nothing where it is blank.
pub open spec fn stored_reason(reason: Option<Seq<char>>) -> Option<Seq<char>> {
    match reason {
        Some(r) => if trimmed(r).len() == 0 {
            None
        } else {
            Some(trimmed(r))
        },
        None => None,
    }
}

/// Why a request is refused before the tenant is looked at, if it is.
pub open spec fn request_refusal(tier: int, reason: Option<Seq<char>>) -> Option<RefusalView> {
    if !tier_ok(tier) {
        Some(refusal(400, "QUOTA_TIER_INVALID"@, "requested_tier must be between 1 and 1000"@))
    } else {
        match stored_reason(reason) {
            None => None,
            Some(r) => if byte_len(r) > 500 {
                Some(refusal(400, "QUOTA_REASON_TOO_LONG"@, "reason must be at most 500 bytes"@))
            } else if exists|i: int| 0 <= i < r.len() && bad_reason_char(#[trigger] r[i]) {
                Some(
                    refusal(
                        400,
                        "QUOTA_REASON_INVALID"@,
                        "reason must not contain control characters"@,
                    ),
                )
            } else {
                None
            },
        }
    }
}

fn has_bad_reason_char(s: &str) -> (r: bool)
    ensures
        r == exists|i: int| 0 <= i < s@.len() && bad_reason_char(#[trigger] s@[i]),
{
    let a: Vec<char> = to_chars(s);
    let mut i: usize = 0;
    while i < a.len()
        invariant
            i <= a@.len(),
            a@ == s@,
            forall|k: int| 0 <= k < i ==> !bad_reason_char(#[trigger] a@[k]),
        decreases a@.len() - i,
    {
        let c: char = a[i];
        if is_control(c) && c != '\n' && c != '\t' {
            assert(bad_reason_char(s@[i as int]));
            return true;
        }
        i = i + 1;
    }
    false
}

/// Checks a request and gives the reason as it is stored.
pub fn check_quota_request(body: &QuotaRequestBody) -> (r: Result<Option<String>, Refusal>)
    ensures
        match request_refusal(body.requested_tier as int, opt_view(body.reason)) {
            Some(e) => r is Err && r->Err_0@ == e,
            None => r matches Ok(s) && opt_view(s) == stored_reason(opt_view(body.reason)),
        },
{
    if body.requested_tier < 1 || body.requested_tier > MAX_TIER {
        return Err(
            refuse(400, "QUOTA_TIER_INVALID", "requested_tier must be between 1 and 1000"),
        );
    }
    match &body.reason {
        None => Ok(None),
        Some(raw) => {
            let t: String = trim(raw.as_str());
            if t.as_str().is_empty() {
                return Ok(None);
            }
            if byte_count(t.as_str()) > 500 {
                return Err(
                    refuse(400, "QUOTA_REASON_TOO_LONG", "reason must be at most 500 bytes"),
                );
            }
            if has_bad_reason_char(t.as_str()) {
                return Err(
                    refuse(
                        400,
                        "QUOTA_REASON_INVALID",
                        "reason must not contain control characters",
                    ),
                );
            }
            Ok(Some(t))
        },
    }
}

/// What the tables say of a tenant: its tier, and whether it has a request open.
#[derive(Debug)]
pub enum TenantQuota {
    Missing,
    Failed(String),
    Found { tier: i64, pending: bool },
}

/// Decides whether a checked request may be stored.
pub fn create_quota_request(requested_tier: i64, tenant: &TenantQuota) -> (r: Result<(), Refusal>)
    ensures
        match tenant {
            TenantQuota::Missing => r is Err && r->Err_0@ == refusal(
                404,
                "TENANT_NOT_FOUND"@,
                "no such tenant"@,
            ),
            TenantQuota::Failed(m) => r is Err && r->Err_0@ == refusal(500, "DB_ERROR"@, m@),
            TenantQuota::Found { tier, pending } => if requested_tier <= *tier {
                r is Err && r->Err_0@ == refusal(
                    400,
                    "QUOTA_TIER_NOT_INCREASE"@,
                    "requested_tier must be greater than the current tier"@,
                )
            } else if *pending {
                r is Err && r->Err_0@ == refusal(
                    409,
                    "QUOTA_REQUEST_PENDING"@,
                    "a pending upgrade request already exists for this tenant"@,
                )
            } else {
                r is Ok
            },
        },
{
    match tenant {
        TenantQuota::Missing => Err(refuse(404, "TENANT_NOT_FOUND", "no such tenant")),
        TenantQuota::Failed(m) => Err(refuse(500, "DB_ERROR", m.as_str())),
        TenantQuota::Found { tier, pending } => {
            if requested_tier <= *tier {
                return Err(
                    refuse(
                        400,
                        "QUOTA_TIER_NOT_INCREASE",
                        "requested_tier must be greater than the current tier",
                    ),
                );
            }
            if *pending {
                return Err(
                    refuse(
                        409,
                        "QUOTA_REQUEST_PENDING",
                        "a pending upgrade request already exists for this tenant",
                    ),
                );
            }
            Ok(())
        },
    }
}

/// The answer to a request that was stored, with status 201, and the note to write.
#[derive(Debug)]
pub struct QuotaRequested {
    pub id: i64,
    pub tenant_id: String,
    pub requested_tier: i64,
    pub status: &'static str,
    pub note: AuditNote,
}

/// Answers a request, given the result of storing it.
pub fn quota_request_reply(
    caller_id: i64,
    tenant_id: &str,
    requested_tier: i64,
    stored: Result<i64, String>,
) -> (r: Result<QuotaRequested, Refusal>)
    ensures
        match stored {
            Err(m) => r is Err && r->Err_0@ == refusal(500, "DB_ERROR"@, m@),
            Ok(id) => {
                &&& r matches Ok(q)
                &&& q.id == id
                &&& q.tenant_id@ == tenant_id@
                &&& q.requested_tier == requested_tier
                &&& q.status@ == "pending"@
                &&& q.note@ == by_actor(
                    about(
                        done(
                            "tenant.quota.request"@,
                            seq![
                                ("request_id"@, FieldView::Number(id as int)),
                                ("requested_tier"@, FieldView::Number(requested_tier as int)),
                            ],
                        ),
                        tenant_id@,
                        "-"@,
                    ),
                    caller_id as int,
                    None,
                )
            },
        },
{
    match stored {
        Err(m) => Err(refuse_with(500, "DB_ERROR", m)),
        Ok(id) => {
            let mut extra: Vec<(String, Field)> = Vec::new();
            extra.push(number_field("request_id", id));
            extra.push(number_field("requested_tier", requested_tier));
            assert(field_views(extra@) =~= seq![
                ("request_id"@, FieldView::Number(id as int)),
                ("requested_tier"@, FieldView::Number(requested_tier as int)),
            ]);
            let note: AuditNote = note_about(
                note_done("tenant.quota.request", extra),
                tenant_id,
                "-",
            );
            Ok(
                QuotaRequested {
                    id,
                    tenant_id: tenant_id.to_owned(),
                    requested_tier,
                    status: "pending",
                    note: note_by(note, caller_id, &None),
                },
            )
        },
    }
}

/// Checks a direct change of a tier: only an owner of the server makes one.
pub fn patch_tenant_quota(is_owner: bool, body: &QuotaTierBody) -> (r: Result<(), Refusal>)
    ensures
        if !is_owner {
            r is Err && r->Err_0@ == refusal(403, "NOT_OWNER"@, "owner role required"@)
        } else if !tier_ok(body.tier as int) {
            r is Err && r->Err_0@ == refusal(
                400,
                "QUOTA_TIER_INVALID"@,
                "tier must be between 1 and 1000"@,
            )
        } else {
            r is Ok
        },
{
    if !is_owner {
        return Err(refuse(403, "NOT_OWNER", "owner role required"));
    }
    if body.tier < 1 || body.tier > MAX_TIER {
        return Err(refuse(400, "QUOTA_TIER_INVALID", "tier must be between 1 and 1000"));
    }
    Ok(())
}

/// What follows a change of a tier that was written: the tenant whose cached
/// credentials are forgotten, so that the new tier counts at once, and the
/// note to write.
#[derive(Debug)]
pub struct TierChanged {
    pub clear_tenant: Option<String>,
    pub note: AuditNote,
}

/// Answers a direct change of a tier that changed `changed` rows.
pub fn patch_quota_reply(
    caller_id: i64,
    tenant_id: &str,
    tier: i64,
    changed: Result<usize, String>,
) -> (r: Result<TierChanged, Refusal>)
    ensures
        match changed {
            Err(m) => r is Err && r->Err_0@ == refusal(500, "DB_ERROR"@, m@),
            Ok(n) => if n == 0 {
                r is Err && r->Err_0@ == refusal(404, "TENANT_NOT_FOUND"@, "no such tenant"@)
            } else {
                &&& r matches Ok(t)
                &&& opt_view(t.clear_tenant) == Some(tenant_id@)
                &&& t.note@ == by_actor(
                    about(
                        done(
                            "tenant.quota.set"@,
                            seq![
                                ("quota_tier"@, FieldView::Number(tier as int)),
                                ("via"@, FieldView::Text("direct"@)),
                            ],
                        ),
                        tenant_id@,
                        "-"@,
                    ),
                    caller_id as int,
                    None,
                )
            },
        },
{
    match changed {
        Err(m) => Err(refuse_with(500, "DB_ERROR", m)),
        Ok(n) => {
            if n == 0 {
                return Err(refuse(404, "TENANT_NOT_FOUND", "no such tenant"));
            }
            let mut extra: Vec<(String, Field)> = Vec::new();
            extra.push(number_field("quota_tier", tier));
            extra.push(text_field("via", "direct"));
            assert(field_views(extra@) =~= seq![
                ("quota_tier"@, FieldView::Number(tier as int)),
                ("via"@, FieldView::Text("direct"@)),
            ]);
            let note: AuditNote = note_about(note_done("tenant.quota.set", extra), tenant_id, "-");
            Ok(
                TierChanged {
                    clear_tenant: Some(tenant_id.to_owned()),
                    note: note_by(note, caller_id, &None),
                },
            )
        },
    }
}

/// The request that is decided.
#[derive(Debug)]
pub struct PendingRequest {
    pub tenant_id: String,
    pub requested_tier: i64,
}

/// The changes of a decision, made in one transaction: the tier to write, if
/// any, and the new status of the request.
#[derive(Debug)]
pub struct Decision {
    pub approve: bool,
    pub set_tier: Option<i64>,
    pub status: &'static str,
}

/// Decides a request, given its row if it is pending.
pub fn decide_quota_request(body: &DecideBody, pending: &Option<PendingRequest>) -> (r: Result<
    Decision,
    Refusal,
>)
    ensures
        if body.action@ != "approve"@ && body.action@ != "reject"@ {
            r is Err && r->Err_0@ == refusal(
                400,
                "QUOTA_DECISION_INVALID"@,
                "action must be 'approve' or 'reject'"@,
            )
        } else {
            match pending {
                None => r is Err && r->Err_0@ == refusal(
                    404,
                    "QUOTA_REQUEST_NOT_FOUND"@,
                    "no pending request with that id"@,
                ),
                Some(p) => {
                    &&& r matches Ok(d)
                    &&& d.approve == (body.action@ == "approve"@)
                    &&& d.set_tier == (if d.approve {
                        Some(p.requested_tier)
                    } else {
                        None
                    })
                    &&& d.status@ == (if d.approve {
                        "approved"@
                    } else {
                        "rejected"@
                    })
                },
            }
        },
{
    let approve: bool = str_eq(body.action.as_str(), "approve");
    if !approve && !str_eq(body.action.as_str(), "reject") {
        return Err(refuse(400, "QUOTA_DECISION_INVALID", "action must be 'approve' or 'reject'"));
    }
    match pending {
        None => Err(
            refuse(404, "QUOTA_REQUEST_NOT_FOUND", "no pending request with that id"),
        ),
        Some(p) => if approve {
            Ok(Decision { approve, set_tier: Some(p.requested_tier), status: "approved" })
        } else {
            Ok(Decision { approve, set_tier: None, status: "rejected" })
        },
    }
}

/// The note about a request that was decided.
pub open spec fn decide_note(
    caller_id: int,
    req_id: int,
    tenant_id: Seq<char>,
    approve: bool,
    tier: int,
) -> NoteView {
    by_actor(
        about(
            done(
                "tenant.quota.set"@,
                seq![
                    ("request_id"@, FieldView::Number(req_id)),
                    (
                        "action"@,
                        FieldView::Text(
                            if approve {
                                "approve"@
                            } else {
                                "reject"@
                            },
                        ),
                    ),
                    (
                        "quota_tier"@,
                        if approve {
                            FieldView::Number(tier)
                        } else {
                            FieldView::Null
                        },
                    ),
                    ("via"@, FieldView::Text("request"@)),
                ],
            ),
            tenant_id,
            "-"@,
        ),
        caller_id,
        None,
    )
}

/// Lists what follows a decision that was written.
pub fn decide_aftermath(caller_id: i64, req_id: i64, p: &PendingRequest, approve: bool) -> (r: TierChanged)
    ensures
        opt_view(r.clear_tenant) == (if approve {
            Some(p.tenant_id@)
        } else {
            None
        }),
        r.note@ == decide_note(
            caller_id as int,
            req_id as int,
            p.tenant_id@,
            approve,
            p.requested_tier as int,
        ),
{
    let mut extra: Vec<(String, Field)> = Vec::new();
    extra.push(number_field("request_id", req_id));
    if approve {
        extra.push(text_field("action", "approve"));
        extra.push(number_field("quota_tier", p.requested_tier));
    } else {
        extra.push(text_field("action", "reject"));
        extra.push(null_field("quota_tier"));
    }
    extra.push(text_field("via", "request"));
    assert(field_views(extra@) =~= decide_note(
        caller_id as int,
        req_id as int,
        p.tenant_id@,
        approve,
        p.requested_tier as int,
    ).extra);
    let note: AuditNote = note_about(
        note_done("tenant.quota.set", extra),
        p.tenant_id.as_str(),
        "-",
    );
    TierChanged {
        clear_tenant: if approve {
            Some(p.tenant_id.clone())
        } else {
            None
        },
        note: note_by(note, caller_id, &None),
    }
}

// ---------------------------------------------------------------------------
// Laws
// ---------------------------------------------------------------------------

/// The tier of a tenant, and the tier it has asked for if a request is open.
pub struct QuotaState {
    pub tier: int,
    pub asked: Option<int>,
}

/// The state after a request that was accepted.
pub open spec fn after_request(s: QuotaState, tier: int) -> QuotaState {
    QuotaState { asked: Some(tier), ..s }
}

/// The state after a decision about the open request.
pub open spec fn after_decision(s: QuotaState, approve: bool) -> QuotaState {
    match s.asked {
        Some(t) => QuotaState {
            tier: if approve {
                t
            } else {
                s.tier
            },
            asked: None,
        },
        None => s,
    }
}

/// A request is accepted from a tenant.
pub open spec fn accepts(s: QuotaState, tier: int) -> bool {
    tier_ok(tier) && tier > s.tier && s.asked is None
}

/// An approved request raises the tier, to one that exists; a rejected one
/// leaves it; and while a request is open no other is accepted.
pub proof fn law_quota_rises_by_approval_only(s: QuotaState, tier: int, other: int)
    requires
        accepts(s, tier),
    ensures
        !accepts(after_request(s, tier), other),
        after_decision(after_request(s, tier), true).tier == tier,
        after_decision(after_request(s, tier), true).tier > s.tier,
        tier_ok(after_decision(after_request(s, tier), true).tier),
        after_decision(after_request(s, tier), false) == s,
{
}

/// A request is taken where the tier exists and the reason, without the blanks around it,
/// is not too long and holds no control characters but line breaks and tabs; a blank
/// reason is none.
pub proof fn law_requests_are_checked(tier: int, reason: Seq<char>)
    ensures
        request_refusal(tier, None) is None <==> 1 <= tier <= 1000,
        request_refusal(tier, Some(reason)) is None <==> 1 <= tier <= 1000 && byte_len(
            trimmed(reason),
        ) <= 500 && forall|i: int|
            0 <= i < trimmed(reason).len() ==> (control(#[trigger] trimmed(reason)[i])
                ==> trimmed(reason)[i] == '\n' || trimmed(reason)[i] == '\t'),
        !(1 <= tier <= 1000) ==> (request_refusal(tier, Some(reason)) matches Some(e) && e.code
            == "QUOTA_TIER_INVALID"@ && e.status == 400),
        1 <= tier <= 1000 && byte_len(trimmed(reason)) > 500 ==> (request_refusal(
            tier,
            Some(reason),
        ) matches Some(e) && e.code == "QUOTA_REASON_TOO_LONG"@ && e.status == 400),
        trimmed(reason).len() > 0 ==> stored_reason(Some(reason)) == Some(trimmed(reason)),
        trimmed(reason).len() == 0 ==> stored_reason(Some(reason)) is None,
{
    let t = trimmed(reason);
    if t.len() == 0 {
        assert(t =~= Seq::<char>::empty());
        lemma_no_bytes();
    } else {
        if exists|i: int| 0 <= i < t.len() && bad_reason_char(#[trigger] t[i]) {
            let i = choose|i: int| 0 <= i < t.len() && bad_reason_char(#[trigger] t[i]);
            assert(control(t[i]) && t[i] != '\n' && t[i] != '\t');
        } else {
            assert forall|i: int| 0 <= i < t.len() && control(#[trigger] t[i]) implies t[i] == '\n'
                || t[i] == '\t' by {
                assert(!bad_reason_char(t[i]));
            }
        }
    }
}

proof fn lemma_no_bytes()
    ensures
        byte_len(Seq::<char>::empty()) == 0,
{
}

/// The note about a decision says of which tenant and request it was, who made it and
/// which it was; a tier is named exactly where it was approved.
pub proof fn law_decisions_are_noted(
    caller_id: int,
    req_id: int,
    tenant_id: Seq<char>,
    approve: bool,
    tier: int,
)
    ensures
        ({
            let n = decide_note(caller_id, req_id, tenant_id, approve, tier);
            &&& n.tenant == tenant_id && n.failure is None
            &&& n.actor == Some((caller_id, None::<Seq<char>>))
            &&& n.extra.contains(("request_id"@, FieldView::Number(req_id)))
            &&& approve ==> n.extra.contains(("action"@, FieldView::Text("approve"@)))
                && n.extra.contains(("quota_tier"@, FieldView::Number(tier)))
            &&& !approve ==> n.extra.contains(("action"@, FieldView::Text("reject"@)))
                && n.extra.contains(("quota_tier"@, FieldView::Null))
        }),
{
    let e = decide_note(caller_id, req_id, tenant_id, approve, tier).extra;
    assert(e[0] == ("request_id"@, FieldView::Number(req_id)));
    if approve {
        assert(e[1] == ("action"@, FieldView::Text("approve"@)));
        assert(e[2] == ("quota_tier"@, FieldView::Number(tier)));
    } else {
        assert(e[1] == ("action"@, FieldView::Text("reject"@)));
        assert(e[2] == ("quota_tier"@, FieldView::Null));
    }
}

} // verus!
