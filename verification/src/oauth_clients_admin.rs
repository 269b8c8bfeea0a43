//! The registered clients: their list and their revocation, for owners.
//!
//! A revoked client keeps its row with a mark, and loses every code and every
//! token that was issued to it.

use vstd::prelude::*;
use crate::audit_note::{
    done, field_views, note_done, number_field, text_field, AuditNote, Field, FieldView,
};
use crate::oauth_server::token::OauthTables;
use crate::reply::{refusal, refuse, refuse_with, Refusal};

verus! {

/// Checks that somebody may see the list.
pub fn list_clients(is_owner: bool, listed: Result<(), String>) -> (r: Result<(), Refusal>)
    ensures
        if !is_owner {
            r is Err && r->Err_0@ == refusal(403, "NOT_OWNER"@, "owner required"@)
        } else {
            match listed {
                Err(e) => r is Err && r->Err_0@ == refusal(500, "DB_ERROR"@, e@),
                Ok(_) => r is Ok,
            }
        },
{
    if !is_owner {
        return Err(refuse(403, "NOT_OWNER", "owner required"));
    }
    match listed {
        Err(e) => Err(refuse_with(500, "DB_ERROR", e)),
        Ok(_) => Ok(()),
    }
}

/// A change that a revocation makes, all of them in one transaction.
#[derive(Clone, Copy, Debug, PartialEq, Eq, Structural)]
pub enum RevokeStep {
    /// Marks the client as revoked by this administrator.
    Mark(i64),
    DeleteAccess,
    DeleteRefresh,
    DeleteCodes,
}

/// The changes of a revocation.
pub open spec fn revoke_steps(actor: i64) -> Seq<RevokeStep> {
    seq![
        RevokeStep::Mark(actor),
        RevokeStep::DeleteAccess,
        RevokeStep::DeleteRefresh,
        RevokeStep::DeleteCodes,
    ]
}

/// The tables of codes and tokens after a change for a client.
pub open spec fn apply_revoke(t: OauthTables, step: RevokeStep, client: Seq<char>) -> OauthTables {
    match step {
        RevokeStep::Mark(_) => t,
        RevokeStep::DeleteAccess => OauthTables {
            access: Map::new(
                |k: Seq<char>| t.access.contains_key(k) && t.access[k].client_id != client,
                |k: Seq<char>| t.access[k],
            ),
            ..t
        },
        RevokeStep::DeleteRefresh => OauthTables {
            refresh: Map::new(
                |k: Seq<char>| t.refresh.contains_key(k) && t.refresh[k].token.client_id != client,
                |k: Seq<char>| t.refresh[k],
            ),
            ..t
        },
        RevokeStep::DeleteCodes => OauthTables {
            codes: Map::new(
                |k: Seq<char>| t.codes.contains_key(k) && t.codes[k].client_id != client,
                |k: Seq<char>| t.codes[k],
            ),
            ..t
        },
    }
}

/// The tables after some changes for a client, the first made first.
pub open spec fn run_revoke(t: OauthTables, steps: Seq<RevokeStep>, client: Seq<char>) -> OauthTables
    decreases steps.len(),
{
    if steps.len() == 0 {
        t
    } else {
        run_revoke(apply_revoke(t, steps[0], client), steps.drop_first(), client)
    }
}

/// A revoked client has no codes and no tokens left, and those of every other
/// client are as they were.
pub proof fn law_revoked_client_has_nothing_left(t: OauthTables, actor: i64, client: Seq<char>, key: Seq<char>)
    ensures
        ({
            let after = run_revoke(t, revoke_steps(actor), client);
            &&& after.access.contains_key(key) <==> t.access.contains_key(key)
                && t.access[key].client_id != client
            &&& after.access.contains_key(key) ==> after.access[key] == t.access[key]
            &&& after.refresh.contains_key(key) <==> t.refresh.contains_key(key)
                && t.refresh[key].token.client_id != client
            &&& after.refresh.contains_key(key) ==> after.refresh[key] == t.refresh[key]
            &&& after.codes.contains_key(key) <==> t.codes.contains_key(key)
                && t.codes[key].client_id != client
            &&& after.codes.contains_key(key) ==> after.codes[key] == t.codes[key]
        }),
{
    let s = revoke_steps(actor);
    let s1 = s.drop_first();
    let s2 = s1.drop_first();
    let s3 = s2.drop_first();
    let s4 = s3.drop_first();
    assert(s1[0] == RevokeStep::DeleteAccess);
    assert(s2[0] == RevokeStep::DeleteRefresh);
    assert(s3[0] == RevokeStep::DeleteCodes);
    let t1 = apply_revoke(t, s[0], client);
    let t2 = apply_revoke(t1, s1[0], client);
    let t3 = apply_revoke(t2, s2[0], client);
    let t4 = apply_revoke(t3, s3[0], client);
    assert(run_revoke(t4, s4, client) == t4);
    assert(run_revoke(t3, s3, client) == t4);
    assert(run_revoke(t2, s2, client) == t4);
    assert(run_revoke(t1, s1, client) == t4);
}

/// Plans the revocation of a client. `name` is that of the client, if there is
/// one.
pub fn revoke_client(is_owner: bool, begun: Result<(), String>, name: Option<String>, actor: i64) -> (r: Result<
    (String, Vec<RevokeStep>),
    Refusal,
>)
    ensures
        if !is_owner {
            r is Err && r->Err_0@ == refusal(403, "NOT_OWNER"@, "owner required"@)
        } else {
            match (begun, name) {
                (Err(e), _) => r is Err && r->Err_0@ == refusal(500, "DB_ERROR"@, e@),
                (Ok(_), None) => r is Err && r->Err_0@ == refusal(
                    404,
                    "INVALID_CLIENT"@,
                    "no such client"@,
                ),
                (Ok(_), Some(n)) => r matches Ok(p) && p.0 == n && p.1@ == revoke_steps(actor),
            }
        },
{
    if !is_owner {
        return Err(refuse(403, "NOT_OWNER", "owner required"));
    }
    if let Err(e) = begun {
        return Err(refuse_with(500, "DB_ERROR", e));
    }
    match name {
        None => Err(refuse(404, "INVALID_CLIENT", "no such client")),
        Some(n) => {
            let mut steps: Vec<RevokeStep> = Vec::new();
            steps.push(RevokeStep::Mark(actor));
            steps.push(RevokeStep::DeleteAccess);
            steps.push(RevokeStep::DeleteRefresh);
            steps.push(RevokeStep::DeleteCodes);
            assert(steps@ =~= revoke_steps(actor));
            Ok((n, steps))
        },
    }
}

/// Answers a revocation after its transaction: the note to write.
pub fn revoke_reply(committed: Result<(), String>, client_id: &str, name: &str, actor: i64) -> (r: Result<
    AuditNote,
    Refusal,
>)
    ensures
        match committed {
            Err(e) => r is Err && r->Err_0@ == refusal(500, "DB_ERROR"@, e@),
            Ok(_) => r is Ok && r->Ok_0@ == done(
                "admin.oauth.client_revoke"@,
                seq![
                    ("client_id"@, FieldView::Text(client_id@)),
                    ("client_name"@, FieldView::Text(name@)),
                    ("by_admin_id"@, FieldView::Number(actor as int)),
                ],
            ),
        },
{
    if let Err(e) = committed {
        return Err(refuse_with(500, "DB_ERROR", e));
    }
    let mut extra: Vec<(String, Field)> = Vec::new();
    extra.push(text_field("client_id", client_id));
    extra.push(text_field("client_name", name));
    extra.push(number_field("by_admin_id", actor));
    assert(field_views(extra@) =~= seq![
        ("client_id"@, FieldView::Text(client_id@)),
        ("client_name"@, FieldView::Text(name@)),
        ("by_admin_id"@, FieldView::Number(actor as int)),
    ]);
    Ok(note_done("admin.oauth.client_revoke", extra))
}

} // verus!
