//! Named personal access tokens. Everybody manages their own only.

use vstd::prelude::*;
use crate::admin_team::Caller;
use crate::audit_note::{by_actor, done, field_views, note_by, note_done, number_field, text_field, AuditNote, Field, FieldView};
use crate::oauth_server::storage::{sha256_b64, token_hash};
use crate::reply::{internal_error, refusal, refuse, Refusal, RefusalView};
use crate::text::{byte_count, byte_len, contains, contains_char, has_part, opt_view, trim, trimmed};

verus! {

#[derive(Debug)]
pub struct MintBody {
    pub name: String,
}

#[derive(Debug)]
pub struct TokenRow {
    pub id: i64,
    pub name: String,
    pub created_at: String,
    pub last_used_at: Option<String>,
}

/// Why a token may not have that name, if it may not.
pub open spec fn name_refusal(name: Seq<char>) -> Option<RefusalView> {
    if name.len() == 0 || byte_len(name) > 64 {
        Some(refusal(400, "INVALID_TOKEN_NAME"@, "token name must be 1–64 characters"@))
    } else if name.contains('\0') {
        Some(refusal(400, "INVALID_TOKEN_NAME"@, "token name must not contain NUL bytes"@))
    } else {
        None
    }
}

/// The name of a new token, without white space around it.
pub fn mint(body: &MintBody) -> (r: Result<String, Refusal>)
    ensures
        match name_refusal(trimmed(body.name@)) {
            Some(e) => r is Err && r->Err_0@ == e,
            None => r matches Ok(n) && n@ == trimmed(body.name@),
        },
{
    let name: String = trim(body.name.as_str());
    if name.as_str().is_empty() || byte_count(name.as_str()) > 64 {
        return Err(refuse(400, "INVALID_TOKEN_NAME", "token name must be 1–64 characters"));
    }
    if contains_char(name.as_str(), '\0') {
        return Err(refuse(400, "INVALID_TOKEN_NAME", "token name must not contain NUL bytes"));
    }
    Ok(name)
}

/// The row of a token that has a name. Only the hash of the token is stored.
#[derive(Debug)]
pub struct NamedToken {
    pub admin_id: i64,
    pub name: String,
    pub hash: String,
    pub kind: Option<&'static str>,
}

/// The row of a drawn token.
pub fn mint_row(caller_id: i64, name: &str, plaintext: &str) -> (r: NamedToken)
    ensures
        r.admin_id == caller_id,
        r.name@ == name@,
        r.hash@ == token_hash(plaintext@),
        r.kind is None,
{
    NamedToken {
        admin_id: caller_id,
        name: name.to_owned(),
        hash: sha256_b64(plaintext),
        kind: None,
    }
}

/// The answer that shows a new token, with status 201, and the note to write.
#[derive(Debug)]
pub struct Minted {
    pub id: i64,
    pub name: String,
    pub plaintext_token: String,
    pub note: AuditNote,
}

/// Answers with a new token, given the result of storing it.
pub fn mint_reply(caller: &Caller, name: String, plaintext: String, stored: Result<i64, String>) -> (r: Result<
    Minted,
    Refusal,
>)
    ensures
        match stored {
            Ok(id) => {
                &&& r matches Ok(m)
                &&& m.id == id
                &&& m.name@ == name@
                &&& m.plaintext_token@ == plaintext@
                &&& m.note@ == by_actor(
                    done(
                        "admin.token.mint"@,
                        seq![
                            ("token_id"@, FieldView::Number(id as int)),
                            ("name"@, FieldView::Text(name@)),
                        ],
                    ),
                    caller.id as int,
                    opt_view(caller.email),
                )
            },
            Err(m) => r is Err && r->Err_0@ == (if has_part(m@, "UNIQUE"@) {
                refusal(409, "TOKEN_NAME_TAKEN"@, "a token with that name already exists"@)
            } else {
                refusal(500, "INTERNAL"@, m@)
            }),
        },
{
    match stored {
        Ok(id) => {
            let mut extra: Vec<(String, Field)> = Vec::new();
            extra.push(number_field("token_id", id));
            extra.push(text_field("name", name.as_str()));
            assert(field_views(extra@) =~= seq![
                ("token_id"@, FieldView::Number(id as int)),
                ("name"@, FieldView::Text(name@)),
            ]);
            let note: AuditNote = note_by(
                note_done("admin.token.mint", extra),
                caller.id,
                &caller.email,
            );
            Ok(Minted { id, name, plaintext_token: plaintext, note })
        },
        Err(m) => if contains(m.as_str(), "UNIQUE") {
            Err(refuse(409, "TOKEN_NAME_TAKEN", "a token with that name already exists"))
        } else {
            Err(internal_error(m))
        },
    }
}

/// Answers a revocation. `name` is that of the token, nothing where the
/// caller has no such token; a token of somebody else looks like none.
pub fn revoke_self(
    caller: &Caller,
    token_id: i64,
    name: Option<&str>,
    deleted: Result<usize, String>,
) -> (r: Result<AuditNote, Refusal>)
    ensures
        match name {
            None => r is Err && r->Err_0@ == refusal(404, "TOKEN_NOT_FOUND"@, "token not found"@),
            Some(n) => match deleted {
                Err(m) => r is Err && r->Err_0@ == refusal(500, "INTERNAL"@, m@),
                Ok(k) => if k == 0 {
                    r is Err && r->Err_0@ == refusal(404, "TOKEN_NOT_FOUND"@, "token not found"@)
                } else {
                    r matches Ok(note) && note@ == by_actor(
                        done(
                            "admin.token.revoke"@,
                            seq![
                                ("token_id"@, FieldView::Number(token_id as int)),
                                ("name"@, FieldView::Text(n@)),
                            ],
                        ),
                        caller.id as int,
                        opt_view(caller.email),
                    )
                },
            },
        },
{
    let n: &str = match name {
        Some(n) => n,
        None => {
            return Err(refuse(404, "TOKEN_NOT_FOUND", "token not found"));
        },
    };
    match deleted {
        Err(m) => Err(internal_error(m)),
        Ok(k) => {
            if k == 0 {
                return Err(refuse(404, "TOKEN_NOT_FOUND", "token not found"));
            }
            let mut extra: Vec<(String, Field)> = Vec::new();
            extra.push(number_field("token_id", token_id));
            extra.push(text_field("name", n));
            assert(field_views(extra@) =~= seq![
                ("token_id"@, FieldView::Number(token_id as int)),
                ("name"@, FieldView::Text(n@)),
            ]);
            Ok(note_by(note_done("admin.token.revoke", extra), caller.id, &caller.email))
        },
    }
}

/// A name that is not empty, not too long and free of NUL will do, and no other.
pub proof fn law_token_names_are_short_texts(name: Seq<char>)
    ensures
        name_refusal(name) is None <==> name.len() > 0 && byte_len(name) <= 64 && !name.contains(
            '\0',
        ),
        name_refusal(name) matches Some(e) ==> e.status == 400 && e.code == "INVALID_TOKEN_NAME"@,
{
}

} // verus!
