//! The token that an administrator's MCP client uses.
//!
//! An administrator has at most one such token that is active. Its text is
//! shown when it is made and never again; later the first characters of its
//! hash tell that it exists.

use vstd::prelude::*;
use vstd::utf8::{
    encode_utf8, encode_utf8_decode_utf8, is_ascii_chars, is_ascii_chars_encode_utf8,
    is_char_boundary, is_leading_byte_width_1, length_of_first_scalar, pop_first_scalar,
};
use crate::admin_tokens::NamedToken;
use crate::audit_note::{by_actor, done, field_views, note_by, note_done, text_field, AuditNote, Field, FieldView, NoteView};
use crate::crypto::base64_char;
use crate::oauth_server::storage::{sha256_b64, token_hash};
use crate::reply::{internal_error, refusal, Refusal};
use crate::text::{concat2, contains, first_chars, has_part, has_prefix, opt_view, take_chars};

verus! {

pub const KIND_AUTO_MCP: &'static str = "auto_mcp";

#[derive(Debug)]
pub struct PatEnsureResponse {
    pub token: Option<String>,
    pub just_minted: bool,
    pub has_pat: Option<bool>,
    pub hash_prefix: Option<String>,
}

/// The number of bytes of a hash that go into a name.
pub open spec fn name_bytes(hash: Seq<char>) -> int {
    if encode_utf8(hash).len() < 12 {
        encode_utf8(hash).len() as int
    } else {
        12
    }
}

/// The name of a new token: `auto-mcp-` and the first twelve bytes of its
/// hash. Names are unique for an administrator and those of revoked tokens
/// stay in use, so a fixed name would do only once.
pub fn auto_mcp_name(hash: &str) -> (r: String)
    requires
        is_char_boundary(encode_utf8(hash@), name_bytes(hash@)),
    ensures
        has_prefix(r@, "auto-mcp-"@),
        encode_utf8(r@.skip(9)) == encode_utf8(hash@).take(name_bytes(hash@)),
{
    let bytes: &[u8] = hash.as_bytes();
    let n: usize = if bytes.len() < 12 { bytes.len() } else { 12 };
    let (head, _) = hash.split_at(n);
    let r: String = concat2("auto-mcp-", head);
    proof {
        reveal_strlit("auto-mcp-");
        assert(r@.subrange(0, 9) =~= "auto-mcp-"@);
        assert(r@.skip(9) =~= head@);
        assert(encode_utf8(hash@).subrange(0, n as int) =~= encode_utf8(hash@).take(n as int));
    }
    r
}

proof fn lemma_ascii_boundary(s: Seq<char>, i: int)
    requires
        is_ascii_chars(s),
        0 <= i <= s.len(),
    ensures
        is_char_boundary(encode_utf8(s), i),
    decreases s.len(),
{
    broadcast use vstd::utf8::group_utf8_lib;

    is_ascii_chars_encode_utf8(s);
    if i > 0 {
        let rest = s.drop_first();
        lemma_ascii_boundary(rest, i - 1);
        is_ascii_chars_encode_utf8(rest);
        assert(encode_utf8(s).drop_first() =~= encode_utf8(rest));
        let b = encode_utf8(s)[0];
        assert(b < 128);
        assert(is_leading_byte_width_1(b)) by (bit_vector)
            requires
                b < 128,
        ;
        assert(length_of_first_scalar(encode_utf8(s)) == 1);
        assert(pop_first_scalar(encode_utf8(s)) =~= encode_utf8(rest));
    }
}

/// The row of a drawn token for an MCP client. It is named after the first twelve
/// characters of its hash.
pub fn auto_mcp_row(caller_id: i64, plaintext: &str) -> (r: NamedToken)
    ensures
        r.admin_id == caller_id,
        r.name@ == "auto-mcp-"@ + token_hash(plaintext@).take(12),
        r.hash@ == token_hash(plaintext@),
        r.kind matches Some(k) && k@ == KIND_AUTO_MCP@,
{
    broadcast use vstd::utf8::group_utf8_lib;

    let hash: String = sha256_b64(plaintext);
    let ghost h = hash@;
    proof {
        assert forall|i: int| 0 <= i < h.len() implies '\0' <= #[trigger] h[i] <= '\u{7f}' by {
            assert(base64_char(h[i]));
        }
        assert(is_ascii_chars(h));
        is_ascii_chars_encode_utf8(h);
        lemma_ascii_boundary(h, 12);
    }
    let name: String = auto_mcp_name(hash.as_str());
    proof {
        reveal_strlit("auto-mcp-");
        let head = h.take(12);
        assert(is_ascii_chars(head));
        is_ascii_chars_encode_utf8(head);
        assert(encode_utf8(head) =~= encode_utf8(h).take(12));
        encode_utf8_decode_utf8(head);
        encode_utf8_decode_utf8(name@.skip(9));
        assert(name@.skip(9) == head);
        assert(name@ =~= name@.subrange(0, 9) + name@.skip(9));
    }
    NamedToken { admin_id: caller_id, name, hash, kind: Some(KIND_AUTO_MCP) }
}

/// The note about a token that was made.
pub open spec fn mint_note(admin_id: int) -> NoteView {
    by_actor(
        done("admin.token.mint"@, seq![("kind"@, FieldView::Text("auto_mcp"@))]),
        admin_id,
        None,
    )
}

pub fn emit_mint_audit(caller_id: i64) -> (r: AuditNote)
    ensures
        r@ == mint_note(caller_id as int),
{
    let mut extra: Vec<(String, Field)> = Vec::new();
    extra.push(text_field("kind", "auto_mcp"));
    assert(field_views(extra@) =~= seq![("kind"@, FieldView::Text("auto_mcp"@))]);
    note_by(note_done("admin.token.mint", extra), caller_id, &None)
}

/// The note about a token that gave way to a new one.
pub open spec fn remint_note(admin_id: int) -> NoteView {
    by_actor(
        done(
            "admin.token.revoke"@,
            seq![
                ("kind"@, FieldView::Text("auto_mcp"@)),
                ("reason"@, FieldView::Text("remint"@)),
            ],
        ),
        admin_id,
        None,
    )
}

pub fn emit_revoke_audit(caller_id: i64) -> (r: AuditNote)
    ensures
        r@ == remint_note(caller_id as int),
{
    let mut extra: Vec<(String, Field)> = Vec::new();
    extra.push(text_field("kind", "auto_mcp"));
    extra.push(text_field("reason", "remint"));
    assert(field_views(extra@) =~= seq![
        ("kind"@, FieldView::Text("auto_mcp"@)),
        ("reason"@, FieldView::Text("remint"@)),
    ]);
    note_by(note_done("admin.token.revoke", extra), caller_id, &None)
}

/// The answer that shows a new token.
pub open spec fn shows(r: PatEnsureResponse, token: Seq<char>) -> bool {
    opt_view(r.token) == Some(token) && r.just_minted && r.has_pat is None && r.hash_prefix is None
}

/// The answer that tells of a token without showing it.
pub open spec fn tells(r: PatEnsureResponse, hash: Seq<char>) -> bool {
    r.token is None && !r.just_minted && r.has_pat == Some(true) && opt_view(r.hash_prefix) == Some(
        first_chars(hash, 8),
    )
}

fn existing_reply(hash: &str) -> (r: PatEnsureResponse)
    ensures
        tells(r, hash@),
{
    PatEnsureResponse {
        token: None,
        just_minted: false,
        has_pat: Some(true),
        hash_prefix: Some(take_chars(hash, 8)),
    }
}

fn minted_reply(plaintext: &str) -> (r: PatEnsureResponse)
    ensures
        shows(r, plaintext@),
{
    PatEnsureResponse {
        token: Some(plaintext.to_owned()),
        just_minted: true,
        has_pat: None,
        hash_prefix: None,
    }
}

/// The answer where there is an active token already; without one a new one
/// has to be stored.
pub fn ensure(existing_hash: Option<&str>) -> (r: Option<PatEnsureResponse>)
    ensures
        match existing_hash {
            Some(h) => r matches Some(p) && tells(p, h@),
            None => r is None,
        },
{
    match existing_hash {
        Some(h) => Some(existing_reply(h)),
        None => None,
    }
}

/// What follows the attempt to store a new token.
#[derive(Debug)]
pub enum EnsureNext {
    Minted { reply: PatEnsureResponse, note: AuditNote },
    /// Another request was first; look its token up.
    Reread,
    Refused(Refusal),
}

/// Reads the result of storing a new token.
pub fn after_ensure_insert(caller_id: i64, plaintext: &str, stored: Result<(), String>) -> (r: EnsureNext)
    ensures
        match stored {
            Ok(_) => r matches EnsureNext::Minted { reply, note } && shows(reply, plaintext@)
                && note@ == mint_note(caller_id as int),
            Err(m) => if has_part(m@, "UNIQUE"@) {
                r is Reread
            } else {
                r matches EnsureNext::Refused(e) && e@ == refusal(500, "INTERNAL"@, m@)
            },
        },
{
    match stored {
        Ok(_) => EnsureNext::Minted {
            reply: minted_reply(plaintext),
            note: emit_mint_audit(caller_id),
        },
        Err(m) => if contains(m.as_str(), "UNIQUE") {
            EnsureNext::Reread
        } else {
            EnsureNext::Refused(internal_error(m))
        },
    }
}

/// Answers with the token that another request stored first.
pub fn after_reread(hash: Result<String, String>) -> (r: Result<PatEnsureResponse, Refusal>)
    ensures
        match hash {
            Ok(h) => r matches Ok(p) && tells(p, h@),
            Err(m) => r is Err && r->Err_0@ == refusal(500, "INTERNAL"@, m@),
        },
{
    match hash {
        Ok(h) => Ok(existing_reply(h.as_str())),
        Err(m) => Err(internal_error(m)),
    }
}

/// The answer to a request for a new token, with the notes about the old and
/// the new one, given the result of the transaction that revokes and stores.
#[derive(Debug)]
pub struct Remint {
    pub reply: PatEnsureResponse,
    pub revoke_note: AuditNote,
    pub mint_note: AuditNote,
}

pub fn remint(caller_id: i64, plaintext: &str, stored: Result<(), String>) -> (r: Result<Remint, Refusal>)
    ensures
        match stored {
            Ok(_) => {
                &&& r matches Ok(m)
                &&& shows(m.reply, plaintext@)
                &&& m.revoke_note@ == remint_note(caller_id as int)
                &&& m.mint_note@ == mint_note(caller_id as int)
            },
            Err(m) => r is Err && r->Err_0@ == refusal(500, "INTERNAL"@, m@),
        },
{
    match stored {
        Ok(_) => Ok(
            Remint {
                reply: minted_reply(plaintext),
                revoke_note: emit_revoke_audit(caller_id),
                mint_note: emit_mint_audit(caller_id),
            },
        ),
        Err(m) => Err(internal_error(m)),
    }
}

/// A token is shown only when it is made; whoever asks later learns that there is one and
/// how its hash begins, but not the token.
pub proof fn law_tokens_are_shown_once(
    first: PatEnsureResponse,
    later: PatEnsureResponse,
    token: Seq<char>,
    hash: Seq<char>,
)
    requires
        shows(first, token),
        tells(later, hash),
    ensures
        first.token is Some && (first.token->0)@ == token && first.just_minted,
        later.token is None && !later.just_minted && later.has_pat == Some(true),
        later.hash_prefix is Some && (hash.len() >= 8 ==> (later.hash_prefix->0)@ == hash.take(8)),
{
}

/// A token that gave way is noted as revoked and the new one as made, for the same
/// administrator and as of the same kind.
pub proof fn law_reminting_is_noted(admin_id: int)
    ensures
        mint_note(admin_id).op == "admin.token.mint"@,
        remint_note(admin_id).op == "admin.token.revoke"@,
        mint_note(admin_id).actor == Some((admin_id, None::<Seq<char>>)),
        remint_note(admin_id).actor == mint_note(admin_id).actor,
        mint_note(admin_id).extra.contains(("kind"@, FieldView::Text("auto_mcp"@))),
        remint_note(admin_id).extra.contains(("kind"@, FieldView::Text("auto_mcp"@))),
        remint_note(admin_id).extra.contains(("reason"@, FieldView::Text("remint"@))),
{
    assert(mint_note(admin_id).extra[0] == ("kind"@, FieldView::Text("auto_mcp"@)));
    assert(remint_note(admin_id).extra[0] == ("kind"@, FieldView::Text("auto_mcp"@)));
    assert(remint_note(admin_id).extra[1] == ("reason"@, FieldView::Text("remint"@)));
}

} // verus!
