//! The token endpoint: the authorization_code and the refresh_token grant.
//!
//! A code is good once, until it ends, for the client, the redirect URI and
//! the proof key it was issued for. A refresh token is good once, too; one
//! that comes a second time betrays a theft, and every token of that client
//! and administrator is revoked.
//!
//! Errors have the shape of OAuth 2.1, `error` and `error_description`.

use vstd::prelude::*;
use crate::audit_note::{
    done, failed, field_views, note_done, note_failed, number_field, text_field, AuditNote, Field,
    FieldView, NoteView,
};
use crate::clock::{in_calendar, iso_stamp, stamp};
use crate::oauth_server::pkce::{challenge_of, verify_s256};
use crate::oauth_server::storage::{
    minted, new_access_token, new_refresh_token, sha256_b64, token_hash, token_of_bytes,
    ACCESS_TOKEN_PREFIX, REFRESH_TOKEN_PREFIX,
};
use crate::text::{copy_or, is_le, opt_copy, opt_view, str_eq, text_le};

verus! {

/// An hour in milliseconds, the life of an access token.
pub const HOUR_MS: i64 = 3_600_000;

/// Thirty days in milliseconds, the life of a refresh token.
pub const MONTH_MS: i64 = 2_592_000_000;

// ---------------------------------------------------------------------------
// Requests and refusals
// ---------------------------------------------------------------------------

/// What a client sends to the token endpoint.
#[derive(Debug)]
pub struct TokenForm {
    pub grant_type: String,
    pub code: Option<String>,
    pub code_verifier: Option<String>,
    pub redirect_uri: Option<String>,
    pub client_id: Option<String>,
    pub refresh_token: Option<String>,
    pub resource: Option<String>,
}

/// A refusal of the token endpoint.
#[derive(Debug)]
pub struct OauthRefusal {
    pub status: u16,
    pub error: String,
    pub description: String,
}

/// A refusal of the token endpoint, as mathematics has it.
pub struct OauthRefusalView {
    pub status: u16,
    pub error: Seq<char>,
    pub description: Seq<char>,
}

impl View for OauthRefusal {
    type V = OauthRefusalView;

    open spec fn view(&self) -> OauthRefusalView {
        OauthRefusalView {
            status: self.status,
            error: self.error@,
            description: self.description@,
        }
    }
}

/// A refusal with status 400.
pub open spec fn bad(error: Seq<char>, description: Seq<char>) -> OauthRefusalView {
    OauthRefusalView { status: 400, error, description }
}

fn oauth_error(error: &str, description: &str) -> (r: OauthRefusal)
    ensures
        r@ == bad(error@, description@),
{
    OauthRefusal { status: 400, error: error.to_owned(), description: description.to_owned() }
}

/// The refusal where the database failed with the given words.
pub fn server_error(message: String) -> (r: OauthRefusal)
    ensures
        r@ == (OauthRefusalView {
            status: 500,
            error: "server_error"@,
            description: message@,
        }),
{
    OauthRefusal { status: 500, error: "server_error".to_owned(), description: message }
}

/// A parameter that is there and not empty.
pub open spec fn given(p: Option<String>) -> bool {
    p is Some && p->0@.len() > 0
}

fn is_given(p: &Option<String>) -> (r: bool)
    ensures
        r == given(*p),
{
    match p {
        Some(s) => !s.as_str().is_empty(),
        None => false,
    }
}

// ---------------------------------------------------------------------------
// The tables
// ---------------------------------------------------------------------------

/// A stored authorization code.
#[derive(Debug)]
pub struct CodeRow {
    pub client_id: String,
    pub admin_id: i64,
    pub redirect_uri: String,
    pub pkce_challenge: String,
    pub pkce_challenge_method: String,
    pub resource_uri: String,
    pub scope: Option<String>,
    pub expires_at: String,
    pub consumed_at: Option<String>,
}

/// A stored authorization code, as mathematics has it.
pub struct CodeRowView {
    pub client_id: Seq<char>,
    pub admin_id: int,
    pub redirect_uri: Seq<char>,
    pub pkce_challenge: Seq<char>,
    pub pkce_challenge_method: Seq<char>,
    pub resource_uri: Seq<char>,
    pub scope: Option<Seq<char>>,
    pub expires_at: Seq<char>,
    pub consumed_at: Option<Seq<char>>,
}

impl View for CodeRow {
    type V = CodeRowView;

    open spec fn view(&self) -> CodeRowView {
        CodeRowView {
            client_id: self.client_id@,
            admin_id: self.admin_id as int,
            redirect_uri: self.redirect_uri@,
            pkce_challenge: self.pkce_challenge@,
            pkce_challenge_method: self.pkce_challenge_method@,
            resource_uri: self.resource_uri@,
            scope: opt_view(self.scope),
            expires_at: self.expires_at@,
            consumed_at: opt_view(self.consumed_at),
        }
    }
}

/// A stored access or refresh token.
#[derive(Debug)]
pub struct TokenRow {
    pub client_id: String,
    pub admin_id: i64,
    pub resource_uri: String,
    pub scope: Option<String>,
    pub expires_at: String,
}

/// A stored access or refresh token, as mathematics has it.
pub struct TokenRowView {
    pub client_id: Seq<char>,
    pub admin_id: int,
    pub resource_uri: Seq<char>,
    pub scope: Option<Seq<char>>,
    pub expires_at: Seq<char>,
}

impl View for TokenRow {
    type V = TokenRowView;

    open spec fn view(&self) -> TokenRowView {
        TokenRowView {
            client_id: self.client_id@,
            admin_id: self.admin_id as int,
            resource_uri: self.resource_uri@,
            scope: opt_view(self.scope),
            expires_at: self.expires_at@,
        }
    }
}

/// A stored refresh token with the hash of the token it was exchanged for.
#[derive(Debug)]
pub struct RefreshRow {
    pub token: TokenRow,
    pub rotated_to_hash: Option<String>,
}

/// A stored refresh token, as mathematics has it.
pub struct RefreshRowView {
    pub token: TokenRowView,
    pub rotated_to_hash: Option<Seq<char>>,
}

impl View for RefreshRow {
    type V = RefreshRowView;

    open spec fn view(&self) -> RefreshRowView {
        RefreshRowView { token: self.token@, rotated_to_hash: opt_view(self.rotated_to_hash) }
    }
}

/// The tables of the authorization server, by the hash of the code or token.
pub struct OauthTables {
    pub codes: Map<Seq<char>, CodeRowView>,
    pub access: Map<Seq<char>, TokenRowView>,
    pub refresh: Map<Seq<char>, RefreshRowView>,
}

/// A change to the tables. The changes of one request are made in one
/// transaction, in the order given.
#[derive(Debug)]
pub enum OauthCommand {
    ConsumeCode { code_hash: String, at: String },
    InsertAccess { hash: String, row: TokenRow },
    InsertRefresh { hash: String, row: TokenRow },
    RotateRefresh { hash: String, to: String, at: String },
    DeleteAccess { client_id: String, admin_id: i64 },
    DeleteRefresh { client_id: String, admin_id: i64 },
}

/// A change to the tables, as mathematics has it.
pub enum CommandView {
    ConsumeCode { code_hash: Seq<char>, at: Seq<char> },
    InsertAccess { hash: Seq<char>, row: TokenRowView },
    InsertRefresh { hash: Seq<char>, row: TokenRowView },
    RotateRefresh { hash: Seq<char>, to: Seq<char>, at: Seq<char> },
    DeleteAccess { client_id: Seq<char>, admin_id: int },
    DeleteRefresh { client_id: Seq<char>, admin_id: int },
}

impl View for OauthCommand {
    type V = CommandView;

    open spec fn view(&self) -> CommandView {
        match self {
            OauthCommand::ConsumeCode { code_hash, at } => CommandView::ConsumeCode {
                code_hash: code_hash@,
                at: at@,
            },
            OauthCommand::InsertAccess { hash, row } => CommandView::InsertAccess {
                hash: hash@,
                row: row@,
            },
            OauthCommand::InsertRefresh { hash, row } => CommandView::InsertRefresh {
                hash: hash@,
                row: row@,
            },
            OauthCommand::RotateRefresh { hash, to, at } => CommandView::RotateRefresh {
                hash: hash@,
                to: to@,
                at: at@,
            },
            OauthCommand::DeleteAccess { client_id, admin_id } => CommandView::DeleteAccess {
                client_id: client_id@,
                admin_id: *admin_id as int,
            },
            OauthCommand::DeleteRefresh { client_id, admin_id } => CommandView::DeleteRefresh {
                client_id: client_id@,
                admin_id: *admin_id as int,
            },
        }
    }
}

/// The changes, as mathematics has them.
pub open spec fn command_views(v: Seq<OauthCommand>) -> Seq<CommandView> {
    v.map_values(|c: OauthCommand| c@)
}

/// The tables after one change.
pub open spec fn apply(t: OauthTables, c: CommandView) -> OauthTables {
    match c {
        CommandView::ConsumeCode { code_hash, at } => if t.codes.contains_key(code_hash) {
            OauthTables {
                codes: t.codes.insert(
                    code_hash,
                    CodeRowView { consumed_at: Some(at), ..t.codes[code_hash] },
                ),
                ..t
            }
        } else {
            t
        },
        CommandView::InsertAccess { hash, row } => OauthTables {
            access: t.access.insert(hash, row),
            ..t
        },
        CommandView::InsertRefresh { hash, row } => OauthTables {
            refresh: t.refresh.insert(hash, RefreshRowView { token: row, rotated_to_hash: None }),
            ..t
        },
        CommandView::RotateRefresh { hash, to, at } => if t.refresh.contains_key(hash) {
            OauthTables {
                refresh: t.refresh.insert(
                    hash,
                    RefreshRowView { rotated_to_hash: Some(to), ..t.refresh[hash] },
                ),
                ..t
            }
        } else {
            t
        },
        CommandView::DeleteAccess { client_id, admin_id } => OauthTables {
            access: Map::new(
                |k: Seq<char>|
                    t.access.contains_key(k) && !(t.access[k].client_id == client_id
                        && t.access[k].admin_id == admin_id),
                |k: Seq<char>| t.access[k],
            ),
            ..t
        },
        CommandView::DeleteRefresh { client_id, admin_id } => OauthTables {
            refresh: Map::new(
                |k: Seq<char>|
                    t.refresh.contains_key(k) && !(t.refresh[k].token.client_id == client_id
                        && t.refresh[k].token.admin_id == admin_id),
                |k: Seq<char>| t.refresh[k],
            ),
            ..t
        },
    }
}

/// The tables after some changes, the first made first.
pub open spec fn run(t: OauthTables, cs: Seq<CommandView>) -> OauthTables
    decreases cs.len(),
{
    if cs.len() == 0 {
        t
    } else {
        run(apply(t, cs[0]), cs.drop_first())
    }
}

// ---------------------------------------------------------------------------
// What comes back
// ---------------------------------------------------------------------------

/// A pair of fresh tokens.
#[derive(Debug)]
pub struct TokenPair {
    pub access: String,
    pub refresh: String,
}

/// Makes a pair of fresh tokens.
pub fn mint_pair() -> (r: TokenPair)
    ensures
        token_of_bytes(r.access@, ACCESS_TOKEN_PREFIX@, 32),
        token_of_bytes(r.refresh@, REFRESH_TOKEN_PREFIX@, 32),
        minted(r.access@, ACCESS_TOKEN_PREFIX@, 43),
        minted(r.refresh@, REFRESH_TOKEN_PREFIX@, 43),
{
    TokenPair { access: new_access_token(), refresh: new_refresh_token() }
}

/// The answer to a grant that was accepted.
#[derive(Debug)]
pub struct TokenReply {
    pub access_token: String,
    pub refresh_token: String,
    pub token_type: &'static str,
    pub expires_in: u64,
    pub scope: String,
}

/// What an accepted grant does: the changes to make, then the answer to send
/// and the note to write once they are made.
#[derive(Debug)]
pub struct Issue {
    pub commands: Vec<OauthCommand>,
    pub reply: TokenReply,
    pub note: AuditNote,
}

/// The answer holds the pair, an hour of life and the scope, `drust` where none was asked for.
pub open spec fn answers(r: TokenReply, pair: TokenPair, scope: Option<Seq<char>>) -> bool {
    &&& r.access_token@ == pair.access@
    &&& r.refresh_token@ == pair.refresh@
    &&& r.token_type@ == "Bearer"@
    &&& r.expires_in == 3600
    &&& r.scope@ == (match scope {
        Some(s) => s,
        None => "drust"@,
    })
}

fn token_reply(pair: &TokenPair, scope: &Option<String>) -> (r: TokenReply)
    ensures
        answers(r, *pair, opt_view(*scope)),
{
    TokenReply {
        access_token: pair.access.clone(),
        refresh_token: pair.refresh.clone(),
        token_type: "Bearer",
        expires_in: 3600,
        scope: copy_or(scope, "drust"),
    }
}

/// The row of a new token.
pub open spec fn new_row(
    client_id: Seq<char>,
    admin_id: int,
    resource_uri: Seq<char>,
    scope: Option<Seq<char>>,
    ends: int,
) -> TokenRowView {
    TokenRowView { client_id, admin_id, resource_uri, scope, expires_at: iso_stamp(ends) }
}

fn token_row(
    client_id: &str,
    admin_id: i64,
    resource_uri: &str,
    scope: &Option<String>,
    ends: i64,
) -> (r: TokenRow)
    requires
        in_calendar(ends as int),
    ensures
        r@ == new_row(client_id@, admin_id as int, resource_uri@, opt_view(*scope), ends as int),
{
    TokenRow {
        client_id: client_id.to_owned(),
        admin_id,
        resource_uri: resource_uri.to_owned(),
        scope: opt_copy(scope),
        expires_at: stamp(ends),
    }
}

/// The note about tokens that were issued.
pub open spec fn issue_note(op: Seq<char>, client_id: Seq<char>, admin_id: int, grant: Seq<char>) -> NoteView {
    done(
        op,
        seq![
            ("client_id"@, FieldView::Text(client_id)),
            ("actor_admin_id"@, FieldView::Number(admin_id)),
            ("grant"@, FieldView::Text(grant)),
        ],
    )
}

fn note_issue(op: &str, client_id: &str, admin_id: i64, grant: &str) -> (r: AuditNote)
    ensures
        r@ == issue_note(op@, client_id@, admin_id as int, grant@),
{
    let mut extra: Vec<(String, Field)> = Vec::new();
    extra.push(text_field("client_id", client_id));
    extra.push(number_field("actor_admin_id", admin_id));
    extra.push(text_field("grant", grant));
    assert(field_views(extra@) =~= issue_note(op@, client_id@, admin_id as int, grant@).extra);
    note_done(op, extra)
}

// ---------------------------------------------------------------------------
// The authorization_code grant
// ---------------------------------------------------------------------------

/// A code grant whose parameters are complete.
#[derive(Debug)]
pub struct CodeGrant {
    pub code_hash: String,
    pub verifier: String,
    pub client_id: String,
    pub redirect_uri: String,
}

/// A code grant, as mathematics has it.
pub struct CodeGrantView {
    pub code_hash: Seq<char>,
    pub verifier: Seq<char>,
    pub client_id: Seq<char>,
    pub redirect_uri: Seq<char>,
}

impl View for CodeGrant {
    type V = CodeGrantView;

    open spec fn view(&self) -> CodeGrantView {
        CodeGrantView {
            code_hash: self.code_hash@,
            verifier: self.verifier@,
            client_id: self.client_id@,
            redirect_uri: self.redirect_uri@,
        }
    }
}

/// The code grant that a form asks for, or the first parameter that is missing.
pub open spec fn code_grant(form: TokenForm) -> Result<CodeGrantView, OauthRefusalView> {
    if !given(form.code) {
        Err(bad("invalid_request"@, "code required"@))
    } else if !given(form.code_verifier) {
        Err(bad("invalid_request"@, "code_verifier required"@))
    } else if !given(form.client_id) {
        Err(bad("invalid_request"@, "client_id required"@))
    } else if !given(form.redirect_uri) {
        Err(bad("invalid_request"@, "redirect_uri required"@))
    } else {
        Ok(
            CodeGrantView {
                code_hash: token_hash(form.code->0@),
                verifier: form.code_verifier->0@,
                client_id: form.client_id->0@,
                redirect_uri: form.redirect_uri->0@,
            },
        )
    }
}

/// The result of a step, as mathematics has it.
pub open spec fn outcome<T: View>(r: Result<T, OauthRefusal>) -> Result<T::V, OauthRefusalView> {
    match r {
        Ok(v) => Ok(v@),
        Err(e) => Err(e@),
    }
}

/// Checks that the parameters of a code grant are complete.
pub fn start_code_grant(form: &TokenForm) -> (r: Result<CodeGrant, OauthRefusal>)
    ensures
        outcome(r) == code_grant(*form),
{
    if !is_given(&form.code) {
        return Err(oauth_error("invalid_request", "code required"));
    }
    if !is_given(&form.code_verifier) {
        return Err(oauth_error("invalid_request", "code_verifier required"));
    }
    if !is_given(&form.client_id) {
        return Err(oauth_error("invalid_request", "client_id required"));
    }
    if !is_given(&form.redirect_uri) {
        return Err(oauth_error("invalid_request", "redirect_uri required"));
    }
    let code: String = copy_or(&form.code, "");
    Ok(
        CodeGrant {
            code_hash: sha256_b64(code.as_str()),
            verifier: copy_or(&form.code_verifier, ""),
            client_id: copy_or(&form.client_id, ""),
            redirect_uri: copy_or(&form.redirect_uri, ""),
        },
    )
}

/// Why a code is refused to a grant at the time `now`, if it is.
pub open spec fn code_refusal(g: CodeGrantView, row: CodeRowView, now: int) -> Option<
    OauthRefusalView,
> {
    if row.consumed_at is Some {
        Some(bad("invalid_grant"@, "code already used"@))
    } else if text_le(row.expires_at, iso_stamp(now)) {
        Some(bad("invalid_grant"@, "code expired"@))
    } else if row.client_id != g.client_id {
        Some(bad("invalid_grant"@, "client_id mismatch"@))
    } else if row.redirect_uri != g.redirect_uri {
        Some(bad("invalid_grant"@, "redirect_uri mismatch"@))
    } else if row.pkce_challenge_method != "S256"@ || challenge_of(g.verifier)
        != row.pkce_challenge {
        Some(bad("invalid_grant"@, "PKCE verification failed"@))
    } else {
        None
    }
}

/// The tokens of an answer are known afterwards, by their hashes, to that client
/// and administrator, for that resource and scope. The access token ends when the
/// answer says, the refresh token after thirty days. No other token changed, but
/// for the refresh token with the hash `spent`.
pub open spec fn tokens_are_known(
    before: OauthTables,
    after: OauthTables,
    reply: TokenReply,
    consent: TokenRowView,
    spent: Option<Seq<char>>,
    now: int,
) -> bool {
    let a = token_hash(reply.access_token@);
    let f = token_hash(reply.refresh_token@);
    &&& after.access.contains_key(a)
    &&& after.access[a].client_id == consent.client_id
    &&& after.access[a].admin_id == consent.admin_id
    &&& after.access[a].resource_uri == consent.resource_uri
    &&& after.access[a].scope == consent.scope
    &&& after.access[a].expires_at == iso_stamp(now + 1000 * reply.expires_in)
    &&& reply.expires_in == 60 * 60
    &&& after.refresh.contains_key(f)
    &&& after.refresh[f].token.client_id == consent.client_id
    &&& after.refresh[f].token.admin_id == consent.admin_id
    &&& after.refresh[f].token.resource_uri == consent.resource_uri
    &&& after.refresh[f].token.scope == consent.scope
    &&& after.refresh[f].token.expires_at == iso_stamp(now + 30 * 24 * 60 * 60 * 1000)
    &&& after.refresh[f].rotated_to_hash is None
    &&& forall|h: Seq<char>|
        h != a ==> (#[trigger] after.access.contains_key(h) <==> before.access.contains_key(h))
            && after.access[h] == before.access[h]
    &&& forall|h: Seq<char>|
        h != f ==> (#[trigger] after.refresh.contains_key(h) <==> before.refresh.contains_key(h))
            && (Some(h) != spent ==> after.refresh[h] == before.refresh[h])
    &&& consent.scope is Some ==> reply.scope@ == consent.scope->0
}

/// A code was exchanged: the tokens of the answer stand for the consent that the
/// code was given with, and the code is spent.
pub open spec fn code_is_exchanged(
    before: OauthTables,
    after: OauthTables,
    reply: TokenReply,
    code_hash: Seq<char>,
    now: int,
) -> bool {
    let c = before.codes[code_hash];
    &&& tokens_are_known(
        before,
        after,
        reply,
        TokenRowView {
            client_id: c.client_id,
            admin_id: c.admin_id,
            resource_uri: c.resource_uri,
            scope: c.scope,
            expires_at: c.expires_at,
        },
        None,
        now,
    )
    &&& after.codes.contains_key(code_hash)
    &&& after.codes[code_hash].consumed_at == Some(iso_stamp(now))
    &&& forall|h: Seq<char>|
        h != code_hash ==> (#[trigger] after.codes.contains_key(h) <==> before.codes.contains_key(h))
            && after.codes[h] == before.codes[h]
}

/// A refresh token was exchanged: the tokens of the answer stand for the consent
/// of that token, which is known from then on as exchanged for the new one.
pub open spec fn refresh_is_exchanged(
    before: OauthTables,
    after: OauthTables,
    reply: TokenReply,
    hash: Seq<char>,
    now: int,
) -> bool {
    let f = token_hash(reply.refresh_token@);
    &&& tokens_are_known(before, after, reply, before.refresh[hash].token, Some(hash), now)
    &&& hash != f ==> after.refresh[hash].rotated_to_hash == Some(f) && after.refresh[hash].token
        == before.refresh[hash].token
    &&& after.codes == before.codes
}

/// No token of the client and the administrator of a refresh token is left, and
/// every other token is as it was.
pub open spec fn chain_is_gone(before: OauthTables, after: OauthTables, hash: Seq<char>) -> bool {
    let k = before.refresh[hash].token;
    &&& forall|h: Seq<char>| #[trigger]
        after.access.contains_key(h) ==> !(after.access[h].client_id == k.client_id
            && after.access[h].admin_id == k.admin_id)
    &&& forall|h: Seq<char>| #[trigger]
        after.refresh.contains_key(h) ==> !(after.refresh[h].token.client_id == k.client_id
            && after.refresh[h].token.admin_id == k.admin_id)
    &&& forall|h: Seq<char>| #[trigger]
        before.access.contains_key(h) && !(before.access[h].client_id == k.client_id
            && before.access[h].admin_id == k.admin_id) ==> after.access.contains_key(h)
            && after.access[h] == before.access[h]
    &&& forall|h: Seq<char>| #[trigger]
        before.refresh.contains_key(h) && !(before.refresh[h].token.client_id == k.client_id
            && before.refresh[h].token.admin_id == k.admin_id) ==> after.refresh.contains_key(h)
            && after.refresh[h] == before.refresh[h]
    &&& after.codes == before.codes
}

/// The changes that redeem a code for the given pair of tokens.
pub open spec fn code_commands(
    g: CodeGrantView,
    row: CodeRowView,
    access: Seq<char>,
    refresh: Seq<char>,
    now: int,
) -> Seq<CommandView> {
    seq![
        CommandView::ConsumeCode { code_hash: g.code_hash, at: iso_stamp(now) },
        CommandView::InsertAccess {
            hash: token_hash(access),
            row: new_row(g.client_id, row.admin_id, row.resource_uri, row.scope, now + HOUR_MS),
        },
        CommandView::InsertRefresh {
            hash: token_hash(refresh),
            row: new_row(g.client_id, row.admin_id, row.resource_uri, row.scope, now + MONTH_MS),
        },
    ]
}

/// Redeems a code, given the stored row of its hash and a fresh pair of
/// tokens. A code that ended at or before `now` is always refused.
pub fn handle_code_grant(
    g: &CodeGrant,
    row: &Option<CodeRow>,
    pair: &TokenPair,
    now: i64,
) -> (r: Result<Issue, OauthRefusal>)
    requires
        in_calendar(now as int),
        in_calendar(now + MONTH_MS),
    ensures
        match row {
            None => r is Err && r->Err_0@ == bad("invalid_grant"@, "unknown code"@),
            Some(c) => match code_refusal(g@, c@, now as int) {
                Some(e) => r is Err && r->Err_0@ == e,
                None => {
                    &&& r matches Ok(issue)
                    &&& command_views(issue.commands@) == code_commands(
                        g@,
                        c@,
                        pair.access@,
                        pair.refresh@,
                        now as int,
                    )
                    &&& answers(issue.reply, *pair, opt_view(c.scope))
                    &&& issue.note@ == issue_note(
                        "admin.oauth.token_issue"@,
                        g.client_id@,
                        c.admin_id as int,
                        "authorization_code"@,
                    )
                },
            },
        },
        forall|ends: int|
            #![trigger iso_stamp(ends)]
            (row matches Some(c) && in_calendar(ends) && c.expires_at@ == iso_stamp(ends)
                && ends <= now) ==> r is Err,
        row matches Some(c) ==> (r matches Ok(issue) ==> forall|t: OauthTables|
            #![trigger run(t, command_views(issue.commands@))]
            t.codes.contains_key(g.code_hash@) && t.codes[g.code_hash@] == c@ ==> code_is_exchanged(
                t,
                run(t, command_views(issue.commands@)),
                issue.reply,
                g.code_hash@,
                now as int,
            )),
{
    let c: &CodeRow = match row {
        Some(c) => c,
        None => {
            return Err(oauth_error("invalid_grant", "unknown code"));
        },
    };
    if c.consumed_at.is_some() {
        return Err(oauth_error("invalid_grant", "code already used"));
    }
    let now_text: String = stamp(now);
    if is_le(c.expires_at.as_str(), now_text.as_str()) {
        return Err(oauth_error("invalid_grant", "code expired"));
    }
    if !str_eq(c.client_id.as_str(), g.client_id.as_str()) {
        return Err(oauth_error("invalid_grant", "client_id mismatch"));
    }
    if !str_eq(c.redirect_uri.as_str(), g.redirect_uri.as_str()) {
        return Err(oauth_error("invalid_grant", "redirect_uri mismatch"));
    }
    if !str_eq(c.pkce_challenge_method.as_str(), "S256") || !verify_s256(
        g.verifier.as_str(),
        c.pkce_challenge.as_str(),
    ) {
        return Err(oauth_error("invalid_grant", "PKCE verification failed"));
    }
    let mut commands: Vec<OauthCommand> = Vec::new();
    commands.push(OauthCommand::ConsumeCode { code_hash: g.code_hash.clone(), at: now_text });
    commands.push(
        OauthCommand::InsertAccess {
            hash: sha256_b64(pair.access.as_str()),
            row: token_row(
                g.client_id.as_str(),
                c.admin_id,
                c.resource_uri.as_str(),
                &c.scope,
                now + HOUR_MS,
            ),
        },
    );
    commands.push(
        OauthCommand::InsertRefresh {
            hash: sha256_b64(pair.refresh.as_str()),
            row: token_row(
                g.client_id.as_str(),
                c.admin_id,
                c.resource_uri.as_str(),
                &c.scope,
                now + MONTH_MS,
            ),
        },
    );
    assert(command_views(commands@) =~= code_commands(
        g@,
        c@,
        pair.access@,
        pair.refresh@,
        now as int,
    ));
    let reply: TokenReply = token_reply(pair, &c.scope);
    proof {
        let cs = command_views(commands@);
        assert forall|t: OauthTables|
            #![trigger run(t, cs)]
            t.codes.contains_key(g.code_hash@) && t.codes[g.code_hash@]
                == c@ implies code_is_exchanged(t, run(t, cs), reply, g.code_hash@, now as int) by {
            lemma_run3(t, cs[0], cs[1], cs[2]);
            assert(cs =~= seq![cs[0], cs[1], cs[2]]);
        }
    }
    Ok(
        Issue {
            commands,
            reply,
            note: note_issue(
                "admin.oauth.token_issue",
                g.client_id.as_str(),
                c.admin_id,
                "authorization_code",
            ),
        },
    )
}

// ---------------------------------------------------------------------------
// The refresh_token grant
// ---------------------------------------------------------------------------

/// The hash of the refresh token that a form brings.
pub fn start_refresh_grant(form: &TokenForm) -> (r: Result<String, OauthRefusal>)
    ensures
        outcome(r) == (if given(form.refresh_token) {
            Ok(token_hash(form.refresh_token->0@))
        } else {
            Err(bad("invalid_request"@, "refresh_token required"@))
        }),
{
    if !is_given(&form.refresh_token) {
        return Err(oauth_error("invalid_request", "refresh_token required"));
    }
    let token: String = copy_or(&form.refresh_token, "");
    Ok(sha256_b64(token.as_str()))
}

/// What a second use of a refresh token does: the changes to make, whether or
/// not they succeed, then the refusal to send and the note to write.
#[derive(Debug)]
pub struct Reuse {
    pub commands: Vec<OauthCommand>,
    pub refusal: OauthRefusal,
    pub note: AuditNote,
}

/// What becomes of a refresh grant.
#[derive(Debug)]
pub enum RefreshOutcome {
    Refused(OauthRefusal),
    Reused(Reuse),
    Issued(Issue),
}

/// The changes that revoke every token of a client and administrator.
pub open spec fn revoke_commands(client_id: Seq<char>, admin_id: int) -> Seq<CommandView> {
    seq![
        CommandView::DeleteAccess { client_id, admin_id },
        CommandView::DeleteRefresh { client_id, admin_id },
    ]
}

/// The changes that exchange a refresh token for the given pair of tokens.
pub open spec fn rotate_commands(
    hash: Seq<char>,
    row: TokenRowView,
    access: Seq<char>,
    refresh: Seq<char>,
    now: int,
) -> Seq<CommandView> {
    seq![
        CommandView::RotateRefresh { hash, to: token_hash(refresh), at: iso_stamp(now) },
        CommandView::InsertAccess {
            hash: token_hash(access),
            row: new_row(row.client_id, row.admin_id, row.resource_uri, row.scope, now + HOUR_MS),
        },
        CommandView::InsertRefresh {
            hash: token_hash(refresh),
            row: new_row(row.client_id, row.admin_id, row.resource_uri, row.scope, now + MONTH_MS),
        },
    ]
}

/// What becomes of a refresh grant, as mathematics has it.
pub open spec fn refresh_result(
    hash: Seq<char>,
    row: Option<RefreshRowView>,
    pair: TokenPair,
    now: int,
    out: RefreshOutcome,
) -> bool {
    match row {
        None => out matches RefreshOutcome::Refused(e) && e@ == bad(
            "invalid_grant"@,
            "unknown refresh_token"@,
        ),
        Some(t) => if t.rotated_to_hash is Some {
            &&& out matches RefreshOutcome::Reused(u)
            &&& command_views(u.commands@) == revoke_commands(t.token.client_id, t.token.admin_id)
            &&& u.refusal@ == bad("invalid_grant"@, "refresh_token reuse — chain revoked"@)
            &&& u.note@ == failed(
                "admin.oauth.token_refresh_reuse_detected"@,
                "OAUTH_REFRESH_REUSE"@,
                "refresh token reuse detected — chain revoked"@,
                seq![
                    ("client_id"@, FieldView::Text(t.token.client_id)),
                    ("actor_admin_id"@, FieldView::Number(t.token.admin_id)),
                ],
            )
        } else if text_le(t.token.expires_at, iso_stamp(now)) {
            out matches RefreshOutcome::Refused(e) && e@ == bad(
                "invalid_grant"@,
                "refresh_token expired"@,
            )
        } else {
            &&& out matches RefreshOutcome::Issued(i)
            &&& command_views(i.commands@) == rotate_commands(
                hash,
                t.token,
                pair.access@,
                pair.refresh@,
                now,
            )
            &&& answers(i.reply, pair, t.token.scope)
            &&& i.note@ == issue_note(
                "admin.oauth.token_refresh"@,
                t.token.client_id,
                t.token.admin_id,
                "refresh_token"@,
            )
        },
    }
}

/// Exchanges a refresh token, given the stored row of its hash and a fresh
/// pair of tokens. One that ended at or before `now` is never exchanged.
pub fn handle_refresh_grant(
    hash: &str,
    row: &Option<RefreshRow>,
    pair: &TokenPair,
    now: i64,
) -> (r: RefreshOutcome)
    requires
        in_calendar(now as int),
        in_calendar(now + MONTH_MS),
    ensures
        refresh_result(
            hash@,
            match row {
                Some(t) => Some(t@),
                None => None,
            },
            *pair,
            now as int,
            r,
        ),
        forall|ends: int|
            #![trigger iso_stamp(ends)]
            (row matches Some(t) && in_calendar(ends) && t.token.expires_at@ == iso_stamp(ends)
                && ends <= now) ==> !(r is Issued),
        row matches Some(k) ==> (r matches RefreshOutcome::Issued(i) ==> forall|t: OauthTables|
            #![trigger run(t, command_views(i.commands@))]
            t.refresh.contains_key(hash@) && t.refresh[hash@] == k@ ==> refresh_is_exchanged(
                t,
                run(t, command_views(i.commands@)),
                i.reply,
                hash@,
                now as int,
            )),
        row matches Some(k) ==> (r matches RefreshOutcome::Reused(u) ==> forall|t: OauthTables|
            #![trigger run(t, command_views(u.commands@))]
            t.refresh.contains_key(hash@) && t.refresh[hash@] == k@ ==> chain_is_gone(
                t,
                run(t, command_views(u.commands@)),
                hash@,
            )),
{
    let t: &RefreshRow = match row {
        Some(t) => t,
        None => {
            return RefreshOutcome::Refused(oauth_error("invalid_grant", "unknown refresh_token"));
        },
    };
    let client: &str = t.token.client_id.as_str();
    let admin: i64 = t.token.admin_id;
    if t.rotated_to_hash.is_some() {
        let mut commands: Vec<OauthCommand> = Vec::new();
        commands.push(OauthCommand::DeleteAccess { client_id: client.to_owned(), admin_id: admin });
        commands.push(OauthCommand::DeleteRefresh { client_id: client.to_owned(), admin_id: admin });
        assert(command_views(commands@) =~= revoke_commands(client@, admin as int));
        proof {
            let cs = command_views(commands@);
            assert forall|o: OauthTables|
                #![trigger run(o, cs)]
                o.refresh.contains_key(hash@) && o.refresh[hash@] == t@ implies chain_is_gone(
                o,
                run(o, cs),
                hash@,
            ) by {
                law_reuse_revokes_the_chain(o, client@, admin as int);
            }
        }
        let mut extra: Vec<(String, Field)> = Vec::new();
        extra.push(text_field("client_id", client));
        extra.push(number_field("actor_admin_id", admin));
        assert(field_views(extra@) =~= seq![
            ("client_id"@, FieldView::Text(client@)),
            ("actor_admin_id"@, FieldView::Number(admin as int)),
        ]);
        return RefreshOutcome::Reused(
            Reuse {
                commands,
                refusal: oauth_error("invalid_grant", "refresh_token reuse — chain revoked"),
                note: note_failed(
                    "admin.oauth.token_refresh_reuse_detected",
                    "OAUTH_REFRESH_REUSE",
                    "refresh token reuse detected — chain revoked",
                    extra,
                ),
            },
        );
    }
    let now_text: String = stamp(now);
    if is_le(t.token.expires_at.as_str(), now_text.as_str()) {
        return RefreshOutcome::Refused(oauth_error("invalid_grant", "refresh_token expired"));
    }
    let new_hash: String = sha256_b64(pair.refresh.as_str());
    let mut commands: Vec<OauthCommand> = Vec::new();
    commands.push(
        OauthCommand::RotateRefresh { hash: hash.to_owned(), to: new_hash.clone(), at: now_text },
    );
    commands.push(
        OauthCommand::InsertAccess {
            hash: sha256_b64(pair.access.as_str()),
            row: token_row(
                client,
                admin,
                t.token.resource_uri.as_str(),
                &t.token.scope,
                now + HOUR_MS,
            ),
        },
    );
    commands.push(
        OauthCommand::InsertRefresh {
            hash: new_hash,
            row: token_row(
                client,
                admin,
                t.token.resource_uri.as_str(),
                &t.token.scope,
                now + MONTH_MS,
            ),
        },
    );
    assert(command_views(commands@) =~= rotate_commands(
        hash@,
        t.token@,
        pair.access@,
        pair.refresh@,
        now as int,
    ));
    let reply: TokenReply = token_reply(pair, &t.token.scope);
    proof {
        let cs = command_views(commands@);
        assert forall|o: OauthTables|
            #![trigger run(o, cs)]
            o.refresh.contains_key(hash@) && o.refresh[hash@] == t@ implies refresh_is_exchanged(
            o,
            run(o, cs),
            reply,
            hash@,
            now as int,
        ) by {
            lemma_run3(o, cs[0], cs[1], cs[2]);
            assert(cs =~= seq![cs[0], cs[1], cs[2]]);
        }
    }
    RefreshOutcome::Issued(
        Issue {
            commands,
            reply,
            note: note_issue("admin.oauth.token_refresh", client, admin, "refresh_token"),
        },
    )
}

// ---------------------------------------------------------------------------
// The endpoint
// ---------------------------------------------------------------------------

/// What a form asks of the token endpoint.
#[derive(Debug)]
pub enum GrantRequest {
    Code(CodeGrant),
    Refresh(String),
}

/// Sorts a form by its grant type and checks that its parameters are complete.
pub fn token_endpoint(form: &TokenForm) -> (r: Result<GrantRequest, OauthRefusal>)
    ensures
        if form.grant_type@ == "authorization_code"@ {
            match code_grant(*form) {
                Ok(g) => r matches Ok(GrantRequest::Code(c)) && c@ == g,
                Err(e) => r is Err && r->Err_0@ == e,
            }
        } else if form.grant_type@ == "refresh_token"@ {
            if given(form.refresh_token) {
                r matches Ok(GrantRequest::Refresh(h)) && h@ == token_hash(form.refresh_token->0@)
            } else {
                r is Err && r->Err_0@ == bad("invalid_request"@, "refresh_token required"@)
            }
        } else {
            r is Err && r->Err_0@ == bad(
                "unsupported_grant_type"@,
                "only authorization_code and refresh_token are supported"@,
            )
        },
{
    if str_eq(form.grant_type.as_str(), "authorization_code") {
        match start_code_grant(form) {
            Ok(g) => Ok(GrantRequest::Code(g)),
            Err(e) => Err(e),
        }
    } else if str_eq(form.grant_type.as_str(), "refresh_token") {
        match start_refresh_grant(form) {
            Ok(h) => Ok(GrantRequest::Refresh(h)),
            Err(e) => Err(e),
        }
    } else {
        Err(
            oauth_error(
                "unsupported_grant_type",
                "only authorization_code and refresh_token are supported",
            ),
        )
    }
}

// ---------------------------------------------------------------------------
// Laws
// ---------------------------------------------------------------------------

proof fn lemma_run3(t: OauthTables, a: CommandView, b: CommandView, c: CommandView)
    ensures
        run(t, seq![a, b, c]) == apply(apply(apply(t, a), b), c),
{
    let cs = seq![a, b, c];
    assert(cs.drop_first() =~= seq![b, c]);
    assert(seq![b, c].drop_first() =~= seq![c]);
    assert(seq![c].drop_first() =~= Seq::<CommandView>::empty());
    reveal_with_fuel(run, 4);
}

/// A code that was redeemed is refused to every later grant that brings it,
/// as already used.
pub proof fn law_code_is_good_once(
    t: OauthTables,
    g: CodeGrantView,
    access: Seq<char>,
    refresh: Seq<char>,
    now: int,
    again: CodeGrantView,
    later: int,
)
    requires
        t.codes.contains_key(g.code_hash),
        code_refusal(g, t.codes[g.code_hash], now) is None,
        again.code_hash == g.code_hash,
    ensures
        ({
            let after = run(t, code_commands(g, t.codes[g.code_hash], access, refresh, now));
            &&& after.codes.contains_key(again.code_hash)
            &&& code_refusal(again, after.codes[again.code_hash], later) == Some(
                bad("invalid_grant"@, "code already used"@),
            )
        }),
{
    let cs = code_commands(g, t.codes[g.code_hash], access, refresh, now);
    lemma_run3(t, cs[0], cs[1], cs[2]);
    assert(cs =~= seq![cs[0], cs[1], cs[2]]);
}

/// The tokens that a code is redeemed for belong to the client that brought
/// it and to the administrator, the resource and the scope it was issued for.
pub proof fn law_tokens_keep_the_consent(
    t: OauthTables,
    g: CodeGrantView,
    access: Seq<char>,
    refresh: Seq<char>,
    now: int,
)
    requires
        t.codes.contains_key(g.code_hash),
        code_refusal(g, t.codes[g.code_hash], now) is None,
    ensures
        ({
            let row = t.codes[g.code_hash];
            let after = run(t, code_commands(g, row, access, refresh, now));
            &&& after.access.contains_key(token_hash(access))
            &&& after.refresh.contains_key(token_hash(refresh))
            &&& same_consent(after.access[token_hash(access)], row)
            &&& same_consent(after.refresh[token_hash(refresh)].token, row)
            &&& after.refresh[token_hash(refresh)].rotated_to_hash is None
            &&& challenge_of(g.verifier) == row.pkce_challenge
        }),
{
    let cs = code_commands(g, t.codes[g.code_hash], access, refresh, now);
    lemma_run3(t, cs[0], cs[1], cs[2]);
    assert(cs =~= seq![cs[0], cs[1], cs[2]]);
}

/// What an accepted refresh hands out can be used: the access token of the answer
/// is known by its hash for an hour, and the refresh token for thirty days, both
/// with the client, the administrator, the resource and the scope of the token
/// that was exchanged. The exchanged token is known as spent, and no other token
/// changed.
pub proof fn law_refreshed_tokens_keep_the_consent(
    t: OauthTables,
    hash: Seq<char>,
    pair: TokenPair,
    now: int,
    out: RefreshOutcome,
)
    requires
        t.refresh.contains_key(hash),
        refresh_result(hash, Some(t.refresh[hash]), pair, now, out),
        out is Issued,
    ensures
        refresh_is_exchanged(
            t,
            run(t, command_views(out->Issued_0.commands@)),
            out->Issued_0.reply,
            hash,
            now,
        ),
        out->Issued_0.reply.access_token@ == pair.access@,
        out->Issued_0.reply.refresh_token@ == pair.refresh@,
        t.refresh[hash].rotated_to_hash is None,
{
    let cs = command_views(out->Issued_0.commands@);
    lemma_run3(t, cs[0], cs[1], cs[2]);
    assert(cs =~= seq![cs[0], cs[1], cs[2]]);
}

/// A refresh token that was exchanged before is never exchanged again: its use
/// takes every token of its client and administrator away, the last ones that
/// were handed out among them, and nobody else's.
pub proof fn law_reused_token_ends_the_chain(
    t: OauthTables,
    hash: Seq<char>,
    pair: TokenPair,
    now: int,
    out: RefreshOutcome,
)
    requires
        t.refresh.contains_key(hash),
        t.refresh[hash].rotated_to_hash is Some,
        refresh_result(hash, Some(t.refresh[hash]), pair, now, out),
    ensures
        out is Reused,
        chain_is_gone(t, run(t, command_views(out->Reused_0.commands@)), hash),
{
    law_reuse_revokes_the_chain(t, t.refresh[hash].token.client_id, t.refresh[hash].token.admin_id);
}

/// A token belongs to the client, the administrator, the resource and the scope of a code.
pub open spec fn same_consent(token: TokenRowView, code: CodeRowView) -> bool {
    &&& token.client_id == code.client_id
    &&& token.admin_id == code.admin_id
    &&& token.resource_uri == code.resource_uri
    &&& token.scope == code.scope
}

/// A refresh token that was exchanged is known as exchanged from then on, so
/// that its next use is a reuse.
pub proof fn law_refresh_is_good_once(
    t: OauthTables,
    hash: Seq<char>,
    access: Seq<char>,
    refresh: Seq<char>,
    now: int,
)
    requires
        t.refresh.contains_key(hash),
        hash != token_hash(refresh),
    ensures
        ({
            let after = run(t, rotate_commands(hash, t.refresh[hash].token, access, refresh, now));
            &&& after.refresh.contains_key(hash)
            &&& after.refresh[hash].rotated_to_hash == Some(token_hash(refresh))
            &&& after.refresh[hash].token == t.refresh[hash].token
            &&& after.refresh.contains_key(token_hash(refresh))
            &&& after.refresh[token_hash(refresh)].rotated_to_hash is None
        }),
{
    let cs = rotate_commands(hash, t.refresh[hash].token, access, refresh, now);
    lemma_run3(t, cs[0], cs[1], cs[2]);
    assert(cs =~= seq![cs[0], cs[1], cs[2]]);
}

/// The reuse of a refresh token leaves no token of its client and
/// administrator, and leaves every other token and every code as it was.
pub proof fn law_reuse_revokes_the_chain(t: OauthTables, client_id: Seq<char>, admin_id: int)
    ensures
        ({
            let after = run(t, revoke_commands(client_id, admin_id));
            &&& forall|h: Seq<char>| #[trigger]
                after.access.contains_key(h) <==> t.access.contains_key(h) && !(
                t.access[h].client_id == client_id && t.access[h].admin_id == admin_id)
            &&& forall|h: Seq<char>| #[trigger]
                after.refresh.contains_key(h) <==> t.refresh.contains_key(h) && !(
                t.refresh[h].token.client_id == client_id && t.refresh[h].token.admin_id
                    == admin_id)
            &&& forall|h: Seq<char>|
                after.access.contains_key(h) ==> #[trigger] after.access[h] == t.access[h]
            &&& forall|h: Seq<char>|
                after.refresh.contains_key(h) ==> #[trigger] after.refresh[h] == t.refresh[h]
            &&& after.codes == t.codes
        }),
{
    let cs = revoke_commands(client_id, admin_id);
    assert(cs.drop_first() =~= seq![cs[1]]);
    assert(seq![cs[1]].drop_first() =~= Seq::<CommandView>::empty());
    reveal_with_fuel(run, 3);
}

/// A code is redeemed by the client that it was given to, for the address that it was
/// given for, with the verifier of its challenge, once and before its end; and by nobody
/// else. Every refusal is one of the grant.
pub proof fn law_codes_are_for_their_client(g: CodeGrantView, row: CodeRowView, now: int)
    ensures
        code_refusal(g, row, now) is None <==> {
            &&& row.consumed_at is None
            &&& !text_le(row.expires_at, iso_stamp(now))
            &&& g.client_id == row.client_id
            &&& g.redirect_uri == row.redirect_uri
            &&& row.pkce_challenge_method == "S256"@
            &&& row.pkce_challenge == challenge_of(g.verifier)
        },
        code_refusal(g, row, now) matches Some(e) ==> e.status == 400 && e.error
            == "invalid_grant"@,
        row.consumed_at is Some ==> code_refusal(g, row, now) == Some(
            OauthRefusalView {
                status: 400,
                error: "invalid_grant"@,
                description: "code already used"@,
            },
        ),
{
}

/// A grant is asked for with the values of the form, each from its own field; the code
/// is looked up by its hash. Where one of them is missing, the request is refused as
/// incomplete.
pub proof fn law_grants_hold_the_form(form: TokenForm)
    ensures
        code_grant(form) is Ok <==> given(form.code) && given(form.code_verifier) && given(
            form.client_id,
        ) && given(form.redirect_uri),
        code_grant(form) matches Ok(g) ==> {
            &&& g.code_hash == token_hash((form.code->0)@)
            &&& g.verifier == (form.code_verifier->0)@
            &&& g.client_id == (form.client_id->0)@
            &&& g.redirect_uri == (form.redirect_uri->0)@
        },
        code_grant(form) matches Err(e) ==> e.status == 400 && e.error == "invalid_request"@,
        form.code is None ==> (code_grant(form) matches Err(e) && e.description == "code required"@),
{
}

/// An answer hands out the pair that was made, each token in its own place, says how
/// long the access token lives, and names the scope that was consented to.
pub proof fn law_answers_hand_out_the_pair(r: TokenReply, pair: TokenPair, scope: Option<Seq<char>>)
    requires
        answers(r, pair, scope),
    ensures
        r.access_token@ == pair.access@ && r.refresh_token@ == pair.refresh@,
        r.token_type@ == "Bearer"@,
        r.expires_in * 1000 == HOUR_MS,
        scope matches Some(s) ==> r.scope@ == s,
        scope is None ==> r.scope@ == "drust"@,
{
}

/// A refresh token is exchanged exactly where it is known, was not exchanged before and
/// has not ended; one that was exchanged before ends its chain, whenever it comes.
pub proof fn law_refresh_tokens_are_exchanged_or_refused(
    hash: Seq<char>,
    row: Option<RefreshRowView>,
    pair: TokenPair,
    now: int,
    out: RefreshOutcome,
)
    requires
        refresh_result(hash, row, pair, now, out),
    ensures
        out is Issued <==> row is Some && (row->0).rotated_to_hash is None && !text_le(
            (row->0).token.expires_at,
            iso_stamp(now),
        ),
        out is Reused <==> row is Some && (row->0).rotated_to_hash is Some,
        out matches RefreshOutcome::Refused(e) ==> e@.status == 400 && e@.error
            == "invalid_grant"@,
        out matches RefreshOutcome::Reused(u) ==> u.refusal@.status == 400 && u.refusal@.error
            == "invalid_grant"@ && u.note@.failure is Some,
        out matches RefreshOutcome::Issued(i) ==> i.note@.failure is None && i.reply.access_token@
            == pair.access@ && i.reply.refresh_token@ == pair.refresh@,
{
}

/// The note about tokens names the client, the administrator and the grant.
pub proof fn law_issues_are_noted(op: Seq<char>, client_id: Seq<char>, admin_id: int, grant: Seq<char>)
    ensures
        ({
            let n = issue_note(op, client_id, admin_id, grant);
            &&& n.op == op && n.failure is None
            &&& n.extra.contains(("client_id"@, FieldView::Text(client_id)))
            &&& n.extra.contains(("actor_admin_id"@, FieldView::Number(admin_id)))
            &&& n.extra.contains(("grant"@, FieldView::Text(grant)))
        }),
{
    let e = issue_note(op, client_id, admin_id, grant).extra;
    assert(e[0] == ("client_id"@, FieldView::Text(client_id)));
    assert(e[1] == ("actor_admin_id"@, FieldView::Number(admin_id)));
    assert(e[2] == ("grant"@, FieldView::Text(grant)));
}

/// A field that is empty counts as missing, and one that holds anything does not.
pub proof fn law_empty_fields_are_missing(p: Option<String>)
    ensures
        p is None ==> !given(p),
        p matches Some(s) ==> (given(p) <==> s@ != Seq::<char>::empty()),
{
    if let Some(s) = p {
        if s@.len() == 0 {
            assert(s@ =~= Seq::<char>::empty());
        }
    }
}

} // verus!
