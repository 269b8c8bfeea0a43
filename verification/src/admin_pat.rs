//! Personal access tokens: the one of the console and those of the command
//! line client.
//!
//! Each administrator has one token without a label, which the console shows
//! and rerolls. The tokens of the command line client carry a label and live
//! apart from it: a reroll leaves them alone, and a refresh or a logout of
//! the client leaves the token of the console alone.

use vstd::prelude::*;
use crate::audit_note::{
    by_actor, done, field_views, note_by, note_done, AuditNote, Field, FieldView, NoteView,
};
use crate::oauth_server::storage::{draw, minted, sha256_b64, token_hash, token_of_bytes};
use crate::pat_evict::{
    clears_first, revocation, revocation_steps, step_views, PatReach, RevokeStep,
};
use crate::reply::{refusal, refuse, Refusal};
use crate::text::{
    after_part, after_prefix, ascii_digit, before_char, before_part, concat2, cut, dec, find_part,
    has_prefix, head_before, law_dec_is_read_back, law_texts_are_cut_at_the_part, lemma_dec_digits,
    lemma_find_char_is, lemma_part_is_not_before, opt_copy, opt_view, parse_signed, signed_of,
    stands_at, starts_with, strip_prefix,
};

verus! {

/// What every personal access token begins with.
pub const TOKEN_PREFIX: &'static str = "drust_pat_";

/// What a token of the command line client begins with.
pub const CLI_TOKEN_PREFIX: &'static str = "drust_pat_cli_";

#[derive(Debug)]
pub struct RerollResponse {
    pub plaintext: String,
}

/// Makes a token for the console.
pub fn generate_token() -> (r: String)
    ensures
        token_of_bytes(r@, TOKEN_PREFIX@, 32),
        minted(r@, TOKEN_PREFIX@, 43),
{
    draw(TOKEN_PREFIX, 32)
}

/// Makes a token for the command line client.
pub fn generate_cli_token() -> (r: String)
    ensures
        token_of_bytes(r@, CLI_TOKEN_PREFIX@, 32),
        minted(r@, CLI_TOKEN_PREFIX@, 43),
{
    draw(CLI_TOKEN_PREFIX, 32)
}

// ---------------------------------------------------------------------------
// The table
// ---------------------------------------------------------------------------

/// A stored token, as mathematics has it.
pub struct PatView {
    pub admin_id: int,
    pub hash: Seq<char>,
    pub label: Option<Seq<char>>,
    pub revoked: bool,
}

/// A change to the table of tokens.
#[derive(Debug)]
pub enum PatCommand {
    /// Revoke the active tokens of the administrator that have no label.
    RevokeUnlabeled { admin_id: i64 },
    /// Revoke the token if it is active.
    RevokeActive { id: i64 },
    /// Revoke the token if it is active, belongs to the administrator and has a label.
    RevokeLabeled { id: i64, admin_id: i64 },
    /// Store a token, which ends after that many seconds if it says so.
    Insert {
        admin_id: i64,
        hash: String,
        plaintext: String,
        label: Option<String>,
        ttl_secs: Option<i64>,
    },
}

/// A change to the table of tokens, as mathematics has it.
pub enum PatCommandView {
    RevokeUnlabeled { admin_id: int },
    RevokeActive { id: int },
    RevokeLabeled { id: int, admin_id: int },
    Insert {
        admin_id: int,
        hash: Seq<char>,
        plaintext: Seq<char>,
        label: Option<Seq<char>>,
        ttl_secs: Option<int>,
    },
}

impl View for PatCommand {
    type V = PatCommandView;

    open spec fn view(&self) -> PatCommandView {
        match self {
            PatCommand::RevokeUnlabeled { admin_id } => PatCommandView::RevokeUnlabeled {
                admin_id: *admin_id as int,
            },
            PatCommand::RevokeActive { id } => PatCommandView::RevokeActive { id: *id as int },
            PatCommand::RevokeLabeled { id, admin_id } => PatCommandView::RevokeLabeled {
                id: *id as int,
                admin_id: *admin_id as int,
            },
            PatCommand::Insert { admin_id, hash, plaintext, label, ttl_secs } =>
            PatCommandView::Insert {
                admin_id: *admin_id as int,
                hash: hash@,
                plaintext: plaintext@,
                label: opt_view(*label),
                ttl_secs: match ttl_secs {
                    Some(n) => Some(*n as int),
                    None => None,
                },
            },
        }
    }
}

/// The changes, as mathematics has them.
pub open spec fn pat_commands(v: Seq<PatCommand>) -> Seq<PatCommandView> {
    v.map_values(|c: PatCommand| c@)
}

/// A token that a change revokes.
pub open spec fn revokes(c: PatCommandView, id: int, t: PatView) -> bool {
    !t.revoked && match c {
        PatCommandView::RevokeUnlabeled { admin_id } => t.admin_id == admin_id && t.label is None,
        PatCommandView::RevokeActive { id: k } => id == k,
        PatCommandView::RevokeLabeled { id: k, admin_id } => id == k && t.admin_id == admin_id
            && t.label is Some,
        PatCommandView::Insert { .. } => false,
    }
}

/// The table after a change. A new token gets the id `fresh`.
pub open spec fn pat_apply(table: Map<int, PatView>, c: PatCommandView, fresh: int) -> Map<
    int,
    PatView,
> {
    match c {
        PatCommandView::Insert { admin_id, hash, plaintext, label, ttl_secs } => table.insert(
            fresh,
            PatView { admin_id, hash, label, revoked: false },
        ),
        _ => Map::new(
            |id: int| table.contains_key(id),
            |id: int|
                if revokes(c, id, table[id]) {
                    PatView { revoked: true, ..table[id] }
                } else {
                    table[id]
                },
        ),
    }
}

/// The note about a token that was made or revoked.
pub open spec fn token_note(op: Seq<char>, admin_id: int) -> NoteView {
    by_actor(done(op, Seq::<(Seq<char>, FieldView)>::empty()), admin_id, None)
}

fn note_token(op: &str, admin_id: i64) -> (r: AuditNote)
    ensures
        r@ == token_note(op@, admin_id as int),
{
    let extra: Vec<(String, Field)> = Vec::new();
    assert(field_views(extra@) =~= Seq::<(Seq<char>, FieldView)>::empty());
    note_by(note_done(op, extra), admin_id, &None)
}

/// The note about a token that was made.
pub fn emit_audit_mint(caller_id: i64) -> (r: AuditNote)
    ensures
        r@ == token_note("admin.token.mint"@, caller_id as int),
{
    note_token("admin.token.mint", caller_id)
}

/// The note about a token that was revoked.
pub fn emit_audit_revoke(caller_id: i64) -> (r: AuditNote)
    ensures
        r@ == token_note("admin.token.revoke"@, caller_id as int),
{
    note_token("admin.token.revoke", caller_id)
}

// ---------------------------------------------------------------------------
// The token of the console
// ---------------------------------------------------------------------------

/// The changes of a reroll, made in one transaction.
pub open spec fn reroll_commands(admin_id: int, plaintext: Seq<char>) -> Seq<PatCommandView> {
    seq![
        PatCommandView::RevokeUnlabeled { admin_id },
        PatCommandView::Insert {
            admin_id,
            hash: token_hash(plaintext),
            plaintext,
            label: None,
            ttl_secs: None,
        },
    ]
}

/// Lists the changes of a reroll to the given fresh token.
pub fn reroll(caller_id: i64, plaintext: &str) -> (r: Vec<PatCommand>)
    ensures
        pat_commands(r@) == reroll_commands(caller_id as int, plaintext@),
{
    let mut v: Vec<PatCommand> = Vec::new();
    v.push(PatCommand::RevokeUnlabeled { admin_id: caller_id });
    v.push(
        PatCommand::Insert {
            admin_id: caller_id,
            hash: sha256_b64(plaintext),
            plaintext: plaintext.to_owned(),
            label: None,
            ttl_secs: None,
        },
    );
    assert(pat_commands(v@) =~= reroll_commands(caller_id as int, plaintext@));
    v
}

/// What follows the exchange of a token: the steps that make it take effect,
/// in order, the two notes to write, and that the answer is marked sensitive.
pub struct Exchange {
    pub steps: Vec<RevokeStep>,
    pub revoke_note: AuditNote,
    pub mint_note: AuditNote,
    pub sensitive: bool,
}

/// Lists what follows the exchange of a token.
pub fn exchange_aftermath(admin_id: i64, reach: &PatReach) -> (r: Exchange)
    ensures
        step_views(r.steps@) == revocation(admin_id as int, reach@),
        clears_first(step_views(r.steps@)),
        r.revoke_note@ == token_note("admin.token.revoke"@, admin_id as int),
        r.mint_note@ == token_note("admin.token.mint"@, admin_id as int),
        r.sensitive,
{
    Exchange {
        steps: revocation_steps(admin_id, reach),
        revoke_note: emit_audit_revoke(admin_id),
        mint_note: emit_audit_mint(admin_id),
        sensitive: true,
    }
}

/// After a reroll the new token is the only active one without a label, and
/// every labelled token is as it was.
pub proof fn law_reroll_leaves_one(
    table: Map<int, PatView>,
    admin_id: int,
    plaintext: Seq<char>,
    fresh: int,
)
    requires
        !table.contains_key(fresh),
    ensures
        ({
            let cs = reroll_commands(admin_id, plaintext);
            let after = pat_apply(pat_apply(table, cs[0], fresh), cs[1], fresh);
            &&& forall|id: int| #[trigger]
                after.contains_key(id) && after[id].admin_id == admin_id && after[id].label is None
                    && !after[id].revoked <==> id == fresh
            &&& forall|id: int| #[trigger]
                table.contains_key(id) && table[id].label is Some ==> after[id] == table[id]
            &&& after[fresh].hash == token_hash(plaintext)
        }),
{
    let cs = reroll_commands(admin_id, plaintext);
    let mid = pat_apply(table, cs[0], fresh);
    let after = pat_apply(mid, cs[1], fresh);
    assert(after.contains_key(fresh));
}

// ---------------------------------------------------------------------------
// The tokens of the command line client
// ---------------------------------------------------------------------------

/// The row of the token that a request brings.
#[derive(Debug)]
pub struct CliCaller {
    pub token_id: i64,
    pub admin_id: i64,
    pub email: Option<String>,
    pub label: Option<String>,
}

/// The token that an `Authorization` header brings, if it is a personal access token.
pub open spec fn bearer_of(header: Option<Seq<char>>) -> Option<Seq<char>> {
    match header {
        Some(h) => match after_prefix(h, "Bearer "@) {
            Some(t) => if has_prefix(t, TOKEN_PREFIX@) {
                Some(t)
            } else {
                None
            },
            None => None,
        },
        None => None,
    }
}

/// The hash of the token that a request of the client brings.
pub fn cli_bearer(authorization: Option<&str>) -> (r: Result<String, Refusal>)
    ensures
        match bearer_of(
            match authorization {
                Some(h) => Some(h@),
                None => None,
            },
        ) {
            Some(t) => r matches Ok(h) && h@ == token_hash(t),
            None => r is Err && r->Err_0@ == refusal(
                401,
                "CLI_AUTH_REQUIRED"@,
                "CLI personal access token required"@,
            ),
        },
{
    if let Some(h) = authorization {
        if let Some(t) = strip_prefix(h, "Bearer ") {
            if starts_with(t.as_str(), TOKEN_PREFIX) {
                return Ok(sha256_b64(t.as_str()));
            }
        }
    }
    Err(refuse(401, "CLI_AUTH_REQUIRED", "CLI personal access token required"))
}

/// Takes the row of the token that a request brings; without an active one in
/// time the request is refused.
pub fn resolve_cli_caller(row: Option<CliCaller>) -> (r: Result<CliCaller, Refusal>)
    ensures
        match row {
            Some(c) => r == Ok::<CliCaller, Refusal>(c),
            None => r is Err && r->Err_0@ == refusal(
                401,
                "CLI_AUTH_REQUIRED"@,
                "CLI personal access token required or expired"@,
            ),
        },
{
    match row {
        Some(c) => Ok(c),
        None => Err(
            refuse(401, "CLI_AUTH_REQUIRED", "CLI personal access token required or expired"),
        ),
    }
}

/// The one console that a server has.
#[derive(Debug)]
pub struct Console {
    pub id: &'static str,
    pub name: String,
    pub host: String,
}

/// The name of a console: the host in its address, `default` where there is none.
pub open spec fn console_name(public_url: Seq<char>) -> Seq<char> {
    let rest = match after_part(public_url, "://"@) {
        Some(t) => before_part(t, "://"@),
        None => public_url,
    };
    let host = before_char(rest, '/');
    if host.len() == 0 {
        "default"@
    } else {
        host
    }
}

/// What the client learns of itself: the administrator, the console and where
/// the tenants are listed.
#[derive(Debug)]
pub struct WhoamiResponse {
    pub admin_id: i64,
    pub admin_email: Option<String>,
    pub console: Console,
    pub tenants_endpoint: &'static str,
}

/// Tells the client who it is.
pub fn cli_whoami(caller: &CliCaller, public_url: &str) -> (r: WhoamiResponse)
    ensures
        r.admin_id == caller.admin_id,
        opt_view(r.admin_email) == opt_view(caller.email),
        r.console.id@ == "default"@,
        r.console.name@ == console_name(public_url@),
        r.console.host@ == public_url@,
        r.tenants_endpoint@ == "/admin/api/cmdk/tenants"@,
{
    proof {
        reveal_strlit("://");
    }
    let (_, tail) = cut(public_url, "://");
    let rest: String = match tail {
        Some(t) => cut(t.as_str(), "://").0,
        None => public_url.to_owned(),
    };
    let host: String = head_before(rest.as_str(), '/');
    let name: String = if host.as_str().is_empty() { "default".to_owned() } else { host };
    WhoamiResponse {
        admin_id: caller.admin_id,
        admin_email: opt_copy(&caller.email),
        console: Console { id: "default", name, host: public_url.to_owned() },
        tenants_endpoint: "/admin/api/cmdk/tenants",
    }
}

/// The life of a token of the client: what the environment says where that is
/// a positive number, else a day.
pub open spec fn cli_ttl(env: Option<Seq<char>>) -> int {
    match env {
        Some(v) => match signed_of(v) {
            Some(n) => if n > 0 {
                n
            } else {
                86400
            },
            None => 86400,
        },
        None => 86400,
    }
}

/// Reads the life of a token of the client from a setting, in seconds.
pub fn cli_pat_ttl_secs(env: Option<&str>) -> (r: i64)
    ensures
        r == cli_ttl(
            match env {
                Some(v) => Some(v@),
                None => None,
            },
        ),
        r > 0,
{
    match env {
        Some(v) => match parse_signed(v) {
            Some(n) => if n > 0 {
                n
            } else {
                86400
            },
            None => 86400,
        },
        None => 86400,
    }
}

/// The changes of a refresh, made in one transaction: the old token is
/// revoked first, and a new one stored only if that revoked exactly one.
#[derive(Debug)]
pub struct RefreshPlan {
    pub revoke: PatCommand,
    pub insert: PatCommand,
}

/// Plans the refresh of a token of the client; the token of the console is refused.
pub fn cli_token_refresh(caller: &CliCaller, plaintext: &str, ttl_secs: i64) -> (r: Result<
    RefreshPlan,
    Refusal,
>)
    ensures
        match caller.label {
            None => r is Err && r->Err_0@ == refusal(
                403,
                "NOT_A_CLI_TOKEN"@,
                "only labeled CLI tokens can be refreshed; reroll the UI token at /admin/settings"@,
            ),
            Some(label) => {
                &&& r matches Ok(p)
                &&& p.revoke@ == (PatCommandView::RevokeActive { id: caller.token_id as int })
                &&& p.insert@ == (PatCommandView::Insert {
                    admin_id: caller.admin_id as int,
                    hash: token_hash(plaintext@),
                    plaintext: plaintext@,
                    label: Some(label@),
                    ttl_secs: Some(ttl_secs as int),
                })
            },
        },
{
    match &caller.label {
        None => Err(
            refuse(
                403,
                "NOT_A_CLI_TOKEN",
                "only labeled CLI tokens can be refreshed; reroll the UI token at /admin/settings",
            ),
        ),
        Some(label) => Ok(
            RefreshPlan {
                revoke: PatCommand::RevokeActive { id: caller.token_id },
                insert: PatCommand::Insert {
                    admin_id: caller.admin_id,
                    hash: sha256_b64(plaintext),
                    plaintext: plaintext.to_owned(),
                    label: Some(label.clone()),
                    ttl_secs: Some(ttl_secs),
                },
            },
        ),
    }
}

/// Decides whether a refresh goes on after its old token was revoked. A
/// second refresh of the same token revokes nothing and stores nothing.
pub fn after_refresh_revoke(revoked: usize) -> (r: Result<(), Refusal>)
    ensures
        if revoked == 1 {
            r is Ok
        } else {
            r is Err && r->Err_0@ == refusal(
                409,
                "CLI_TOKEN_ALREADY_ROTATED"@,
                "this CLI token was already rotated or revoked; log in again"@,
            )
        },
{
    if revoked == 1 {
        Ok(())
    } else {
        Err(
            refuse(
                409,
                "CLI_TOKEN_ALREADY_ROTATED",
                "this CLI token was already rotated or revoked; log in again",
            ),
        )
    }
}

/// A token is refreshed once: after its refresh, no refresh revokes it again.
pub proof fn law_refresh_happens_once(table: Map<int, PatView>, id: int, fresh: int)
    requires
        table.contains_key(id),
    ensures
        ({
            let c = PatCommandView::RevokeActive { id };
            let after = pat_apply(table, c, fresh);
            &&& after.contains_key(id)
            &&& after[id].revoked
            &&& !revokes(c, id, after[id])
        }),
{
}

/// The answer to a logout, and what follows it where a token was revoked.
#[derive(Debug)]
pub struct Logout {
    pub revoked: bool,
    pub steps: Vec<RevokeStep>,
    pub note: Option<AuditNote>,
}

/// Answers a logout that revoked `n` tokens.
pub fn cli_token_logout(caller: &CliCaller, n: usize, reach: &PatReach) -> (r: Logout)
    ensures
        r.revoked == (n > 0),
        n > 0 ==> step_views(r.steps@) == revocation(caller.admin_id as int, reach@),
        n > 0 ==> (r.note matches Some(note) && note@ == token_note(
            "admin.token.revoke"@,
            caller.admin_id as int,
        )),
        n == 0 ==> r.steps@.len() == 0 && r.note is None,
        clears_first(step_views(r.steps@)),
{
    if n > 0 {
        Logout {
            revoked: true,
            steps: revocation_steps(caller.admin_id, reach),
            note: Some(emit_audit_revoke(caller.admin_id)),
        }
    } else {
        Logout { revoked: false, steps: Vec::new(), note: None }
    }
}

/// The change of a logout or of a revocation in the settings: a token of the
/// client that belongs to the administrator.
pub fn labeled_revocation(token_id: i64, admin_id: i64) -> (r: PatCommand)
    ensures
        r@ == (PatCommandView::RevokeLabeled { id: token_id as int, admin_id: admin_id as int }),
{
    PatCommand::RevokeLabeled { id: token_id, admin_id }
}

/// What a logout or a revocation in the settings can reach: no token of
/// somebody else, and never the token of the console.
pub proof fn law_labeled_revocation_is_fenced(
    table: Map<int, PatView>,
    token_id: int,
    admin_id: int,
    fresh: int,
    other: int,
)
    requires
        table.contains_key(other),
        other != token_id || table[other].admin_id != admin_id || table[other].label is None,
    ensures
        pat_apply(table, PatCommandView::RevokeLabeled { id: token_id, admin_id }, fresh)[other]
            == table[other],
{
}

/// The answer to a revocation in the settings, and what follows it.
#[derive(Debug)]
pub struct RevokeReply {
    pub steps: Vec<RevokeStep>,
    pub note: AuditNote,
    pub location: String,
}

/// Answers a revocation in the settings that changed `changed` rows.
pub fn cli_token_revoke(caller_id: i64, changed: usize, reach: &PatReach, base: &str) -> (r: Result<
    RevokeReply,
    Refusal,
>)
    ensures
        if changed == 0 {
            r is Err && r->Err_0@ == refusal(
                404,
                "CLI_TOKEN_NOT_FOUND"@,
                "no active CLI token with that id for this admin"@,
            )
        } else {
            &&& r matches Ok(v)
            &&& step_views(v.steps@) == revocation(caller_id as int, reach@)
            &&& clears_first(step_views(v.steps@))
            &&& v.note@ == token_note("admin.token.revoke"@, caller_id as int)
            &&& v.location@ == base@ + "/admin/settings"@
        },
{
    if changed == 0 {
        return Err(
            refuse(404, "CLI_TOKEN_NOT_FOUND", "no active CLI token with that id for this admin"),
        );
    }
    Ok(
        RevokeReply {
            steps: revocation_steps(caller_id, reach),
            note: emit_audit_revoke(caller_id),
            location: concat2(base, "/admin/settings"),
        },
    )
}

/// A request is known by the token behind `Bearer `, where that is a personal access
/// token; any other header brings none.
pub proof fn law_bearer_is_the_token(rest: Seq<char>, other: Seq<char>)
    ensures
        bearer_of(Some("Bearer "@ + (TOKEN_PREFIX@ + rest))) == Some(TOKEN_PREFIX@ + rest),
        !has_prefix(other, TOKEN_PREFIX@) ==> bearer_of(Some("Bearer "@ + other)) is None,
        !has_prefix(other, "Bearer "@) ==> bearer_of(Some(other)) is None,
        bearer_of(None) is None,
{
    let b = "Bearer "@;
    let t = TOKEN_PREFIX@ + rest;
    assert((b + t).subrange(0, b.len() as int) =~= b);
    assert((b + t).skip(b.len() as int) =~= t);
    assert(t.subrange(0, TOKEN_PREFIX@.len() as int) =~= TOKEN_PREFIX@);
    assert((b + other).subrange(0, b.len() as int) =~= b);
    assert((b + other).skip(b.len() as int) =~= other);
}

/// The life of a token of the client is the number that is set, where it is one and
/// positive, and a day else.
pub proof fn law_client_tokens_live_as_set(n: nat)
    requires
        0 < n <= 0x7fff_ffff_ffff_ffff,
    ensures
        cli_ttl(Some(dec(n))) == n,
        cli_ttl(Some(dec(0))) == 24 * 60 * 60,
        cli_ttl(Some(Seq::<char>::empty())) == 24 * 60 * 60,
        cli_ttl(None) == 24 * 60 * 60,
{
    law_dec_is_read_back(n, 0x7fff_ffff_ffff_ffff);
    law_dec_is_read_back(0, 0x7fff_ffff_ffff_ffff);
    lemma_dec_digits(n);
    lemma_dec_digits(0);
    assert(ascii_digit(dec(n)[0]) && ascii_digit(dec(0)[0]));
}

/// The note about a token names who it belongs to and what was done.
pub proof fn law_tokens_are_noted(op: Seq<char>, admin_id: int)
    ensures
        token_note(op, admin_id).op == op,
        token_note(op, admin_id).actor == Some((admin_id, None::<Seq<char>>)),
        token_note(op, admin_id).failure is None,
{
}

/// A console is named after the host in its address.
pub proof fn law_consoles_are_named_after_their_host(
    scheme: Seq<char>,
    host: Seq<char>,
    rest: Seq<char>,
)
    requires
        !scheme.contains(':'),
        !host.contains('/'),
        host.len() > 0,
        host.last() != ':',
    ensures
        console_name(scheme + "://"@ + (host + "/"@ + rest)) == host,
        console_name(scheme + "://"@ + host) == host,
{
    reveal_strlit("://");
    reveal_strlit("/");
    let p = "://"@;
    let tail1 = host + "/"@ + rest;
    assert(tail1.take(host.len() as int) =~= host);
    assert(host.take(host.len() as int) =~= host);
    lemma_console_tail(host, tail1);
    lemma_console_tail(host, host);
    assert forall|i: int| 0 <= i < scheme.len() implies !stands_at(scheme + p + tail1, p, i) by {
        let s = scheme + p + tail1;
        if stands_at(s, p, i) {
            assert(s.subrange(i, i + 3)[0] == s[i]);
            assert(scheme.contains(scheme[i]));
        }
    }
    law_texts_are_cut_at_the_part(scheme, p, tail1);
    assert forall|i: int| 0 <= i < scheme.len() implies !stands_at(scheme + p + host, p, i) by {
        let s = scheme + p + host;
        if stands_at(s, p, i) {
            assert(s.subrange(i, i + 3)[0] == s[i]);
            assert(scheme.contains(scheme[i]));
        }
    }
    law_texts_are_cut_at_the_part(scheme, p, host);
}

proof fn lemma_console_tail(host: Seq<char>, tail: Seq<char>)
    requires
        !host.contains('/'),
        host.len() > 0,
        host.last() != ':',
        tail.len() >= host.len(),
        tail.take(host.len() as int) == host,
        tail.len() == host.len() || tail[host.len() as int] == '/',
    ensures
        before_char(before_part(tail, "://"@), '/') == host,
{
    reveal_strlit("://");
    let p = "://"@;
    let n = host.len() as int;
    assert forall|i: int| 0 <= i < n implies tail[i] == host[i] && host[i] != '/' by {
        assert(tail.take(n)[i] == tail[i]);
        assert(host.contains(host[i]));
    }
    assert forall|i: int| 0 <= i < n implies !stands_at(tail, p, i) by {
        if stands_at(tail, p, i) {
            assert(tail.subrange(i, i + 3)[0] == tail[i]);
            assert(tail.subrange(i, i + 3)[1] == tail[i + 1]);
        }
    }
    lemma_part_is_not_before(tail, p, n);
    let f = find_part(tail, p) as int;
    let b = before_part(tail, p);
    assert forall|j: int| 0 <= j < n implies b[j] != '/' by {
        assert(b[j] == tail[j]);
    }
    if f > n {
        assert(b[n] == tail[n]);
    }
    lemma_find_char_is(b, '/', n);
    assert(b.take(n) =~= host);
}

} // verus!
