//! The team: who is invited, changed and removed, and by whom.
//!
//! Owners manage everybody. Admins manage members only. Members manage
//! nobody. Whatever is changed, at least one owner remains.

use vstd::prelude::*;
use crate::admin_pat::{pat_apply, PatCommand, PatCommandView, PatView};
use crate::audit_note::{
    by_actor, done, field_views, note_by, note_done, number_field, opt_field, text_field, AuditNote,
    Field, FieldView, NoteView,
};
use crate::oauth_server::storage::{sha256_b64, token_hash};
use crate::pat_evict::{
    clears_first, revocation, revocation_steps, sees_all, sees_all_tenants, step_views, PatReach,
    ReachView, RevokeStep, StepView,
};
use crate::reply::{internal_error, refusal, refuse, Refusal, RefusalView};
use crate::text::{
    ascii_alnum, before_char, byte_count, byte_len, concat2, contains, copy_or, dec, dec_of,
    from_chars, has_part, has_prefix, head_before, holds, is_alnum, is_white, law_dec_is_read_back,
    lemma_dec_digits, lemma_dec_injective, lemma_find_char_is, lemma_split_behind,
    lemma_split_none, lowercase, lowered, opt_view, parse_unsigned, split, split_on, str_eq,
    to_chars, trim, trimmed, unsigned_of, view_or, views, white,
};

verus! {

#[derive(Debug)]
pub struct AdminRow {
    pub id: i64,
    pub email: Option<String>,
    pub display_name: Option<String>,
    pub role: String,
    pub created_at: String,
}

#[derive(Debug)]
pub struct InviteBody {
    pub email: String,
    pub role: Option<String>,
}

#[derive(Debug)]
pub struct RoleBody {
    pub role: String,
}

#[derive(Debug)]
pub struct BatchInviteBody {
    pub emails: Vec<String>,
    pub role: Option<String>,
}

/// What stands in the place of a password for somebody who signs in elsewhere.
pub const OAUTH_ONLY_SENTINEL: &'static str = "$oauth-only$";

// ---------------------------------------------------------------------------
// Roles
// ---------------------------------------------------------------------------

/// A role that exists.
pub open spec fn valid_role(r: Seq<char>) -> bool {
    r == "owner"@ || r == "admin"@ || r == "member"@
}

/// A role that only an owner may give or take.
pub open spec fn privileged(r: Seq<char>) -> bool {
    r == "owner"@ || r == "admin"@
}

/// A role that manages members.
pub open spec fn manages_members(r: Seq<char>) -> bool {
    r == "owner"@ || r == "admin"@
}

pub fn is_valid_role(r: &str) -> (b: bool)
    ensures
        b == valid_role(r@),
{
    str_eq(r, "owner") || str_eq(r, "admin") || str_eq(r, "member")
}

fn is_privileged(r: &str) -> (b: bool)
    ensures
        b == privileged(r@),
{
    str_eq(r, "owner") || str_eq(r, "admin")
}

/// The refusal of somebody who manages nobody.
pub open spec fn not_a_manager() -> RefusalView {
    refusal(403, "NOT_A_MANAGER"@, "owner or admin role required"@)
}

/// Refuses a caller who is no owner.
pub fn owner_guard(caller_role: &str) -> (r: Result<(), Refusal>)
    ensures
        match r {
            Ok(_) => caller_role@ == "owner"@,
            Err(e) => caller_role@ != "owner"@ && e@ == refusal(
                403,
                "NOT_OWNER"@,
                "owner role required"@,
            ),
        },
{
    if str_eq(caller_role, "owner") {
        Ok(())
    } else {
        Err(refuse(403, "NOT_OWNER", "owner role required"))
    }
}

/// Refuses a caller who manages nobody.
pub fn require_manage_members(caller_role: &str) -> (r: Result<(), Refusal>)
    ensures
        match r {
            Ok(_) => manages_members(caller_role@),
            Err(e) => !manages_members(caller_role@) && e@ == not_a_manager(),
        },
{
    if is_privileged(caller_role) {
        Ok(())
    } else {
        Err(refuse(403, "NOT_A_MANAGER", "owner or admin role required"))
    }
}

/// Refuses the team page to a caller who manages nobody.
pub fn team_page_or_json(caller_role: &str) -> (r: Result<(), Refusal>)
    ensures
        match r {
            Ok(_) => manages_members(caller_role@),
            Err(e) => !manages_members(caller_role@) && e@ == refusal(
                403,
                "TEAM_REQUIRES_MANAGEMENT"@,
                "the team page requires the owner or admin role"@,
            ),
        },
{
    if is_privileged(caller_role) {
        Ok(())
    } else {
        Err(
            refuse(
                403,
                "TEAM_REQUIRES_MANAGEMENT",
                "the team page requires the owner or admin role",
            ),
        )
    }
}

// ---------------------------------------------------------------------------
// Addresses
// ---------------------------------------------------------------------------

/// A character that no address has.
pub open spec fn never_in_email(c: char) -> bool {
    white(c) || c == '<' || c == '>' || c == ',' || c == ';' || c == '"'
}

/// A domain with something on both sides of its last dot.
pub open spec fn dotted(domain: Seq<char>) -> bool {
    exists|i: int|
        0 < i < domain.len() - 1 && #[trigger] domain[i] == '.' && forall|j: int|
            i < j < domain.len() ==> domain[j] != '.'
}

/// An address that may be invited.
pub open spec fn email_ok(s: Seq<char>) -> bool {
    &&& 0 < s.len()
    &&& byte_len(s) <= 254
    &&& forall|i: int| 0 <= i < s.len() ==> !never_in_email(#[trigger] s[i])
    &&& split_on(s, '@').len() == 2
    &&& split_on(s, '@')[0].len() > 0
    &&& split_on(s, '@')[1].len() > 0
    &&& dotted(split_on(s, '@')[1])
}

fn is_dotted(domain: &str) -> (r: bool)
    ensures
        r == dotted(domain@),
{
    let d: Vec<char> = to_chars(domain);
    let mut i: usize = d.len();
    while i > 0
        invariant
            i <= d@.len(),
            d@ == domain@,
            forall|j: int| i <= j < d@.len() ==> d@[j] != '.',
        decreases i,
    {
        if d[i - 1] == '.' {
            let k: usize = i - 1;
            assert(d@[k as int] == '.');
            assert(forall|j: int| k < j < d@.len() ==> d@[j] != '.');
            return 0 < k && k + 1 < d.len();
        }
        i = i - 1;
    }
    false
}

/// Whether an address may be invited. The shapes that a pasted address book
/// brings along, display names, brackets and several addresses, are refused.
pub fn validate_email(email: &str) -> (r: bool)
    ensures
        r == email_ok(email@),
{
    if email.is_empty() || byte_count(email) > 254 {
        return false;
    }
    let a: Vec<char> = to_chars(email);
    let mut i: usize = 0;
    while i < a.len()
        invariant
            i <= a@.len(),
            a@ == email@,
            forall|k: int| 0 <= k < i ==> !never_in_email(#[trigger] a@[k]),
        decreases a@.len() - i,
    {
        let c: char = a[i];
        if is_white(c) || c == '<' || c == '>' || c == ',' || c == ';' || c == '"' {
            assert(never_in_email(email@[i as int]));
            return false;
        }
        i = i + 1;
    }
    let parts: Vec<String> = split(email, '@');
    let ghost p = views(parts@);
    if parts.len() != 2 {
        return false;
    }
    assert(p[0] == parts@[0]@ && p[1] == parts@[1]@);
    !parts[0].as_str().is_empty() && !parts[1].as_str().is_empty() && is_dotted(parts[1].as_str())
}

/// An address as it is stored: without white space around it, in lower case.
pub open spec fn normal_email(raw: Seq<char>) -> Seq<char> {
    lowered(trimmed(raw))
}

fn normalize_email(raw: &str) -> (r: String)
    ensures
        r@ == normal_email(raw@),
{
    let t: String = trim(raw);
    lowercase(t.as_str())
}

// ---------------------------------------------------------------------------
// User names
// ---------------------------------------------------------------------------

/// The user name that an address suggests.
pub open spec fn username_base(email: Seq<char>) -> Seq<char> {
    before_char(email, '@').map_values(
        |c: char|
            if ascii_alnum(c) {
                c
            } else {
                '_'
            },
    )
}

/// The name to try after `k` that were taken.
pub open spec fn username_candidate(base: Seq<char>, k: nat) -> Seq<char> {
    if k == 0 {
        base
    } else {
        base + dec(k + 1)
    }
}

fn base_of(email: &str) -> (r: String)
    ensures
        r@ == username_base(email@),
{
    let local: String = head_before(email, '@');
    let a: Vec<char> = to_chars(local.as_str());
    let mut r: Vec<char> = Vec::new();
    let mut i: usize = 0;
    while i < a.len()
        invariant
            i <= a@.len(),
            r@.len() == i,
            forall|k: int|
                0 <= k < i ==> #[trigger] r@[k] == (if ascii_alnum(a@[k]) {
                    a@[k]
                } else {
                    '_'
                }),
        decreases a@.len() - i,
    {
        if is_alnum(a[i]) {
            r.push(a[i]);
        } else {
            r.push('_');
        }
        i = i + 1;
    }
    let s: String = from_chars(&r);
    assert(s@ =~= username_base(email@));
    s
}

proof fn lemma_candidates_differ(base: Seq<char>, j: nat, k: nat)
    requires
        j < k,
    ensures
        username_candidate(base, j) != username_candidate(base, k),
{
    lemma_dec_digits(k + 1);
    if j == 0 {
        assert(username_candidate(base, k).len() > base.len());
    } else {
        let a = username_candidate(base, j);
        let b = username_candidate(base, k);
        if a == b {
            assert(a.skip(base.len() as int) =~= dec(j + 1));
            assert(b.skip(base.len() as int) =~= dec(k + 1));
            lemma_dec_injective(j + 1, k + 1);
        }
    }
}

/// The first name in the row of candidates that is not taken.
pub open spec fn first_free(base: Seq<char>, taken: Seq<Seq<char>>, name: Seq<char>) -> bool {
    exists|k: nat|
        #![trigger username_candidate(base, k)]
        name == username_candidate(base, k) && !taken.contains(name) && forall|j: nat|
            #![trigger username_candidate(base, j)]
            j < k ==> taken.contains(username_candidate(base, j))
}

/// Picks a user name for an address: the part before the `@`, with a number
/// from 2 on behind it where that is taken.
pub fn choose_username(email: &str, taken: &Vec<String>) -> (r: String)
    requires
        taken@.len() < 0xffff_fff0,
    ensures
        first_free(username_base(email@), views(taken@), r@),
{
    let base: String = base_of(email);
    let ghost all = views(taken@);
    let ghost mut tried: Seq<Seq<char>> = Seq::empty();
    let mut k: u64 = 0;
    let mut name: String = base.clone();
    while holds(taken, name.as_str())
        invariant
            base@ == username_base(email@),
            all == views(taken@),
            all.len() == taken@.len(),
            taken@.len() < 0xffff_fff0,
            name@ == username_candidate(base@, k as nat),
            tried.len() == k,
            tried.no_duplicates(),
            forall|j: int|
                0 <= j < k ==> #[trigger] tried[j] == username_candidate(base@, j as nat)
                    && all.contains(tried[j]),
            k <= all.len(),
        decreases all.len() - k,
    {
        proof {
            let next = tried.push(name@);
            assert forall|i: int, j: int| 0 <= i < next.len() && 0 <= j < next.len() && i
                != j implies next[i] != next[j] by {
                if i < j {
                    lemma_candidates_differ(base@, i as nat, j as nat);
                } else {
                    lemma_candidates_differ(base@, j as nat, i as nat);
                }
                assert(next[i] == username_candidate(base@, i as nat));
                assert(next[j] == username_candidate(base@, j as nat));
            }
            assert(next.no_duplicates());
            lemma_within(next, all);
            tried = next;
        }
        k = k + 1;
        let number: String = dec_of(k + 1);
        name = concat2(base.as_str(), number.as_str());
    }
    proof {
        assert(name@ == username_candidate(base@, k as nat));
        assert forall|j: nat|
            #![trigger username_candidate(base@, j)]
            j < k implies all.contains(username_candidate(base@, j)) by {
            assert(tried[j as int] == username_candidate(base@, j));
        }
    }
    name
}

/// Distinct items that all stand in a list are no more than the list is long.
proof fn lemma_within(items: Seq<Seq<char>>, list: Seq<Seq<char>>)
    requires
        items.no_duplicates(),
        forall|i: int| 0 <= i < items.len() ==> list.contains(#[trigger] items[i]),
    ensures
        items.len() <= list.len(),
{
    let a = items.to_set();
    let b = list.to_set();
    items.unique_seq_to_set();
    list.lemma_cardinality_of_set();
    assert forall|x: Seq<char>| a.contains(x) implies b.contains(x) by {
        let i = choose|i: int| 0 <= i < items.len() && items[i] == x;
        assert(list.contains(items[i]));
    }
    vstd::set_lib::lemma_len_subset(a, b);
}

// ---------------------------------------------------------------------------
// One invitation
// ---------------------------------------------------------------------------

/// Why an address was not invited.
#[derive(Debug, Clone, Copy, PartialEq, Eq, Structural)]
pub enum SkipReason {
    Invalid,
    Exists,
}

impl SkipReason {
    pub open spec fn text(self) -> Seq<char> {
        match self {
            SkipReason::Invalid => "invalid"@,
            SkipReason::Exists => "exists"@,
        }
    }

    pub fn as_str(self) -> (r: &'static str)
        ensures
            r@ == self.text(),
    {
        match self {
            SkipReason::Invalid => "invalid",
            SkipReason::Exists => "exists",
        }
    }
}

/// Why a line of a batch invited nobody.
#[derive(Debug, Clone, Copy, PartialEq, Eq, Structural)]
pub enum BatchSkip {
    Invalid,
    Exists,
    /// The address stands on an earlier line of the batch.
    Duplicate,
}

impl BatchSkip {
    pub open spec fn text(self) -> Seq<char> {
        match self {
            BatchSkip::Invalid => "invalid"@,
            BatchSkip::Exists => "exists"@,
            BatchSkip::Duplicate => "duplicate"@,
        }
    }

    pub fn as_str(self) -> (r: &'static str)
        ensures
            r@ == self.text(),
    {
        match self {
            BatchSkip::Invalid => "invalid",
            BatchSkip::Exists => "exists",
            BatchSkip::Duplicate => "duplicate",
        }
    }
}

/// What became of the invitation of one address.
#[derive(Debug, Clone, Copy, PartialEq, Eq, Structural)]
pub enum InviteOutcome {
    Created { id: i64 },
    Skipped { reason: SkipReason },
}

/// An administrator to be stored.
#[derive(Debug)]
pub struct NewAdmin {
    pub username: String,
    pub password_hash: &'static str,
    pub email: String,
    pub role: String,
}

/// Prepares the row of a new administrator, given whether the address is in
/// use and which user names are taken. The address is trimmed and in lower
/// case, and the role exists.
pub fn insert_one_admin(email: &str, role: &str, email_in_use: bool, taken: &Vec<String>) -> (r: Result<
    NewAdmin,
    SkipReason,
>)
    requires
        taken@.len() < 0xffff_fff0,
    ensures
        if !email_ok(email@) {
            r == Err::<NewAdmin, SkipReason>(SkipReason::Invalid)
        } else if email_in_use {
            r == Err::<NewAdmin, SkipReason>(SkipReason::Exists)
        } else {
            &&& r matches Ok(a)
            &&& first_free(username_base(email@), views(taken@), a.username@)
            &&& a.password_hash@ == "$oauth-only$"@
            &&& a.email@ == email@
            &&& a.role@ == role@
        },
{
    if !validate_email(email) {
        return Err(SkipReason::Invalid);
    }
    if email_in_use {
        return Err(SkipReason::Exists);
    }
    Ok(
        NewAdmin {
            username: choose_username(email, taken),
            password_hash: OAUTH_ONLY_SENTINEL,
            email: email.to_owned(),
            role: role.to_owned(),
        },
    )
}

/// Reads the result of storing an administrator: the id, or the words of the
/// failure. Losing a race for a unique value is no failure, the address is
/// then in use.
pub fn after_insert(result: Result<i64, String>) -> (r: Result<InviteOutcome, String>)
    ensures
        match result {
            Ok(id) => r == Ok::<InviteOutcome, String>(InviteOutcome::Created { id }),
            Err(m) => if has_part(m@, "UNIQUE"@) {
                r == Ok::<InviteOutcome, String>(
                    InviteOutcome::Skipped { reason: SkipReason::Exists },
                )
            } else {
                r == Err::<InviteOutcome, String>(m)
            },
        },
{
    match result {
        Ok(id) => Ok(InviteOutcome::Created { id }),
        Err(m) => if contains(m.as_str(), "UNIQUE") {
            Ok(InviteOutcome::Skipped { reason: SkipReason::Exists })
        } else {
            Err(m)
        },
    }
}

/// The token that a new administrator starts with.
pub open spec fn first_token_command(admin_id: int, plaintext: Seq<char>) -> PatCommandView {
    PatCommandView::Insert {
        admin_id,
        hash: token_hash(plaintext),
        plaintext,
        label: None,
        ttl_secs: None,
    }
}

/// Stores the drawn token that a new administrator starts with, in the
/// transaction that stores the administrator.
pub fn first_token(admin_id: i64, plaintext: &str) -> (r: PatCommand)
    ensures
        r@ == first_token_command(admin_id as int, plaintext@),
{
    PatCommand::Insert {
        admin_id,
        hash: sha256_b64(plaintext),
        plaintext: plaintext.to_owned(),
        label: None,
        ttl_secs: None,
    }
}

/// A new administrator holds the token that was drawn for them, it is active, and
/// nobody else's token changes.
pub proof fn law_new_admin_holds_a_token(
    table: Map<int, PatView>,
    admin_id: int,
    plaintext: Seq<char>,
    fresh: int,
)
    requires
        !table.contains_key(fresh),
    ensures
        ({
            let after = pat_apply(table, first_token_command(admin_id, plaintext), fresh);
            &&& after.contains_key(fresh)
            &&& after[fresh].admin_id == admin_id
            &&& after[fresh].hash == token_hash(plaintext)
            &&& !after[fresh].revoked
            &&& forall|id: int| #[trigger]
                table.contains_key(id) ==> after.contains_key(id) && after[id] == table[id]
        }),
{
}

/// Why a caller may not invite somebody with that role, if they may not.
pub open spec fn invite_refusal(caller_role: Seq<char>, role: Seq<char>) -> Option<RefusalView> {
    if !manages_members(caller_role) {
        Some(not_a_manager())
    } else if !valid_role(role) {
        Some(refusal(400, "INVALID_ROLE"@, "role must be 'owner', 'admin' or 'member'"@))
    } else if privileged(role) && caller_role != "owner"@ {
        Some(
            refusal(
                403,
                "PRIVILEGED_ROLE_REQUIRED"@,
                "only an owner may invite an owner or admin"@,
            ),
        )
    } else {
        None
    }
}

fn check_invite(caller_role: &str, role: &str) -> (r: Option<Refusal>)
    ensures
        (match r {
            Some(e) => Some(e@),
            None => None,
        }) == invite_refusal(caller_role@, role@),
{
    if let Err(e) = require_manage_members(caller_role) {
        return Some(e);
    }
    if !is_valid_role(role) {
        return Some(refuse(400, "INVALID_ROLE", "role must be 'owner', 'admin' or 'member'"));
    }
    if is_privileged(role) && !str_eq(caller_role, "owner") {
        return Some(
            refuse(
                403,
                "PRIVILEGED_ROLE_REQUIRED",
                "only an owner may invite an owner or admin",
            ),
        );
    }
    None
}

/// An invitation that may go ahead.
#[derive(Debug)]
pub struct Invite {
    pub email: String,
    pub role: String,
}

/// Checks an invitation.
pub fn invite_admin(caller_role: &str, body: &InviteBody) -> (r: Result<Invite, Refusal>)
    ensures
        match invite_refusal(caller_role@, view_or(body.role, "member"@)) {
            Some(e) => r is Err && r->Err_0@ == e,
            None => if !email_ok(normal_email(body.email@)) {
                r is Err && r->Err_0@ == refusal(
                    400,
                    "INVALID_EMAIL"@,
                    "email must be a valid address"@,
                )
            } else {
                r matches Ok(i) && i.email@ == normal_email(body.email@) && i.role@ == view_or(
                    body.role,
                    "member"@,
                )
            },
        },
{
    let role: String = copy_or(&body.role, "member");
    if let Some(e) = check_invite(caller_role, role.as_str()) {
        return Err(e);
    }
    let email: String = normalize_email(body.email.as_str());
    if !validate_email(email.as_str()) {
        return Err(refuse(400, "INVALID_EMAIL", "email must be a valid address"));
    }
    Ok(Invite { email, role })
}

/// Who is at work.
#[derive(Debug)]
pub struct Caller {
    pub id: i64,
    pub email: Option<String>,
}

/// The note about somebody who was invited.
pub open spec fn invite_note(caller: Caller, id: int, email: Seq<char>, role: Seq<char>) -> NoteView {
    by_actor(
        done(
            "admin.team.invite"@,
            seq![
                ("invited_admin_id"@, FieldView::Number(id)),
                ("invited_email"@, FieldView::Text(email)),
                ("role"@, FieldView::Text(role)),
            ],
        ),
        caller.id as int,
        opt_view(caller.email),
    )
}

fn note_invite(caller: &Caller, id: i64, email: &str, role: &str) -> (r: AuditNote)
    ensures
        r@ == invite_note(*caller, id as int, email@, role@),
{
    let mut extra: Vec<(String, Field)> = Vec::new();
    extra.push(number_field("invited_admin_id", id));
    extra.push(text_field("invited_email", email));
    extra.push(text_field("role", role));
    assert(field_views(extra@) =~= invite_note(*caller, id as int, email@, role@).extra);
    note_by(note_done("admin.team.invite", extra), caller.id, &caller.email)
}

/// The answer to an invitation, with status 201, and the note to write.
#[derive(Debug)]
pub struct Invited {
    pub id: i64,
    pub email: String,
    pub role: String,
    pub note: AuditNote,
}

/// Answers an invitation, given what became of it.
pub fn invite_reply(caller: &Caller, invite: Invite, outcome: Result<InviteOutcome, String>) -> (r: Result<
    Invited,
    Refusal,
>)
    ensures
        match outcome {
            Ok(InviteOutcome::Created { id }) => {
                &&& r matches Ok(i)
                &&& i.id == id
                &&& i.email@ == invite.email@
                &&& i.role@ == invite.role@
                &&& i.note@ == invite_note(*caller, id as int, invite.email@, invite.role@)
            },
            Ok(InviteOutcome::Skipped { reason: SkipReason::Invalid }) => r is Err && r->Err_0@
                == refusal(400, "INVALID_EMAIL"@, "email must be a valid address"@),
            Ok(InviteOutcome::Skipped { reason: SkipReason::Exists }) => r is Err && r->Err_0@
                == refusal(409, "ADMIN_EMAIL_TAKEN"@, "an admin with that email already exists"@),
            Err(m) => r is Err && r->Err_0@ == refusal(500, "INTERNAL"@, m@),
        },
{
    match outcome {
        Ok(InviteOutcome::Created { id }) => {
            let note: AuditNote = note_invite(
                caller,
                id,
                invite.email.as_str(),
                invite.role.as_str(),
            );
            Ok(Invited { id, email: invite.email, role: invite.role, note })
        },
        Ok(InviteOutcome::Skipped { reason: SkipReason::Invalid }) => {
            Err(refuse(400, "INVALID_EMAIL", "email must be a valid address"))
        },
        Ok(InviteOutcome::Skipped { reason: SkipReason::Exists }) => {
            Err(refuse(409, "ADMIN_EMAIL_TAKEN", "an admin with that email already exists"))
        },
        Err(m) => Err(internal_error(m)),
    }
}

// ---------------------------------------------------------------------------
// Many invitations
// ---------------------------------------------------------------------------

/// The addresses of a list as they are stored, without blank ones, each once,
/// in the order in which they first come.
pub open spec fn normal_list(raw: Seq<Seq<char>>) -> Seq<Seq<char>>
    decreases raw.len(),
{
    if raw.len() == 0 {
        Seq::<Seq<char>>::empty()
    } else {
        let head = normal_list(raw.drop_last());
        let e = normal_email(raw.last());
        if e.len() == 0 || head.contains(e) {
            head
        } else {
            head.push(e)
        }
    }
}

/// No address comes twice in a normalized list, and none is blank.
pub proof fn law_normal_list_is_distinct(raw: Seq<Seq<char>>)
    ensures
        normal_list(raw).no_duplicates(),
        forall|i: int| 0 <= i < normal_list(raw).len() ==> (#[trigger] normal_list(raw)[i]).len() > 0,
        forall|i: int|
            0 <= i < raw.len() && normal_email(#[trigger] raw[i]).len() > 0 ==> normal_list(
                raw,
            ).contains(normal_email(raw[i])),
    decreases raw.len(),
{
    if raw.len() > 0 {
        let init = raw.drop_last();
        law_normal_list_is_distinct(init);
        let head = normal_list(init);
        let all = normal_list(raw);
        let e = normal_email(raw.last());
        assert forall|i: int| 0 <= i < raw.len() && normal_email(#[trigger] raw[i]).len()
            > 0 implies all.contains(normal_email(raw[i])) by {
            if i < init.len() {
                assert(init[i] == raw[i]);
                assert(head.contains(normal_email(init[i])));
                let k = choose|k: int| 0 <= k < head.len() && head[k] == normal_email(raw[i]);
                assert(all[k] == head[k]);
            } else if !head.contains(e) {
                assert(all[head.len() as int] == e);
            }
        }
        if !(e.len() == 0 || head.contains(e)) {
            assert forall|i: int, j: int| 0 <= i < all.len() && 0 <= j < all.len() && i
                != j implies all[i] != all[j] by {
                if i < head.len() && j < head.len() {
                    assert(head[i] != head[j]);
                } else if i < head.len() {
                    assert(head.contains(head[i]));
                } else {
                    assert(head.contains(head[j]));
                }
            }
        }
    }
}

/// The lines of a list that repeat an address of an earlier line, as they are
/// stored, in their order.
pub open spec fn repeats(raw: Seq<Seq<char>>) -> Seq<Seq<char>>
    decreases raw.len(),
{
    if raw.len() == 0 {
        Seq::<Seq<char>>::empty()
    } else {
        let head = repeats(raw.drop_last());
        let e = normal_email(raw.last());
        if e.len() > 0 && normal_list(raw.drop_last()).contains(e) {
            head.push(e)
        } else {
            head
        }
    }
}

/// The lines of a list that hold an address, as they are stored, in their order.
pub open spec fn written(raw: Seq<Seq<char>>) -> Seq<Seq<char>>
    decreases raw.len(),
{
    if raw.len() == 0 {
        Seq::<Seq<char>>::empty()
    } else {
        let head = written(raw.drop_last());
        let e = normal_email(raw.last());
        if e.len() > 0 {
            head.push(e)
        } else {
            head
        }
    }
}

/// Every line with an address is either the first with that address or a repeat.
pub proof fn law_lines_are_first_or_repeated(raw: Seq<Seq<char>>)
    ensures
        normal_list(raw).to_multiset().add(repeats(raw).to_multiset()) == written(
            raw,
        ).to_multiset(),
        normal_list(raw).len() + repeats(raw).len() == written(raw).len(),
    decreases raw.len(),
{
    broadcast use vstd::seq_lib::group_to_multiset_ensures;

    if raw.len() > 0 {
        law_lines_are_first_or_repeated(raw.drop_last());
    }
    assert(normal_list(raw).to_multiset().add(repeats(raw).to_multiset()) =~= written(
        raw,
    ).to_multiset());
}

/// Every line that holds an address is among the written ones.
pub proof fn law_no_line_is_left_out(raw: Seq<Seq<char>>, i: int)
    requires
        0 <= i < raw.len(),
        normal_email(raw[i]).len() > 0,
    ensures
        written(raw).contains(normal_email(raw[i])),
    decreases raw.len(),
{
    let init = raw.drop_last();
    let e = normal_email(raw[i]);
    if i < init.len() {
        law_no_line_is_left_out(init, i);
        let k = choose|k: int| 0 <= k < written(init).len() && written(init)[k] == e;
        assert(written(raw)[k] == e);
    } else {
        assert(written(raw)[written(init).len() as int] == e);
    }
}

fn normalize_all(raw: &Vec<String>) -> (r: (Vec<String>, Vec<String>))
    ensures
        views(r.0@) == normal_list(views(raw@)),
        views(r.1@) == repeats(views(raw@)),
{
    let ghost all = views(raw@);
    let mut r: Vec<String> = Vec::new();
    let mut again: Vec<String> = Vec::new();
    let mut i: usize = 0;
    assert(all.take(0) =~= Seq::<Seq<char>>::empty());
    assert(views(r@) =~= Seq::<Seq<char>>::empty());
    assert(views(again@) =~= Seq::<Seq<char>>::empty());
    while i < raw.len()
        invariant
            i <= raw@.len(),
            all == views(raw@),
            views(r@) == normal_list(all.take(i as int)),
            views(again@) == repeats(all.take(i as int)),
        decreases raw@.len() - i,
    {
        let e: String = normalize_email(raw[i].as_str());
        proof {
            assert(all.take(i as int + 1).drop_last() =~= all.take(i as int));
            assert(all.take(i as int + 1).last() == raw@[i as int]@);
        }
        if !e.as_str().is_empty() {
            if holds(&r, e.as_str()) {
                let ghost before = views(again@);
                again.push(e);
                assert(views(again@) =~= before.push(normal_email(raw@[i as int]@)));
            } else {
                let ghost before = views(r@);
                r.push(e);
                assert(views(r@) =~= before.push(normal_email(raw@[i as int]@)));
            }
        }
        i = i + 1;
    }
    assert(all.take(i as int) =~= all);
    (r, again)
}

/// The largest batch: what the environment says where that is a positive
/// number, else 50.
pub open spec fn batch_limit(env: Option<Seq<char>>) -> nat {
    match env {
        Some(v) => match unsigned_of(v, usize::MAX as nat) {
            Some(n) => if n > 0 {
                n
            } else {
                50
            },
            None => 50,
        },
        None => 50,
    }
}

/// Reads the largest batch from a setting.
pub fn batch_max(env: Option<&str>) -> (r: usize)
    ensures
        r == batch_limit(
            match env {
                Some(v) => Some(v@),
                None => None,
            },
        ),
{
    match env {
        Some(v) => match parse_unsigned(v, usize::MAX as u64) {
            Some(n) => if n > 0 {
                n as usize
            } else {
                50
            },
            None => 50,
        },
        None => 50,
    }
}

/// Invitations that may go ahead, and the lines that repeat one of them.
#[derive(Debug)]
pub struct Batch {
    pub emails: Vec<String>,
    pub repeated: Vec<String>,
    pub role: String,
}

/// Checks a batch of invitations.
pub fn batch_invite_admin(caller_role: &str, body: &BatchInviteBody, max: usize) -> (r: Result<
    Batch,
    Refusal,
>)
    ensures
        match invite_refusal(caller_role@, view_or(body.role, "member"@)) {
            Some(e) => r is Err && r->Err_0@ == e,
            None => if body.emails@.len() > max {
                r is Err && r->Err_0@ == refusal(400, "TOO_MANY"@, "too many emails in one batch"@)
            } else {
                r matches Ok(b) && views(b.emails@) == normal_list(views(body.emails@)) && views(
                    b.repeated@,
                ) == repeats(views(body.emails@)) && b.role@ == view_or(body.role, "member"@)
            },
        },
{
    let role: String = copy_or(&body.role, "member");
    if let Some(e) = check_invite(caller_role, role.as_str()) {
        return Err(e);
    }
    if body.emails.len() > max {
        return Err(refuse(400, "TOO_MANY", "too many emails in one batch"));
    }
    let (emails, repeated): (Vec<String>, Vec<String>) = normalize_all(&body.emails);
    Ok(Batch { emails, repeated, role })
}

/// The answer to a batch, and the notes to write.
#[derive(Debug)]
pub struct BatchReply {
    pub status: u16,
    pub created: Vec<(i64, String)>,
    pub skipped: Vec<(String, BatchSkip)>,
    pub notes: Vec<AuditNote>,
}

/// Those of the first `k` addresses that were invited, with their ids.
pub open spec fn created_of(emails: Seq<Seq<char>>, outcomes: Seq<InviteOutcome>, k: nat) -> Seq<
    (int, Seq<char>),
>
    decreases k,
{
    if k == 0 {
        Seq::empty()
    } else {
        let i = (k - 1) as nat;
        let head = created_of(emails, outcomes, i);
        match outcomes[i as int] {
            InviteOutcome::Created { id } => head.push((id as int, emails[i as int])),
            InviteOutcome::Skipped { reason } => head,
        }
    }
}

/// The reason that a batch reports.
pub open spec fn batch_reason(reason: SkipReason) -> BatchSkip {
    match reason {
        SkipReason::Invalid => BatchSkip::Invalid,
        SkipReason::Exists => BatchSkip::Exists,
    }
}

/// Those of the first `k` addresses that were not invited, with the reason.
pub open spec fn skipped_of(emails: Seq<Seq<char>>, outcomes: Seq<InviteOutcome>, k: nat) -> Seq<
    (Seq<char>, BatchSkip),
>
    decreases k,
{
    if k == 0 {
        Seq::empty()
    } else {
        let i = (k - 1) as nat;
        let head = skipped_of(emails, outcomes, i);
        match outcomes[i as int] {
            InviteOutcome::Created { id } => head,
            InviteOutcome::Skipped { reason } => head.push(
                (emails[i as int], batch_reason(reason)),
            ),
        }
    }
}

/// Every address of a batch is answered for, as created or as skipped.
pub proof fn law_batch_answers_for_all(emails: Seq<Seq<char>>, outcomes: Seq<InviteOutcome>, k: nat)
    requires
        k <= emails.len(),
        emails.len() == outcomes.len(),
    ensures
        created_of(emails, outcomes, k).len() + skipped_of(emails, outcomes, k).len() == k,
    decreases k,
{
    if k > 0 {
        law_batch_answers_for_all(emails, outcomes, (k - 1) as nat);
    }
}

/// What a batch reports as skipped: the addresses that were not invited, then
/// the lines that repeat an address.
pub open spec fn batch_skips(
    emails: Seq<Seq<char>>,
    repeated: Seq<Seq<char>>,
    outcomes: Seq<InviteOutcome>,
) -> Seq<(Seq<char>, BatchSkip)> {
    skipped_of(emails, outcomes, outcomes.len()) + repeated.map_values(
        |e: Seq<char>| (e, BatchSkip::Duplicate),
    )
}

/// The addresses that were invited.
pub open spec fn created_emails(v: Seq<(int, Seq<char>)>) -> Seq<Seq<char>> {
    v.map_values(|c: (int, Seq<char>)| c.1)
}

/// The addresses that were skipped.
pub open spec fn skipped_emails(v: Seq<(Seq<char>, BatchSkip)>) -> Seq<Seq<char>> {
    v.map_values(|c: (Seq<char>, BatchSkip)| c.0)
}

proof fn lemma_outcomes_cover(emails: Seq<Seq<char>>, outcomes: Seq<InviteOutcome>, k: nat)
    requires
        k <= emails.len(),
        emails.len() == outcomes.len(),
    ensures
        created_emails(created_of(emails, outcomes, k)).to_multiset().add(
            skipped_emails(skipped_of(emails, outcomes, k)).to_multiset(),
        ) == emails.take(k as int).to_multiset(),
    decreases k,
{
    broadcast use vstd::seq_lib::group_to_multiset_ensures;

    let c = created_of(emails, outcomes, k);
    let s = skipped_of(emails, outcomes, k);
    if k == 0 {
        assert(created_emails(c) =~= Seq::<Seq<char>>::empty());
        assert(skipped_emails(s) =~= Seq::<Seq<char>>::empty());
        assert(emails.take(0) =~= Seq::<Seq<char>>::empty());
    } else {
        let i = (k - 1) as nat;
        lemma_outcomes_cover(emails, outcomes, i);
        let e = emails[i as int];
        assert(emails.take(k as int) =~= emails.take(i as int).push(e));
        match outcomes[i as int] {
            InviteOutcome::Created { id } => {
                assert(created_emails(c) =~= created_emails(created_of(emails, outcomes, i)).push(e));
            },
            InviteOutcome::Skipped { reason } => {
                assert(skipped_emails(s) =~= skipped_emails(skipped_of(emails, outcomes, i)).push(e));
            },
        }
    }
    assert(created_emails(c).to_multiset().add(skipped_emails(s).to_multiset()) =~= emails.take(
        k as int,
    ).to_multiset());
}

/// A batch answers for every line that holds an address, as often as it comes:
/// each is reported once, as created or as skipped.
pub proof fn law_batch_answers_for_each_line(raw: Seq<Seq<char>>, outcomes: Seq<InviteOutcome>)
    requires
        outcomes.len() == normal_list(raw).len(),
    ensures
        ({
            let emails = normal_list(raw);
            let created = created_of(emails, outcomes, outcomes.len());
            let skipped = batch_skips(emails, repeats(raw), outcomes);
            &&& created_emails(created).to_multiset().add(skipped_emails(skipped).to_multiset())
                == written(raw).to_multiset()
            &&& created.len() + skipped.len() == written(raw).len()
        }),
{
    let emails = normal_list(raw);
    let n = outcomes.len();
    let created = created_of(emails, outcomes, n);
    let first = skipped_of(emails, outcomes, n);
    let again = repeats(raw).map_values(|e: Seq<char>| (e, BatchSkip::Duplicate));
    law_lines_are_first_or_repeated(raw);
    law_batch_answers_for_all(emails, outcomes, n);
    lemma_outcomes_cover(emails, outcomes, n);
    assert(emails.take(n as int) =~= emails);
    assert(skipped_emails(first + again) =~= skipped_emails(first) + repeats(raw));
    vstd::seq_lib::lemma_multiset_commutative(skipped_emails(first), repeats(raw));
    assert(created_emails(created).to_multiset().add(skipped_emails(first + again).to_multiset())
        =~= written(raw).to_multiset());
}

/// The pairs, as mathematics has them.
pub open spec fn created_views(v: Seq<(i64, String)>) -> Seq<(int, Seq<char>)> {
    v.map_values(|c: (i64, String)| (c.0 as int, c.1@))
}

/// The pairs, as mathematics has them.
pub open spec fn skipped_views(v: Seq<(String, BatchSkip)>) -> Seq<(Seq<char>, BatchSkip)> {
    v.map_values(|c: (String, BatchSkip)| (c.0@, c.1))
}

/// The notes, as mathematics has them.
pub open spec fn note_views(v: Seq<AuditNote>) -> Seq<NoteView> {
    v.map_values(|n: AuditNote| n@)
}

/// Answers a batch, given what became of each address: status 201 where
/// somebody was invited, else 200, one note for each who was, and a line that
/// repeats an address reported as such.
pub fn batch_reply(caller: &Caller, batch: &Batch, outcomes: &Vec<InviteOutcome>) -> (r: BatchReply)
    requires
        outcomes@.len() == batch.emails@.len(),
    ensures
        created_views(r.created@) == created_of(
            views(batch.emails@),
            outcomes@,
            outcomes@.len(),
        ),
        skipped_views(r.skipped@) == batch_skips(
            views(batch.emails@),
            views(batch.repeated@),
            outcomes@,
        ),
        r.status == (if r.created@.len() == 0 {
            200u16
        } else {
            201u16
        }),
        note_views(r.notes@) == created_views(r.created@).map_values(
            |c: (int, Seq<char>)| invite_note(*caller, c.0, c.1, batch.role@),
        ),
{
    let ghost emails = views(batch.emails@);
    let ghost f = |c: (int, Seq<char>)| invite_note(*caller, c.0, c.1, batch.role@);
    let mut created: Vec<(i64, String)> = Vec::new();
    let mut skipped: Vec<(String, BatchSkip)> = Vec::new();
    let mut notes: Vec<AuditNote> = Vec::new();
    let mut i: usize = 0;
    assert(created_views(created@) =~= Seq::empty());
    assert(skipped_views(skipped@) =~= Seq::empty());
    assert(note_views(notes@) =~= created_views(created@).map_values(f));
    while i < outcomes.len()
        invariant
            i <= outcomes@.len(),
            outcomes@.len() == batch.emails@.len(),
            emails == views(batch.emails@),
            f == (|c: (int, Seq<char>)| invite_note(*caller, c.0, c.1, batch.role@)),
            created_views(created@) == created_of(emails, outcomes@, i as nat),
            skipped_views(skipped@) == skipped_of(emails, outcomes@, i as nat),
            note_views(notes@) == created_views(created@).map_values(f),
        decreases outcomes@.len() - i,
    {
        assert(emails[i as int] == batch.emails@[i as int]@);
        match outcomes[i] {
            InviteOutcome::Created { id } => {
                let ghost before = created_views(created@);
                let ghost notes_before = note_views(notes@);
                let note: AuditNote = note_invite(
                    caller,
                    id,
                    batch.emails[i].as_str(),
                    batch.role.as_str(),
                );
                created.push((id, batch.emails[i].clone()));
                notes.push(note);
                assert(created_views(created@) =~= before.push((id as int, emails[i as int])));
                assert(note_views(notes@) =~= notes_before.push(f((id as int, emails[i as int]))));
                assert(note_views(notes@) =~= created_views(created@).map_values(f));
            },
            InviteOutcome::Skipped { reason } => {
                let ghost before = skipped_views(skipped@);
                let why: BatchSkip = match reason {
                    SkipReason::Invalid => BatchSkip::Invalid,
                    SkipReason::Exists => BatchSkip::Exists,
                };
                skipped.push((batch.emails[i].clone(), why));
                assert(skipped_views(skipped@) =~= before.push((emails[i as int], why)));
            },
        }
        i = i + 1;
    }
    let ghost first = skipped_views(skipped@);
    let ghost twice = views(batch.repeated@).map_values(
        |e: Seq<char>| (e, BatchSkip::Duplicate),
    );
    let mut j: usize = 0;
    assert(first + twice.take(0) =~= first);
    while j < batch.repeated.len()
        invariant
            j <= batch.repeated@.len(),
            twice == views(batch.repeated@).map_values(
                |e: Seq<char>| (e, BatchSkip::Duplicate),
            ),
            skipped_views(skipped@) == first + twice.take(j as int),
        decreases batch.repeated@.len() - j,
    {
        let ghost before = skipped_views(skipped@);
        skipped.push((batch.repeated[j].clone(), BatchSkip::Duplicate));
        assert(skipped_views(skipped@) =~= before.push(twice[j as int]));
        assert(before.push(twice[j as int]) =~= first + twice.take(j as int + 1));
        j = j + 1;
    }
    assert(twice.take(j as int) =~= twice);
    let status: u16 = if created.len() == 0 { 200 } else { 201 };
    BatchReply { status, created, skipped, notes }
}

// ---------------------------------------------------------------------------
// Changing a role
// ---------------------------------------------------------------------------

/// What becomes of a request to change a role.
#[derive(Debug)]
pub enum RoleDecision {
    Refused(Refusal),
    /// The role is as it should be; nothing is written.
    Unchanged,
    /// The role is written.
    Update,
}

/// What becomes of a request to change a role, as mathematics has it.
pub enum RoleVerdict {
    Refused(RefusalView),
    Unchanged,
    Update,
}

impl View for RoleDecision {
    type V = RoleVerdict;

    open spec fn view(&self) -> RoleVerdict {
        match self {
            RoleDecision::Refused(e) => RoleVerdict::Refused(e@),
            RoleDecision::Unchanged => RoleVerdict::Unchanged,
            RoleDecision::Update => RoleVerdict::Update,
        }
    }
}

/// What becomes of the request of a caller to give somebody a new role, given
/// the role they have, if they exist, and whether another owner exists.
pub open spec fn role_verdict(
    caller_role: Seq<char>,
    current: Option<Seq<char>>,
    new_role: Seq<char>,
    other_owner: bool,
) -> RoleVerdict {
    if !manages_members(caller_role) {
        RoleVerdict::Refused(not_a_manager())
    } else if !valid_role(new_role) {
        RoleVerdict::Refused(
            refusal(400, "INVALID_ROLE"@, "role must be 'owner' or 'member'"@),
        )
    } else {
        match current {
            None => RoleVerdict::Refused(refusal(404, "ADMIN_NOT_FOUND"@, "admin not found"@)),
            Some(role) => if (privileged(new_role) || privileged(role)) && caller_role != "owner"@ {
                RoleVerdict::Refused(
                    refusal(
                        403,
                        "PRIVILEGED_ROLE_REQUIRED"@,
                        "only an owner may set or change owner/admin roles"@,
                    ),
                )
            } else if role == new_role {
                RoleVerdict::Unchanged
            } else if role == "owner"@ && !other_owner {
                RoleVerdict::Refused(refusal(409, "LAST_OWNER"@, "cannot demote the last owner"@))
            } else {
                RoleVerdict::Update
            },
        }
    }
}

/// Decides a request to change a role.
pub fn change_role(caller_role: &str, current: Option<&str>, body: &RoleBody, other_owner: bool) -> (r:
    RoleDecision)
    ensures
        r@ == role_verdict(
            caller_role@,
            match current {
                Some(c) => Some(c@),
                None => None,
            },
            body.role@,
            other_owner,
        ),
{
    let new_role: &str = body.role.as_str();
    if let Err(e) = require_manage_members(caller_role) {
        return RoleDecision::Refused(e);
    }
    if !is_valid_role(new_role) {
        return RoleDecision::Refused(
            refuse(400, "INVALID_ROLE", "role must be 'owner' or 'member'"),
        );
    }
    let role: &str = match current {
        Some(c) => c,
        None => {
            return RoleDecision::Refused(refuse(404, "ADMIN_NOT_FOUND", "admin not found"));
        },
    };
    if (is_privileged(new_role) || is_privileged(role)) && !str_eq(caller_role, "owner") {
        return RoleDecision::Refused(
            refuse(
                403,
                "PRIVILEGED_ROLE_REQUIRED",
                "only an owner may set or change owner/admin roles",
            ),
        );
    }
    if str_eq(role, new_role) {
        return RoleDecision::Unchanged;
    }
    if str_eq(role, "owner") && !other_owner {
        return RoleDecision::Refused(refuse(409, "LAST_OWNER", "cannot demote the last owner"));
    }
    RoleDecision::Update
}

/// What follows a change: the steps that make it take effect, in order, and
/// the note to write.
#[derive(Debug)]
pub struct Aftermath {
    pub steps: Vec<RevokeStep>,
    pub note: AuditNote,
}

/// The steps that follow a change of role. The tokens of the administrator
/// have another reach from now on, so the cache forgets them; where they no
/// longer reach every tenant, the connections of every tenant are closed.
pub open spec fn role_change_steps(target_id: int, old_role: Seq<char>, new_role: Seq<char>) -> Seq<
    StepView,
> {
    if sees_all(old_role) && !sees_all(new_role) {
        revocation(target_id, ReachView::HostWide)
    } else {
        seq![StepView::ClearPatCache(target_id)]
    }
}

/// Lists what follows a change of role that was written.
pub fn role_change_aftermath(caller: &Caller, target_id: i64, old_role: &str, new_role: &str) -> (r:
    Aftermath)
    ensures
        step_views(r.steps@) == role_change_steps(target_id as int, old_role@, new_role@),
        clears_first(step_views(r.steps@)),
        r.note@ == by_actor(
            done(
                "admin.team.role_change"@,
                seq![
                    ("target_admin_id"@, FieldView::Number(target_id as int)),
                    ("old_role"@, FieldView::Text(old_role@)),
                    ("new_role"@, FieldView::Text(new_role@)),
                ],
            ),
            caller.id as int,
            opt_view(caller.email),
        ),
{
    let steps: Vec<RevokeStep> = if sees_all_tenants(old_role) && !sees_all_tenants(new_role) {
        revocation_steps(target_id, &PatReach::HostWide)
    } else {
        let mut only: Vec<RevokeStep> = Vec::new();
        only.push(RevokeStep::ClearPatCache(target_id));
        assert(step_views(only@) =~= seq![StepView::ClearPatCache(target_id as int)]);
        only
    };
    let mut extra: Vec<(String, Field)> = Vec::new();
    extra.push(number_field("target_admin_id", target_id));
    extra.push(text_field("old_role", old_role));
    extra.push(text_field("new_role", new_role));
    assert(field_views(extra@) =~= seq![
        ("target_admin_id"@, FieldView::Number(target_id as int)),
        ("old_role"@, FieldView::Text(old_role@)),
        ("new_role"@, FieldView::Text(new_role@)),
    ]);
    Aftermath {
        steps,
        note: note_by(note_done("admin.team.role_change", extra), caller.id, &caller.email),
    }
}

// ---------------------------------------------------------------------------
// Removing somebody
// ---------------------------------------------------------------------------

/// Why a caller may not remove somebody, if they may not.
pub open spec fn removal_refusal(caller_role: Seq<char>, target: Option<Seq<char>>, other_owner: bool) -> Option<
    RefusalView,
> {
    if !manages_members(caller_role) {
        Some(not_a_manager())
    } else {
        match target {
            None => Some(refusal(404, "ADMIN_NOT_FOUND"@, "admin not found"@)),
            Some(role) => if privileged(role) && caller_role != "owner"@ {
                Some(
                    refusal(
                        403,
                        "PRIVILEGED_ROLE_REQUIRED"@,
                        "only an owner may remove owner/admin roles"@,
                    ),
                )
            } else if role == "owner"@ && !other_owner {
                Some(refusal(409, "LAST_OWNER"@, "cannot remove the last owner"@))
            } else {
                None
            },
        }
    }
}

/// Decides a request to remove somebody, given the role they have, if they
/// exist, and whether another owner exists.
pub fn remove_admin(caller_role: &str, target_role: Option<&str>, other_owner: bool) -> (r: Result<
    (),
    Refusal,
>)
    ensures
        match removal_refusal(
            caller_role@,
            match target_role {
                Some(t) => Some(t@),
                None => None,
            },
            other_owner,
        ) {
            Some(e) => r is Err && r->Err_0@ == e,
            None => r is Ok,
        },
{
    if let Err(e) = require_manage_members(caller_role) {
        return Err(e);
    }
    let role: &str = match target_role {
        Some(t) => t,
        None => {
            return Err(refuse(404, "ADMIN_NOT_FOUND", "admin not found"));
        },
    };
    if is_privileged(role) && !str_eq(caller_role, "owner") {
        return Err(
            refuse(
                403,
                "PRIVILEGED_ROLE_REQUIRED",
                "only an owner may remove owner/admin roles",
            ),
        );
    }
    if str_eq(role, "owner") && !other_owner {
        return Err(refuse(409, "LAST_OWNER", "cannot remove the last owner"));
    }
    Ok(())
}

/// Lists what follows a removal that was written. The reach is that of the
/// tokens before the removal; afterwards it could not be read any more.
pub fn removal_aftermath(
    caller: &Caller,
    target_id: i64,
    role: &str,
    email: &Option<String>,
    reach: &PatReach,
) -> (r: Aftermath)
    ensures
        step_views(r.steps@) == revocation(target_id as int, reach@),
        clears_first(step_views(r.steps@)),
        r.note@ == by_actor(
            done(
                "admin.team.remove"@,
                seq![
                    ("removed_admin_id"@, FieldView::Number(target_id as int)),
                    ("removed_role"@, FieldView::Text(role@)),
                    (
                        "removed_email"@,
                        match email {
                            Some(e) => FieldView::Text(e@),
                            None => FieldView::Null,
                        },
                    ),
                ],
            ),
            caller.id as int,
            opt_view(caller.email),
        ),
{
    let mut extra: Vec<(String, Field)> = Vec::new();
    extra.push(number_field("removed_admin_id", target_id));
    extra.push(text_field("removed_role", role));
    extra.push(opt_field("removed_email", email));
    assert(field_views(extra@) =~= seq![
        ("removed_admin_id"@, FieldView::Number(target_id as int)),
        ("removed_role"@, FieldView::Text(role@)),
        (
            "removed_email"@,
            match email {
                Some(e) => FieldView::Text(e@),
                None => FieldView::Null,
            },
        ),
    ]);
    Aftermath {
        steps: revocation_steps(target_id, reach),
        note: note_by(note_done("admin.team.remove", extra), caller.id, &caller.email),
    }
}

// ---------------------------------------------------------------------------
// Laws
// ---------------------------------------------------------------------------

/// The roles of the team by the id of the administrator.
pub type Team = Map<int, Seq<char>>;

/// Somebody is an owner.
pub open spec fn has_owner(team: Team) -> bool {
    exists|id: int| #[trigger] team.contains_key(id) && team[id] == "owner"@
}

/// Somebody else than `id` is an owner.
pub open spec fn has_other_owner(team: Team, id: int) -> bool {
    exists|k: int| k != id && #[trigger] team.contains_key(k) && team[k] == "owner"@
}

/// The role of `id`, if there is such an administrator.
pub open spec fn role_in(team: Team, id: int) -> Option<Seq<char>> {
    if team.contains_key(id) {
        Some(team[id])
    } else {
        None
    }
}

/// A change of role that is accepted leaves an owner.
pub proof fn law_role_change_leaves_an_owner(
    team: Team,
    caller_role: Seq<char>,
    id: int,
    new_role: Seq<char>,
)
    requires
        has_owner(team),
        role_verdict(caller_role, role_in(team, id), new_role, has_other_owner(team, id))
            == RoleVerdict::Update,
    ensures
        has_owner(team.insert(id, new_role)),
{
    let after = team.insert(id, new_role);
    let k = choose|k: int| #[trigger] team.contains_key(k) && team[k] == "owner"@;
    if k != id {
        assert(after.contains_key(k) && after[k] == "owner"@);
    } else {
        let j = choose|j: int| j != id && #[trigger] team.contains_key(j) && team[j] == "owner"@;
        assert(after.contains_key(j) && after[j] == "owner"@);
    }
}

/// A removal that is accepted leaves an owner.
pub proof fn law_removal_leaves_an_owner(team: Team, caller_role: Seq<char>, id: int)
    requires
        has_owner(team),
        removal_refusal(caller_role, role_in(team, id), has_other_owner(team, id)) is None,
    ensures
        has_owner(team.remove(id)),
{
    let after = team.remove(id);
    let k = choose|k: int| #[trigger] team.contains_key(k) && team[k] == "owner"@;
    if k != id {
        assert(after.contains_key(k) && after[k] == "owner"@);
    } else {
        let j = choose|j: int| j != id && #[trigger] team.contains_key(j) && team[j] == "owner"@;
        assert(after.contains_key(j) && after[j] == "owner"@);
    }
}

/// Only an owner gives, changes or removes the roles of owners and admins;
/// somebody who is neither owner nor admin changes nothing at all.
pub proof fn law_privileged_roles_are_the_owners(
    caller_role: Seq<char>,
    current: Seq<char>,
    new_role: Seq<char>,
    other_owner: bool,
)
    requires
        caller_role != "owner"@,
    ensures
        role_verdict(caller_role, Some(current), new_role, other_owner) == RoleVerdict::Update
            ==> !privileged(current) && !privileged(new_role) && caller_role == "admin"@,
        removal_refusal(caller_role, Some(current), other_owner) is None ==> !privileged(current)
            && caller_role == "admin"@,
        invite_refusal(caller_role, new_role) is None ==> !privileged(new_role) && caller_role
            == "admin"@,
{
}

proof fn lemma_role_names()
    ensures
        "owner"@ != "admin"@,
        "owner"@ != "member"@,
        "admin"@ != "member"@,
{
    reveal_strlit("owner");
    reveal_strlit("admin");
    reveal_strlit("member");
    assert("owner"@[0] == 'o' && "admin"@[0] == 'a' && "member"@[0] == 'm');
}

/// A request is refused with that status and that code.
pub open spec fn refused_with(r: Option<RefusalView>, status: u16, code: Seq<char>) -> bool {
    r matches Some(e) && e.status == status && e.code == code
}

/// A change of role is refused with that status and that code.
pub open spec fn verdict_refused(v: RoleVerdict, status: u16, code: Seq<char>) -> bool {
    v matches RoleVerdict::Refused(e) && e.status == status && e.code == code
}

/// An owner invites anybody, gives any role and removes anybody, as long as another
/// owner is left; an admin does the same with members. Nobody else does anything.
pub proof fn law_who_manages_whom(
    caller_role: Seq<char>,
    current: Seq<char>,
    new_role: Seq<char>,
    other_owner: bool,
)
    requires
        valid_role(current),
        valid_role(new_role),
    ensures
        caller_role == "owner"@ ==> invite_refusal(caller_role, new_role) is None,
        caller_role == "owner"@ && current != new_role && (current != "owner"@ || other_owner)
            ==> role_verdict(caller_role, Some(current), new_role, other_owner)
            == RoleVerdict::Update,
        caller_role == "owner"@ && (current != "owner"@ || other_owner) ==> removal_refusal(
            caller_role,
            Some(current),
            other_owner,
        ) is None,
        caller_role == "admin"@ ==> invite_refusal(caller_role, "member"@) is None
            && removal_refusal(caller_role, Some("member"@), other_owner) is None,
        caller_role == "owner"@ && current == "owner"@ && new_role != "owner"@ && !other_owner
            ==> verdict_refused(
            role_verdict(caller_role, Some(current), new_role, other_owner),
            409,
            "LAST_OWNER"@,
        ),
        caller_role == "owner"@ && current == "owner"@ && !other_owner ==> refused_with(
            removal_refusal(caller_role, Some(current), other_owner),
            409,
            "LAST_OWNER"@,
        ),
        caller_role == "owner"@ && current == new_role ==> role_verdict(
            caller_role,
            Some(current),
            new_role,
            other_owner,
        ) == RoleVerdict::Unchanged,
        caller_role != "owner"@ && caller_role != "admin"@ ==> {
            &&& refused_with(invite_refusal(caller_role, new_role), 403, "NOT_A_MANAGER"@)
            &&& refused_with(
                removal_refusal(caller_role, Some(current), other_owner),
                403,
                "NOT_A_MANAGER"@,
            )
            &&& verdict_refused(
                role_verdict(caller_role, Some(current), new_role, other_owner),
                403,
                "NOT_A_MANAGER"@,
            )
        },
        caller_role == "admin"@ && new_role != "member"@ ==> refused_with(
            invite_refusal(caller_role, new_role),
            403,
            "PRIVILEGED_ROLE_REQUIRED"@,
        ),
{
    lemma_role_names();
}

/// A role that there is not is not given, and somebody who is not there is not found.
pub proof fn law_unknown_roles_and_people_are_refused(caller_role: Seq<char>, role: Seq<char>, other_owner: bool)
    requires
        caller_role == "owner"@ || caller_role == "admin"@,
    ensures
        role != "owner"@ && role != "admin"@ && role != "member"@ ==> refused_with(
            invite_refusal(caller_role, role),
            400,
            "INVALID_ROLE"@,
        ),
        role == "member"@ ==> verdict_refused(
            role_verdict(caller_role, None, role, other_owner),
            404,
            "ADMIN_NOT_FOUND"@,
        ),
        refused_with(removal_refusal(caller_role, None, other_owner), 404, "ADMIN_NOT_FOUND"@),
{
    lemma_role_names();
}

/// An address is a name, an `@` and a domain. The name may be anything that has no white
/// space and none of the marks of an address book; the domain has a dot with something
/// on either side.
pub proof fn law_addresses_are_name_and_domain(name: Seq<char>, domain: Seq<char>)
    requires
        !name.contains('@'),
        !domain.contains('@'),
        byte_len(name + seq!['@'] + domain) <= 254,
    ensures
        email_ok(name + seq!['@'] + domain) <==> {
            &&& name.len() > 0
            &&& domain.len() > 0
            &&& forall|i: int| 0 <= i < name.len() ==> !never_in_email(#[trigger] name[i])
            &&& forall|i: int| 0 <= i < domain.len() ==> !never_in_email(#[trigger] domain[i])
            &&& dotted(domain)
        },
{
    let s = name + seq!['@'] + domain;
    assert forall|i: int| 0 <= i < name.len() implies name[i] != '@' by {
        assert(name.contains(name[i]));
    }
    assert forall|i: int| 0 <= i < domain.len() implies domain[i] != '@' by {
        assert(domain.contains(domain[i]));
    }
    lemma_split_none(name, '@');
    lemma_split_behind(name, domain, '@');
    assert(split_on(s, '@') =~= seq![name, domain]);
    if email_ok(s) {
        assert forall|i: int| 0 <= i < name.len() implies !never_in_email(#[trigger] name[i]) by {
            assert(s[i] == name[i]);
        }
        assert forall|i: int| 0 <= i < domain.len() implies !never_in_email(#[trigger] domain[i]) by {
            assert(s[name.len() + 1 + i] == domain[i]);
        }
    }
    assert(!never_in_email('@')) by {
        assert(!white('@'));
    }
    if (forall|i: int| 0 <= i < name.len() ==> !never_in_email(#[trigger] name[i])) && (forall|
        i: int,
    |
        0 <= i < domain.len() ==> !never_in_email(#[trigger] domain[i])) {
        assert forall|i: int| 0 <= i < s.len() implies !never_in_email(#[trigger] s[i]) by {
            if i < name.len() {
                assert(s[i] == name[i]);
            } else if i > name.len() {
                assert(s[i] == domain[i - name.len() - 1]);
            }
        }
    }
}

/// A user name is the part of the address before the `@`: letters and digits as they
/// are, and an underscore for everything else.
pub proof fn law_user_names_come_from_the_address(name: Seq<char>, domain: Seq<char>, i: int)
    requires
        !name.contains('@'),
        0 <= i < name.len(),
    ensures
        username_base(name + seq!['@'] + domain).len() == name.len(),
        ascii_alnum(name[i]) ==> username_base(name + seq!['@'] + domain)[i] == name[i],
        !ascii_alnum(name[i]) ==> username_base(name + seq!['@'] + domain)[i] == '_',
{
    let s = name + seq!['@'] + domain;
    assert forall|j: int| 0 <= j < name.len() implies s[j] != '@' by {
        assert(s[j] == name[j]);
        assert(name.contains(name[j]));
    }
    assert(s[name.len() as int] == '@');
    lemma_find_char_is(s, '@', name.len() as int);
    assert(s.take(name.len() as int) =~= name);
    assert(s.subrange(0, name.len() as int) =~= name);
}

/// Where the name itself is taken, the first one tried has a 2 behind it, and no name is
/// tried twice.
pub proof fn law_taken_names_get_a_number(base: Seq<char>, j: nat, k: nat)
    requires
        j != k,
    ensures
        username_candidate(base, 0) == base,
        username_candidate(base, 1) == base + "2"@,
        username_candidate(base, j) != username_candidate(base, k),
        has_prefix(username_candidate(base, k), base),
{
    reveal_strlit("2");
    assert(dec(2) =~= "2"@);
    if j < k {
        lemma_candidates_differ(base, j, k);
    } else {
        lemma_candidates_differ(base, k, j);
    }
    assert(username_candidate(base, k).subrange(0, base.len() as int) =~= base);
}

/// Somebody was invited under that id.
pub open spec fn created_as(o: InviteOutcome, id: int) -> bool {
    o matches InviteOutcome::Created { id: i } && i == id
}

/// Somebody was not invited, for a reason with the same word.
pub open spec fn skipped_as(o: InviteOutcome, why: BatchSkip) -> bool {
    o matches InviteOutcome::Skipped { reason } && reason.text() == why.text()
}

/// A batch reports an address as created with its own id, and as skipped with its own
/// reason.
pub proof fn law_batch_reports_what_happened(
    emails: Seq<Seq<char>>,
    outcomes: Seq<InviteOutcome>,
    k: nat,
)
    requires
        k <= emails.len(),
        emails.len() == outcomes.len(),
    ensures
        forall|c: (int, Seq<char>)| #[trigger]
            created_of(emails, outcomes, k).contains(c) ==> exists|i: int|
                0 <= i < k && #[trigger] emails[i] == c.1 && created_as(outcomes[i], c.0),
        forall|c: (Seq<char>, BatchSkip)| #[trigger]
            skipped_of(emails, outcomes, k).contains(c) ==> exists|i: int|
                0 <= i < k && #[trigger] emails[i] == c.0 && skipped_as(outcomes[i], c.1),
    decreases k,
{
    if k > 0 {
        let n = (k - 1) as nat;
        law_batch_reports_what_happened(emails, outcomes, n);
        let ch = created_of(emails, outcomes, n);
        let sh = skipped_of(emails, outcomes, n);
        let cn = created_of(emails, outcomes, k);
        let sn = skipped_of(emails, outcomes, k);
        assert forall|c: (int, Seq<char>)| #[trigger] cn.contains(c) implies exists|i: int|
            0 <= i < k && #[trigger] emails[i] == c.1 && created_as(outcomes[i], c.0) by {
            let j = choose|j: int| 0 <= j < cn.len() && cn[j] == c;
            if j < ch.len() {
                assert(ch[j] == c);
                assert(ch.contains(c));
            } else {
                assert(emails[n as int] == c.1);
            }
        }
        assert forall|c: (Seq<char>, BatchSkip)| #[trigger] sn.contains(c) implies exists|i: int|
            0 <= i < k && #[trigger] emails[i] == c.0 && skipped_as(outcomes[i], c.1) by {
            let j = choose|j: int| 0 <= j < sn.len() && sn[j] == c;
            if j < sh.len() {
                assert(sh[j] == c);
                assert(sh.contains(c));
            } else {
                assert(emails[n as int] == c.0);
            }
        }
    }
}

/// The largest batch is the number that is set, and fifty where none is.
pub proof fn law_batch_limit_is_the_setting(n: nat)
    requires
        0 < n <= usize::MAX,
    ensures
        batch_limit(Some(dec(n))) == n,
        batch_limit(None) == 50,
        batch_limit(Some(dec(0))) == 50,
{
    law_dec_is_read_back(n, usize::MAX as nat);
    law_dec_is_read_back(0, usize::MAX as nat);
}

/// Somebody who no longer sees every tenant is disconnected from all of them; a change
/// that takes nothing away closes no connection. Either way the cache forgets them.
pub proof fn law_demotion_disconnects(id: int, old_role: Seq<char>, new_role: Seq<char>)
    ensures
        role_change_steps(id, old_role, new_role).contains(StepView::ClearPatCache(id)),
        (old_role == "owner"@ || old_role == "admin"@) && new_role == "member"@
            ==> role_change_steps(id, old_role, new_role).contains(StepView::EvictAllTenants),
        new_role == "owner"@ || new_role == "admin"@ || old_role == "member"@ ==> role_change_steps(
            id,
            old_role,
            new_role,
        ) == seq![StepView::ClearPatCache(id)],
{
    lemma_role_names();
    let steps = role_change_steps(id, old_role, new_role);
    assert(steps[0] == StepView::ClearPatCache(id));
    if (old_role == "owner"@ || old_role == "admin"@) && new_role == "member"@ {
        assert(steps[1] == StepView::EvictAllTenants);
    }
}

/// The note about an invitation names who invited, who was invited and as what.
pub proof fn law_invitations_are_noted(caller: Caller, id: int, email: Seq<char>, role: Seq<char>)
    ensures
        ({
            let n = invite_note(caller, id, email, role);
            &&& n.actor == Some((caller.id as int, opt_view(caller.email)))
            &&& n.failure is None
            &&& n.op == "admin.team.invite"@
            &&& n.extra.contains(("invited_admin_id"@, FieldView::Number(id)))
            &&& n.extra.contains(("invited_email"@, FieldView::Text(email)))
            &&& n.extra.contains(("role"@, FieldView::Text(role)))
        }),
{
    let e = invite_note(caller, id, email, role).extra;
    assert(e[0] == ("invited_admin_id"@, FieldView::Number(id)));
    assert(e[1] == ("invited_email"@, FieldView::Text(email)));
    assert(e[2] == ("role"@, FieldView::Text(role)));
}

} // verus!
