//! The device login of the command line client.
//!
//! A client without a browser asks for a device code and shows its user a
//! short code. The user confirms it in a browser where an administrator is
//! signed in, which mints a token. The client polls with its device code and
//! collects the token exactly once.

use vstd::prelude::*;
use vstd::utf8::encode_utf8;
use crate::admin_pat::{PatCommand, PatCommandView};
use crate::audit_note::{
    done, field_views, note_done, number_field, text_field, AuditNote, Field, FieldView,
};
use crate::crypto::{base64_url, base64url, hmac_code, hmac_sha256, same_bytes};
use crate::html::{
    calm, count_of, count_within, html_escape, html_text, law_html_text_is_inert, lemma_count_joined,
    lemma_count_plain, lemma_count_single, stands,
};
use crate::oauth_server::storage::{random_b64, random_text, sha256_b64, token_hash};
use crate::reply::{refusal, refuse, Refusal};
use crate::text::{
    concat2, concat3, find_char, from_range, has_part, lemma_find_char_is, opt_view, position_of,
    split, split_on, stands_at, str_eq, to_chars, trim, trimmed, views,
};

verus! {

/// The life of a device code, 15 minutes.
pub const CLI_DEVICE_CODE_TTL_SECS: i64 = 900;

/// The least time between two polls.
pub const CLI_DEVICE_POLL_INTERVAL_SECS: i64 = 5;

/// The life of a token of the command line client, a day, where nothing else is set.
pub const CLI_PAT_TTL: i64 = 86400;

/// How often a collision of user codes is tried again.
pub const MINT_TRIES: u32 = 8;

// ---------------------------------------------------------------------------
// Codes
// ---------------------------------------------------------------------------

/// A character of a user code: digits and capital letters without those that
/// are taken for one another.
pub open spec fn user_code_char(c: char) -> bool {
    &&& crate::text::ascii_digit(c) || crate::text::ascii_upper(c)
    &&& c != '0' && c != '1' && c != 'I' && c != 'L' && c != 'O' && c != 'U'
}

/// A user code, `XXXX-XXXX`.
pub open spec fn user_code(s: Seq<char>) -> bool {
    &&& s.len() == 9
    &&& s[4] == '-'
    &&& forall|i: int| 0 <= i < 9 && i != 4 ==> user_code_char(#[trigger] s[i])
}

/// `rand::Rng::gen_range` gives a number below its bound; which one is left to chance.
#[verifier::external_body]
fn random_below(bound: usize) -> (r: usize)
    requires
        0 < bound,
    ensures
        r < bound,
{
    rand::Rng::gen_range(&mut rand::thread_rng(), 0..bound)
}

/// The characters of user codes, in order.
pub const USER_CODE_ALPHABET: &'static str = "23456789ABCDEFGHJKMNPQRSTVWXYZ";

proof fn lemma_alphabet()
    ensures
        USER_CODE_ALPHABET@.len() == 30,
        forall|i: int| 0 <= i < 30 ==> user_code_char(#[trigger] USER_CODE_ALPHABET@[i]),
        forall|i: int, j: int|
            0 <= i < j < 30 ==> #[trigger] USER_CODE_ALPHABET@[i] < #[trigger] USER_CODE_ALPHABET@[j],
        forall|c: char| #[trigger] user_code_char(c) ==> USER_CODE_ALPHABET@.contains(c),
{
    reveal_strlit("23456789ABCDEFGHJKMNPQRSTVWXYZ");
    let s = USER_CODE_ALPHABET@;
    assert forall|c: char| #[trigger] user_code_char(c) implies s.contains(c) by {
        let n = c as int;
        if c <= '9' {
            assert(s[n - 50] == c);
        } else if c <= 'H' {
            assert(s[n - 57] == c);
        } else if c <= 'K' {
            assert(s[n - 58] == c);
        } else if c <= 'N' {
            assert(s[n - 59] == c);
        } else if c <= 'T' {
            assert(s[n - 60] == c);
        } else {
            assert(s[n - 61] == c);
        }
    }
}

/// Eight places in the alphabet of user codes.
pub open spec fn eight_picks(picks: Seq<usize>) -> bool {
    picks.len() == 8 && forall|i: int| 0 <= i < 8 ==> (#[trigger] picks[i]) < 30
}

/// The user code that eight places in the alphabet give: a character for each,
/// with a hyphen in the middle.
pub open spec fn code_of_picks(picks: Seq<usize>) -> Seq<char> {
    Seq::new(
        9,
        |i: int|
            if i == 4 {
                '-'
            } else if i < 4 {
                USER_CODE_ALPHABET@[picks[i] as int]
            } else {
                USER_CODE_ALPHABET@[picks[i - 1] as int]
            },
    )
}

/// Every pick leads to a user code of its own, and every user code can be
/// picked.
pub proof fn law_user_codes_are_the_picks(a: Seq<usize>, b: Seq<usize>, code: Seq<char>)
    requires
        eight_picks(a),
        eight_picks(b),
    ensures
        user_code(code_of_picks(a)),
        code_of_picks(a) == code_of_picks(b) ==> a == b,
        user_code(code) ==> exists|p: Seq<usize>|
            eight_picks(p) && #[trigger] code_of_picks(p) == code,
{
    lemma_alphabet();
    let abc = USER_CODE_ALPHABET@;
    assert forall|i: int| 0 <= i < 9 && i != 4 implies user_code_char(
        #[trigger] code_of_picks(a)[i],
    ) by {
        let k = if i < 4 { i } else { i - 1 };
        assert(a[k] < 30);
    }
    if code_of_picks(a) == code_of_picks(b) {
        assert forall|k: int| 0 <= k < 8 implies a[k] == b[k] by {
            let i = if k < 4 { k } else { k + 1 };
            assert(code_of_picks(a)[i] == abc[a[k] as int]);
            assert(code_of_picks(b)[i] == abc[b[k] as int]);
            assert(a[k] < 30 && b[k] < 30);
        }
        assert(a =~= b);
    }
    if user_code(code) {
        let p = Seq::new(
            8,
            |k: int|
                {
                    let c = code[if k < 4 { k } else { k + 1 }];
                    (choose|j: int| 0 <= j < 30 && abc[j] == c) as usize
                },
        );
        assert forall|k: int| 0 <= k < 8 implies (#[trigger] p[k]) < 30 && abc[p[k] as int]
            == code[if k < 4 { k } else { k + 1 }] by {
            let c = code[if k < 4 { k } else { k + 1 }];
            assert(user_code_char(c));
            assert(abc.contains(c));
            let j = choose|j: int| 0 <= j < 30 && abc[j] == c;
            assert(0 <= j < 30 && abc[j] == c);
        }
        assert forall|i: int| 0 <= i < 9 implies code_of_picks(p)[i] == code[i] by {
            if i != 4 {
                let k = if i < 4 { i } else { i - 1 };
                assert(p[k] < 30);
            }
        }
        assert(code_of_picks(p) =~= code);
    }
}

/// A device code: the base64 text of 16 random bytes. It is shown once and stored as a hash.
pub fn generate_device_code() -> (r: String)
    ensures
        exists|b: Seq<u8>| b.len() == 16 && r@ == #[trigger] base64url(b),
        random_text(r@, 22),
{
    random_b64(16)
}

/// The hash that stands for a device code in the table.
pub fn device_code_hash(device_code: &str) -> (r: String)
    ensures
        r@ == token_hash(device_code@),
{
    sha256_b64(device_code)
}

/// Writes the user code that eight places in the alphabet give.
pub fn user_code_of(picks: &Vec<usize>) -> (r: String)
    requires
        eight_picks(picks@),
    ensures
        r@ == code_of_picks(picks@),
        user_code(r@),
{
    let alphabet: Vec<char> = to_chars(USER_CODE_ALPHABET);
    proof {
        lemma_alphabet();
        law_user_codes_are_the_picks(picks@, picks@, Seq::<char>::empty());
    }
    let mut s: String = String::new();
    let mut i: usize = 0;
    while i < 9
        invariant
            i <= 9,
            eight_picks(picks@),
            alphabet@ == USER_CODE_ALPHABET@,
            alphabet@.len() == 30,
            s@ == code_of_picks(picks@).take(i as int),
        decreases 9 - i,
    {
        let ghost before = s@;
        if i == 4 {
            s.push('-');
        } else {
            let k: usize = if i < 4 { picks[i] } else { picks[i - 1] };
            s.push(alphabet[k]);
        }
        assert(s@ =~= before.push(code_of_picks(picks@)[i as int]));
        assert(code_of_picks(picks@).take(i as int + 1) =~= before.push(
            code_of_picks(picks@)[i as int],
        ));
        i = i + 1;
    }
    assert(code_of_picks(picks@).take(9) =~= code_of_picks(picks@));
    s
}

/// A random user code.
pub fn generate_user_code() -> (r: String)
    ensures
        exists|p: Seq<usize>| eight_picks(p) && r@ == #[trigger] code_of_picks(p),
        user_code(r@),
{
    let mut picks: Vec<usize> = Vec::new();
    let mut i: usize = 0;
    while i < 8
        invariant
            i <= 8,
            picks@.len() == i,
            forall|k: int| 0 <= k < i ==> (#[trigger] picks@[k]) < 30,
        decreases 8 - i,
    {
        picks.push(random_below(30));
        i = i + 1;
    }
    user_code_of(&picks)
}

// ---------------------------------------------------------------------------
// Starting
// ---------------------------------------------------------------------------

#[derive(Debug)]
pub struct StartReq {
    pub client_name: Option<String>,
}

#[derive(Debug)]
pub struct PollReq {
    pub device_code: String,
}

/// The name of a client: what it calls itself, `drust-cli` where that is blank.
pub open spec fn client_name_of(name: Option<Seq<char>>) -> Seq<char> {
    match name {
        Some(n) => if trimmed(n).len() > 0 {
            trimmed(n)
        } else {
            "drust-cli"@
        },
        None => "drust-cli"@,
    }
}

/// Begins a device login: the name to store, or the refusal of an address that asks too often.
pub fn device_start(within_limit: bool, body: &Option<StartReq>) -> (r: Result<String, Refusal>)
    ensures
        if !within_limit {
            r is Err && r->Err_0@ == refusal(429, "RATE_LIMITED_IP"@, "rate limited"@)
        } else {
            r matches Ok(name) && name@ == client_name_of(
                match body {
                    Some(b) => opt_view(b.client_name),
                    None => None,
                },
            )
        },
{
    if !within_limit {
        return Err(refuse(429, "RATE_LIMITED_IP", "rate limited"));
    }
    if let Some(b) = body {
        if let Some(n) = &b.client_name {
            let t: String = trim(n.as_str());
            if !t.as_str().is_empty() {
                return Ok(t);
            }
        }
    }
    Ok("drust-cli".to_owned())
}

/// The answer to a device login that was begun.
#[derive(Debug)]
pub struct DeviceGrant {
    pub device_code: String,
    pub user_code: String,
    pub verification_uri: String,
    pub verification_uri_complete: String,
    pub interval: i64,
    pub expires_in: i64,
}

/// What follows an attempt to store a fresh pair of codes.
#[derive(Debug)]
pub enum StartNext {
    Done(DeviceGrant),
    Retry,
    Failed(Refusal),
}

/// Decides what follows attempt number `attempt`, the first being 0. User
/// codes are short, so a collision is tried again, at most eight times in all.
pub fn after_start_attempt(
    stored: bool,
    attempt: u32,
    device_code: &str,
    user_code: &str,
    public_url: &str,
    base: &str,
) -> (r: StartNext)
    ensures
        if stored {
            &&& r matches StartNext::Done(g)
            &&& g.device_code@ == device_code@
            &&& g.user_code@ == user_code@
            &&& g.verification_uri@ == public_url@ + base@ + "/auth/cli/device"@
            &&& g.verification_uri_complete@ == g.verification_uri@ + "?user_code="@ + user_code@
            &&& g.interval == 5
            &&& g.expires_in == 900
        } else if attempt + 1 < MINT_TRIES {
            r is Retry
        } else {
            r matches StartNext::Failed(e) && e@ == refusal(
                500,
                "DEVICE_CODE_MINT_FAILED"@,
                "could not mint a device code"@,
            )
        },
{
    if stored {
        let uri: String = concat3(public_url, base, "/auth/cli/device");
        let complete: String = concat3(uri.as_str(), "?user_code=", user_code);
        StartNext::Done(
            DeviceGrant {
                device_code: device_code.to_owned(),
                user_code: user_code.to_owned(),
                verification_uri: uri,
                verification_uri_complete: complete,
                interval: CLI_DEVICE_POLL_INTERVAL_SECS,
                expires_in: CLI_DEVICE_CODE_TTL_SECS,
            },
        )
    } else if attempt < MINT_TRIES - 1 {
        StartNext::Retry
    } else {
        StartNext::Failed(
            refuse(500, "DEVICE_CODE_MINT_FAILED", "could not mint a device code"),
        )
    }
}

// ---------------------------------------------------------------------------
// Polling
// ---------------------------------------------------------------------------

/// What is stored of a device login, as a poll sees it. `since_last_ms` is
/// the time since the poll before, if there was one.
#[derive(Debug)]
pub struct PollRow {
    pub status: String,
    pub expired: bool,
    pub since_last_ms: Option<i64>,
    pub admin_id: Option<i64>,
}

/// The answer to a poll.
#[derive(Debug)]
pub enum PollAnswer {
    Status(&'static str),
    Approved {
        access_token: String,
        expires_at: Option<String>,
        admin_id: Option<i64>,
        email: Option<String>,
    },
    Refused(Refusal),
}

/// What a poll does next.
#[derive(Debug)]
pub enum PollStep {
    /// Send the answer.
    Answer(PollAnswer),
    /// Note the time of this poll, then send the answer.
    Touch(PollAnswer),
    /// Turn the row from approved to redeemed, if it still is approved and in
    /// time, and go on with the token it holds.
    Redeem,
}

/// The answer is a plain status.
pub open spec fn says(a: PollAnswer, status: Seq<char>) -> bool {
    a matches PollAnswer::Status(s) && s@ == status
}

/// What a poll does next, given what is stored of its device code. A code
/// that is unknown looks like one that has expired.
pub open spec fn poll_decision(row: Result<Option<PollRow>, ()>, r: PollStep) -> bool {
    match row {
        Err(_) => r matches PollStep::Answer(PollAnswer::Refused(e)) && e@ == refusal(
            500,
            "DEVICE_POLL_FAILED"@,
            "device poll failed"@,
        ),
        Ok(None) => r matches PollStep::Answer(a) && says(a, "expired"@),
        Ok(Some(p)) => if p.expired || p.status@ == "redeemed"@ {
            r matches PollStep::Answer(a) && says(a, "expired"@)
        } else if p.status@ == "denied"@ {
            r matches PollStep::Answer(a) && says(a, "denied"@)
        } else if p.status@ == "approved"@ {
            r is Redeem
        } else if p.since_last_ms matches Some(ms) && ms < 5000 {
            r matches PollStep::Touch(a) && says(a, "slow_down"@)
        } else {
            r matches PollStep::Touch(a) && says(a, "pending"@)
        },
    }
}

/// Decides what a poll does, given what the table holds for its device code.
pub fn device_poll(within_limit: bool, row: &Result<Option<PollRow>, ()>) -> (r: PollStep)
    ensures
        !within_limit ==> (r matches PollStep::Answer(PollAnswer::Refused(e)) && e@ == refusal(
            429,
            "RATE_LIMITED_IP"@,
            "rate limited"@,
        )),
        within_limit ==> poll_decision(*row, r),
{
    if !within_limit {
        return PollStep::Answer(
            PollAnswer::Refused(refuse(429, "RATE_LIMITED_IP", "rate limited")),
        );
    }
    let p: &PollRow = match row {
        Err(_) => {
            return PollStep::Answer(
                PollAnswer::Refused(refuse(500, "DEVICE_POLL_FAILED", "device poll failed")),
            );
        },
        Ok(None) => {
            return PollStep::Answer(PollAnswer::Status("expired"));
        },
        Ok(Some(p)) => p,
    };
    if p.expired || str_eq(p.status.as_str(), "redeemed") {
        return PollStep::Answer(PollAnswer::Status("expired"));
    }
    if str_eq(p.status.as_str(), "denied") {
        return PollStep::Answer(PollAnswer::Status("denied"));
    }
    if str_eq(p.status.as_str(), "approved") {
        return PollStep::Redeem;
    }
    let slow_down: bool = match p.since_last_ms {
        Some(ms) => ms < CLI_DEVICE_POLL_INTERVAL_SECS * 1000,
        None => false,
    };
    if slow_down {
        PollStep::Touch(PollAnswer::Status("slow_down"))
    } else {
        PollStep::Touch(PollAnswer::Status("pending"))
    }
}

/// The token that a redeemed row pointed to.
#[derive(Debug)]
pub struct RedeemedToken {
    pub plaintext: Option<String>,
    pub expires_at: Option<String>,
    pub email: Option<String>,
}

/// Answers the poll that tried to redeem its row. `token` is what the row
/// pointed to, nothing where another poll came first or the time had run out.
pub fn after_redeem(token: Option<RedeemedToken>, admin_id: Option<i64>) -> (r: PollAnswer)
    ensures
        match token {
            None => says(r, "expired"@),
            Some(t) => match t.plaintext {
                None => r matches PollAnswer::Refused(e) && e@ == refusal(
                    500,
                    "DEVICE_TOKEN_MISSING"@,
                    "minted token unavailable"@,
                ),
                Some(p) => r == (PollAnswer::Approved {
                    access_token: p,
                    expires_at: t.expires_at,
                    admin_id,
                    email: if admin_id is Some {
                        t.email
                    } else {
                        None
                    },
                }),
            },
        },
{
    match token {
        None => PollAnswer::Status("expired"),
        Some(t) => match t.plaintext {
            None => PollAnswer::Refused(
                refuse(500, "DEVICE_TOKEN_MISSING", "minted token unavailable"),
            ),
            Some(p) => PollAnswer::Approved {
                access_token: p,
                expires_at: t.expires_at,
                admin_id,
                email: if admin_id.is_some() {
                    t.email
                } else {
                    None
                },
            },
        },
    }
}

// ---------------------------------------------------------------------------
// The life of a row
// ---------------------------------------------------------------------------

/// What is stored of a device login.
pub struct DeviceRowView {
    pub status: Seq<char>,
    pub expired: bool,
    pub minted: Option<int>,
}

/// A change to a row.
pub enum DeviceEvent {
    Approve { token: int },
    Deny,
    Redeem,
    Expire,
}

/// The row after a change, under the conditions under which it is made: only
/// a pending row is approved or denied, and only an approved one redeemed,
/// and neither approved nor redeemed after its end.
pub open spec fn device_after(row: DeviceRowView, e: DeviceEvent) -> DeviceRowView {
    match e {
        DeviceEvent::Approve { token } => if row.status == "pending"@ && !row.expired {
            DeviceRowView { status: "approved"@, minted: Some(token), ..row }
        } else {
            row
        },
        DeviceEvent::Deny => if row.status == "pending"@ {
            DeviceRowView { status: "denied"@, ..row }
        } else {
            row
        },
        DeviceEvent::Redeem => if row.status == "approved"@ && !row.expired {
            DeviceRowView { status: "redeemed"@, ..row }
        } else {
            row
        },
        DeviceEvent::Expire => DeviceRowView { expired: true, ..row },
    }
}

/// The row after some changes.
pub open spec fn device_run(row: DeviceRowView, es: Seq<DeviceEvent>) -> DeviceRowView
    decreases es.len(),
{
    if es.len() == 0 {
        row
    } else {
        device_after(device_run(row, es.drop_last()), es.last())
    }
}

/// A poll of the row hands out the token that it holds.
pub open spec fn hands_out(row: DeviceRowView) -> bool {
    row.status == "approved"@ && !row.expired
}

proof fn lemma_statuses_differ()
    ensures
        "pending"@ != "approved"@,
        "pending"@ != "denied"@,
        "pending"@ != "redeemed"@,
        "approved"@ != "denied"@,
        "approved"@ != "redeemed"@,
        "denied"@ != "redeemed"@,
{
    reveal_strlit("pending");
    reveal_strlit("approved");
    reveal_strlit("denied");
    reveal_strlit("redeemed");
    assert("pending"@[0] == 'p');
    assert("approved"@[0] == 'a');
    assert("denied"@[0] == 'd');
    assert("redeemed"@[0] == 'r');
}

/// Once a row is redeemed, denied or past its end, no later change makes a
/// poll hand out a token, so a token is collected at most once.
pub proof fn law_token_is_collected_once(row: DeviceRowView, es: Seq<DeviceEvent>)
    requires
        row.status == "redeemed"@ || row.status == "denied"@ || row.expired,
    ensures
        !hands_out(device_run(row, es)),
        row.status == "redeemed"@ ==> device_run(row, es).status == "redeemed"@,
        row.status == "denied"@ ==> device_run(row, es).status == "denied"@,
        row.expired ==> device_run(row, es).expired,
    decreases es.len(),
{
    lemma_statuses_differ();
    if es.len() > 0 {
        law_token_is_collected_once(row, es.drop_last());
    }
}

/// A row that hands out its token is redeemed by that poll, and the poll
/// after it is told that the code has expired.
pub proof fn law_redeem_spends_the_row(row: DeviceRowView, next: PollRow, step: PollStep)
    requires
        hands_out(row),
        next.status@ == device_after(row, DeviceEvent::Redeem).status,
        poll_decision(Ok(Some(next)), step),
    ensures
        step matches PollStep::Answer(a) && says(a, "expired"@),
{
    lemma_statuses_differ();
}

// ---------------------------------------------------------------------------
// The page
// ---------------------------------------------------------------------------

#[derive(Debug)]
pub struct PageQuery {
    pub user_code: Option<String>,
}

#[derive(Debug)]
pub struct DenyForm {
    pub user_code: String,
    pub csrf: String,
}

#[derive(Debug)]
pub struct ApproveForm {
    pub user_code: String,
    pub csrf: String,
}

/// The value of the first cookie of that name, the name ending at the first `=`.
pub open spec fn pair_value(parts: Seq<Seq<char>>, name: Seq<char>) -> Option<Seq<char>>
    decreases parts.len(),
{
    if parts.len() == 0 {
        None
    } else {
        let p = trimmed(parts[0]);
        let i = find_char(p, '=') as int;
        if i < p.len() && p.take(i) == name {
            Some(p.skip(i + 1))
        } else {
            pair_value(parts.drop_first(), name)
        }
    }
}

/// Reads a cookie of a `Cookie` header.
pub fn read_cookie(cookie_header: Option<&str>, name: &str) -> (r: Option<String>)
    ensures
        opt_view(r) == (match cookie_header {
            Some(h) => pair_value(split_on(h@, ';'), name@),
            None => None,
        }),
{
    let h: &str = match cookie_header {
        Some(h) => h,
        None => {
            return None;
        },
    };
    let parts: Vec<String> = split(h, ';');
    let ghost all = views(parts@);
    let mut i: usize = 0;
    assert(all.skip(0) =~= all);
    while i < parts.len()
        invariant
            i <= parts.len(),
            all == views(parts@),
            all == split_on(h@, ';'),
            cookie_header == Some(h),
            pair_value(all, name@) == pair_value(all.skip(i as int), name@),
        decreases parts.len() - i,
    {
        assert(all.skip(i as int)[0] == parts@[i as int]@);
        let part: String = trim(parts[i].as_str());
        let p: Vec<char> = to_chars(part.as_str());
        let k: usize = position_of(&p, '=');
        if k < p.len() {
            let key: String = from_range(&p, 0, k);
            assert(key@ =~= p@.take(k as int));
            if str_eq(key.as_str(), name) {
                let v: String = from_range(&p, k + 1, p.len());
                assert(v@ =~= p@.skip(k as int + 1));
                return Some(v);
            }
        }
        assert(all.skip(i as int).drop_first() =~= all.skip(i as int + 1));
        i = i + 1;
    }
    None
}

/// The token that ties a form to a user code under the secret of the process.
pub open spec fn csrf_token(secret: Seq<u8>, user_code: Seq<char>) -> Seq<char> {
    base64url(hmac_code(secret, encode_utf8(user_code)))
}

/// Makes the token that ties a form to a user code.
pub fn csrf_for(secret: &[u8], user_code: &str) -> (r: String)
    ensures
        r@ == csrf_token(secret@, user_code@),
{
    let code: Vec<u8> = hmac_sha256(secret, user_code.as_bytes());
    base64_url(code.as_slice())
}

/// Whether a form carries the given token and so does the cookie.
pub open spec fn csrf_ok(cookie: Option<Seq<char>>, form_csrf: Seq<char>, expected: Seq<char>) -> bool {
    form_csrf.len() > 0 && cookie == Some(form_csrf) && form_csrf == expected
}

/// Checks the token of a form against the cookie and against the one that
/// belongs to the user code.
pub fn check_csrf(secret: &[u8], cookie_header: Option<&str>, form_csrf: &str, user_code: &str) -> (r: Result<
    (),
    Refusal,
>)
    ensures
        match r {
            Ok(_) => csrf_ok(
                match cookie_header {
                    Some(h) => pair_value(split_on(h@, ';'), "drust_cli_csrf"@),
                    None => None,
                },
                form_csrf@,
                csrf_token(secret@, user_code@),
            ),
            Err(e) => !csrf_ok(
                match cookie_header {
                    Some(h) => pair_value(split_on(h@, ';'), "drust_cli_csrf"@),
                    None => None,
                },
                form_csrf@,
                csrf_token(secret@, user_code@),
            ) && e@ == refusal(403, "CSRF_MISMATCH"@, "CSRF token missing or mismatched"@),
        },
{
    let found: Option<String> = read_cookie(cookie_header, "drust_cli_csrf");
    let cookie: String = match found {
        Some(c) => c,
        None => String::new(),
    };
    let expected: String = csrf_for(secret, user_code);
    let double_submit_ok: bool = same_bytes(cookie.as_str().as_bytes(), form_csrf.as_bytes());
    let bound_ok: bool = same_bytes(form_csrf.as_bytes(), expected.as_str().as_bytes());
    proof {
        vstd::utf8::encode_utf8_decode_utf8(cookie@);
        vstd::utf8::encode_utf8_decode_utf8(form_csrf@);
        vstd::utf8::encode_utf8_decode_utf8(expected@);
    }
    if !form_csrf.is_empty() && double_submit_ok && bound_ok {
        Ok(())
    } else {
        Err(refuse(403, "CSRF_MISMATCH", "CSRF token missing or mismatched"))
    }
}

/// The `Set-Cookie` value that carries the token of a form.
pub fn build_csrf_cookie(csrf: &str, cookie_path: &str, secure: bool) -> (r: String)
    ensures
        r@ == "drust_cli_csrf="@ + csrf@ + "; Path="@ + cookie_path@ + "; HttpOnly; SameSite=Lax"@ + (
        if secure {
            "; Secure"@
        } else {
            Seq::<char>::empty()
        }),
{
    let mut s: String = "drust_cli_csrf=".to_owned();
    s.append(csrf);
    s.append("; Path=");
    s.append(cookie_path);
    s.append("; HttpOnly; SameSite=Lax");
    let ghost before = s@;
    if secure {
        s.append("; Secure");
    } else {
        assert(before + Seq::<char>::empty() =~= before);
    }
    s
}

/// One of the two forms of the approval page.
pub open spec fn decision_form(action: Seq<char>, user_code: Seq<char>, csrf: Seq<char>, label: Seq<char>) -> Seq<
    char,
> {
    "<form method=\"post\" action=\""@ + action
        + "\" style=\"display:inline\">\n  <input type=\"hidden\" name=\"user_code\" value=\""@
        + html_text(user_code) + "\">\n  <input type=\"hidden\" name=\"csrf\" value=\""@ + html_text(
        csrf,
    ) + "\">\n  <button type=\"submit\">"@ + label + "</button>\n</form>\n"@
}

/// The page that asks an administrator to confirm a user code.
pub open spec fn approval_page(
    base: Seq<char>,
    client_name: Seq<char>,
    email: Option<Seq<char>>,
    user_code: Seq<char>,
    csrf: Seq<char>,
) -> Seq<char> {
    "<!doctype html><html lang=\"en\"><head><meta charset=\"utf-8\">\n<meta name=\"viewport\" content=\"width=device-width, initial-scale=1\">\n<title>Authorize CLI device</title></head>\n<body style=\"font-family:system-ui,sans-serif;max-width:32rem;margin:4rem auto;line-height:1.5\">\n<h1>Authorize a device</h1>\n<p>The client <strong>"@
        + html_text(client_name)
        + "</strong> is requesting access to your drust account\n(<strong>"@ + html_text(
        match email {
            Some(e) => e,
            None => "this account"@,
        },
    ) + "</strong>).</p>\n<p>Verification code: <code>"@ + html_text(user_code)
        + "</code></p>\n<p>Only continue if you just started a <code>drust auth login</code> on this device.</p>\n"@
        + decision_form(base + "/auth/cli/device/approve"@, user_code, csrf, "Authorize"@)
        + decision_form(base + "/auth/cli/device/deny"@, user_code, csrf, "Deny"@)
        + "</body></html>"@
}

fn decision_form_text(action: &str, user_code: &str, csrf: &str, label: &str) -> (r: String)
    ensures
        r@ == decision_form(action@, user_code@, csrf@, label@),
{
    let uc: String = html_escape(user_code);
    let cs: String = html_escape(csrf);
    let mut s: String = "<form method=\"post\" action=\"".to_owned();
    s.append(action);
    s.append("\" style=\"display:inline\">\n  <input type=\"hidden\" name=\"user_code\" value=\"");
    s.append(uc.as_str());
    s.append("\">\n  <input type=\"hidden\" name=\"csrf\" value=\"");
    s.append(cs.as_str());
    s.append("\">\n  <button type=\"submit\">");
    s.append(label);
    s.append("</button>\n</form>\n");
    s
}

// ---------------------------------------------------------------------------
// What the two buttons do
// ---------------------------------------------------------------------------

/// A form of a page, from its opening tag to its end, with one button: it posts
/// to `action`, sends the two fields, and its button reads `label`.
pub open spec fn posts_to(
    form: Seq<char>,
    action: Seq<char>,
    user_code: Seq<char>,
    csrf: Seq<char>,
    label: Seq<char>,
) -> bool {
    &&& stands(form, "<form"@, 0)
    &&& count_of(form, "<form"@) == 1
    &&& count_of(form, "<button"@) == 1
    &&& exists|end: int, at: int|
        #![trigger form[end], stands(form, " action=\""@ + action + "\""@, at)]
        0 <= at < end < form.len() && form[end] == '>' && !form.take(end).contains('>') && stands(
            form,
            " action=\""@ + action + "\""@,
            at,
        )
    &&& exists|at: int| #[trigger]
        stands(form, " name=\"user_code\" value=\""@ + user_code + "\""@, at)
    &&& exists|at: int| #[trigger] stands(form, " name=\"csrf\" value=\""@ + csrf + "\""@, at)
    &&& exists|at: int| #[trigger]
        stands(form, "<button type=\"submit\">"@ + label + "</button>"@, at)
    &&& stands(form, "</form>"@, form.len() - 8)
}

/// A page with two forms and no other: that whose button reads Authorize posts to
/// the handler that approves, that whose button reads Deny to the one that denies.
pub open spec fn asks_for_a_decision(
    page: Seq<char>,
    base: Seq<char>,
    user_code: Seq<char>,
    csrf: Seq<char>,
) -> bool {
    exists|front: Seq<char>, yes: Seq<char>, no: Seq<char>, back: Seq<char>|
        #![trigger front + yes + no + back]
        {
            &&& page == front + yes + no + back
            &&& count_of(front, "<form"@) == 0 && count_of(front, "<button"@) == 0
            &&& count_of(back, "<form"@) == 0 && count_of(back, "<button"@) == 0
            &&& posts_to(yes, base + "/auth/cli/device/approve"@, user_code, csrf, "Authorize"@)
            &&& posts_to(no, base + "/auth/cli/device/deny"@, user_code, csrf, "Deny"@)
        }
}

/// No form and no button begins at the first `k` places.
spec fn still(s: Seq<char>, k: nat) -> bool
    decreases k,
{
    k == 0 || (still(s, (k - 1) as nat) && !(s[k - 1] == '<' && k < s.len() && (s[k as int] == 'f' || (
    s[k as int] == 'b' && k + 1 < s.len() && s[k as int + 1] == 'u'))))
}

proof fn lemma_still(s: Seq<char>, k: nat)
    requires
        still(s, k),
        k <= s.len(),
    ensures
        count_within(s, "<form"@, k) == 0,
        count_within(s, "<button"@, k) == 0,
    decreases k,
{
    reveal_strlit("<form");
    reveal_strlit("<button");
    if k > 0 {
        lemma_still(s, (k - 1) as nat);
        let i = k - 1;
        if stands(s, "<form"@, i) {
            assert(s[i + 0] == "<form"@[0]);
            assert(s[i + 1] == "<form"@[1]);
        }
        if stands(s, "<button"@, i) {
            assert(s[i + 0] == "<button"@[0]);
            assert(s[i + 1] == "<button"@[1]);
            assert(s[i + 2] == "<button"@[2]);
        }
    }
}

/// The text holds so many forms and buttons, and does not end in an unfinished tag.
spec fn holding(s: Seq<char>, forms: nat, buttons: nat) -> bool {
    &&& count_of(s, "<form"@) == forms
    &&& count_of(s, "<button"@) == buttons
    &&& calm(s, 7)
}

proof fn lemma_patterns()
    ensures
        "<form"@.len() == 5 && "<form"@[0] == '<' && !"<form"@.contains('>'),
        "<button"@.len() == 7 && "<button"@[0] == '<' && !"<button"@.contains('>'),
{
    reveal_strlit("<form");
    reveal_strlit("<button");
}

proof fn lemma_calm_less(s: Seq<char>, n: nat, m: nat)
    requires
        calm(s, n),
        m <= n,
    ensures
        calm(s, m),
{
}

proof fn lemma_holding_joined(a: Seq<char>, b: Seq<char>, f: nat, g: nat, x: nat, y: nat)
    requires
        holding(a, f, x),
        holding(b, g, y),
    ensures
        holding(a + b, f + g, x + y),
{
    lemma_patterns();
    lemma_calm_less(a, 7, 5);
    lemma_calm_less(b, 7, 5);
    lemma_count_joined(a, b, "<form"@);
    lemma_count_joined(a, b, "<button"@);
}

proof fn lemma_holding_plain(s: Seq<char>)
    requires
        !s.contains('<'),
    ensures
        holding(s, 0, 0),
{
    reveal_strlit("<form");
    reveal_strlit("<button");
    lemma_count_plain(s, "<form"@, s.len());
    lemma_count_plain(s, "<button"@, s.len());
}

proof fn lemma_holding_still(s: Seq<char>)
    requires
        still(s, s.len()),
        calm(s, 7),
    ensures
        holding(s, 0, 0),
{
    lemma_still(s, s.len());
}

proof fn lemma_page_start_is_still()
    ensures
        still("<!doctype html><html lang=\"en\"><head><meta charset=\"utf-8\">\n<meta name=\"viewport\" content=\"width=device-width, initial-scale=1\">\n<title>Authorize CLI device</title></head>\n<body style=\"font-family:system-ui,sans-serif;max-width:32rem;margin:4rem auto;line-height:1.5\">\n<h1>Authorize a device</h1>\n<p>The client <strong>"@, "<!doctype html><html lang=\"en\"><head><meta charset=\"utf-8\">\n<meta name=\"viewport\" content=\"width=device-width, initial-scale=1\">\n<title>Authorize CLI device</title></head>\n<body style=\"font-family:system-ui,sans-serif;max-width:32rem;margin:4rem auto;line-height:1.5\">\n<h1>Authorize a device</h1>\n<p>The client <strong>"@.len()),
        calm("<!doctype html><html lang=\"en\"><head><meta charset=\"utf-8\">\n<meta name=\"viewport\" content=\"width=device-width, initial-scale=1\">\n<title>Authorize CLI device</title></head>\n<body style=\"font-family:system-ui,sans-serif;max-width:32rem;margin:4rem auto;line-height:1.5\">\n<h1>Authorize a device</h1>\n<p>The client <strong>"@, 7),
{
    reveal_strlit("<!doctype html><html lang=\"en\"><head><meta charset=\"utf-8\">\n<meta name=\"viewport\" content=\"width=device-width, initial-scale=1\">\n<title>Authorize CLI device</title></head>\n<body style=\"font-family:system-ui,sans-serif;max-width:32rem;margin:4rem auto;line-height:1.5\">\n<h1>Authorize a device</h1>\n<p>The client <strong>");
    let s = "<!doctype html><html lang=\"en\"><head><meta charset=\"utf-8\">\n<meta name=\"viewport\" content=\"width=device-width, initial-scale=1\">\n<title>Authorize CLI device</title></head>\n<body style=\"font-family:system-ui,sans-serif;max-width:32rem;margin:4rem auto;line-height:1.5\">\n<h1>Authorize a device</h1>\n<p>The client <strong>"@;
    assert(still(s, 50)) by {
        reveal_with_fuel(still, 51);
    }
    assert(still(s, 100)) by {
        reveal_with_fuel(still, 51);
    }
    assert(still(s, 150)) by {
        reveal_with_fuel(still, 51);
    }
    assert(still(s, 200)) by {
        reveal_with_fuel(still, 51);
    }
    assert(still(s, 250)) by {
        reveal_with_fuel(still, 51);
    }
    assert(still(s, 300)) by {
        reveal_with_fuel(still, 51);
    }
    assert(still(s, 319)) by {
        reveal_with_fuel(still, 20);
    }
    assert(s[318] == '>');
    assert(s.len() == 319);
}

proof fn lemma_account_is_still()
    ensures
        still("</strong> is requesting access to your drust account\n(<strong>"@, "</strong> is requesting access to your drust account\n(<strong>"@.len()),
        calm("</strong> is requesting access to your drust account\n(<strong>"@, 7),
{
    reveal_strlit("</strong> is requesting access to your drust account\n(<strong>");
    let s = "</strong> is requesting access to your drust account\n(<strong>"@;
    assert(still(s, 50)) by {
        reveal_with_fuel(still, 51);
    }
    assert(still(s, 62)) by {
        reveal_with_fuel(still, 13);
    }
    assert(s[61] == '>');
    assert(s.len() == 62);
}

proof fn lemma_code_is_still()
    ensures
        still("</strong>).</p>\n<p>Verification code: <code>"@, "</strong>).</p>\n<p>Verification code: <code>"@.len()),
        calm("</strong>).</p>\n<p>Verification code: <code>"@, 7),
{
    reveal_strlit("</strong>).</p>\n<p>Verification code: <code>");
    let s = "</strong>).</p>\n<p>Verification code: <code>"@;
    assert(still(s, 44)) by {
        reveal_with_fuel(still, 45);
    }
    assert(s[43] == '>');
    assert(s.len() == 44);
}

proof fn lemma_warning_is_still()
    ensures
        still("</code></p>\n<p>Only continue if you just started a <code>drust auth login</code> on this device.</p>\n"@, "</code></p>\n<p>Only continue if you just started a <code>drust auth login</code> on this device.</p>\n"@.len()),
        calm("</code></p>\n<p>Only continue if you just started a <code>drust auth login</code> on this device.</p>\n"@, 7),
{
    reveal_strlit("</code></p>\n<p>Only continue if you just started a <code>drust auth login</code> on this device.</p>\n");
    let s = "</code></p>\n<p>Only continue if you just started a <code>drust auth login</code> on this device.</p>\n"@;
    assert(still(s, 50)) by {
        reveal_with_fuel(still, 51);
    }
    assert(still(s, 100)) by {
        reveal_with_fuel(still, 51);
    }
    assert(still(s, 101)) by {
        reveal_with_fuel(still, 2);
    }
    assert(s[99] == '>');
    assert(s.len() == 101);
}

proof fn lemma_page_end_is_still()
    ensures
        still("</body></html>"@, "</body></html>"@.len()),
        calm("</body></html>"@, 7),
{
    reveal_strlit("</body></html>");
    let s = "</body></html>"@;
    assert(still(s, 14)) by {
        reveal_with_fuel(still, 15);
    }
    assert(s[13] == '>');
    assert(s.len() == 14);
}

proof fn lemma_first_field_is_still()
    ensures
        still("\" style=\"display:inline\">\n  <input type=\"hidden\" name=\"user_code\" value=\""@, "\" style=\"display:inline\">\n  <input type=\"hidden\" name=\"user_code\" value=\""@.len()),
        calm("\" style=\"display:inline\">\n  <input type=\"hidden\" name=\"user_code\" value=\""@, 7),
{
    reveal_strlit("\" style=\"display:inline\">\n  <input type=\"hidden\" name=\"user_code\" value=\"");
    let s = "\" style=\"display:inline\">\n  <input type=\"hidden\" name=\"user_code\" value=\""@;
    assert(still(s, 50)) by {
        reveal_with_fuel(still, 51);
    }
    assert(still(s, 73)) by {
        reveal_with_fuel(still, 24);
    }
    assert(s.len() == 73);
}

proof fn lemma_second_field_is_still()
    ensures
        still("\">\n  <input type=\"hidden\" name=\"csrf\" value=\""@, "\">\n  <input type=\"hidden\" name=\"csrf\" value=\""@.len()),
        calm("\">\n  <input type=\"hidden\" name=\"csrf\" value=\""@, 7),
{
    reveal_strlit("\">\n  <input type=\"hidden\" name=\"csrf\" value=\"");
    let s = "\">\n  <input type=\"hidden\" name=\"csrf\" value=\""@;
    assert(still(s, 45)) by {
        reveal_with_fuel(still, 46);
    }
    assert(s.len() == 45);
}

proof fn lemma_form_end_is_still()
    ensures
        still("</button>\n</form>\n"@, "</button>\n</form>\n"@.len()),
        calm("</button>\n</form>\n"@, 7),
{
    reveal_strlit("</button>\n</form>\n");
    let s = "</button>\n</form>\n"@;
    assert(still(s, 18)) by {
        reveal_with_fuel(still, 19);
    }
    assert(s[16] == '>');
    assert(s.len() == 18);
}

proof fn lemma_form_start()
    ensures
        holding("<form method=\"post\" action=\""@, 1, 0),
        stands("<form method=\"post\" action=\""@, "<form"@, 0),
{
    reveal_strlit("<form method=\"post\" action=\"");
    reveal_strlit("<form");
    reveal_strlit("<button");
    let s = "<form method=\"post\" action=\""@;
    assert(alone(s, 0, 28)) by {
        reveal_with_fuel(alone, 29);
    }
    lemma_alone(s, 0, 28);
    lemma_count_single(s, "<form"@, 0, s.len());
    lemma_no_other(s, "<button"@, 0, s.len());
}

proof fn lemma_button_start()
    ensures
        holding("\">\n  <button type=\"submit\">"@, 0, 1),
{
    reveal_strlit("\">\n  <button type=\"submit\">");
    reveal_strlit("<form");
    reveal_strlit("<button");
    let s = "\">\n  <button type=\"submit\">"@;
    assert(alone(s, 5, 27)) by {
        reveal_with_fuel(alone, 28);
    }
    lemma_alone(s, 5, 27);
    assert(stands(s, "<button"@, 5));
    lemma_count_single(s, "<button"@, 5, s.len());
    lemma_no_other(s, "<form"@, 5, s.len());
}

/// No `<` stands at the first `k` places but at `at`.
spec fn alone(s: Seq<char>, at: int, k: nat) -> bool
    decreases k,
{
    k == 0 || (alone(s, at, (k - 1) as nat) && (k - 1 == at || s[k - 1] != '<'))
}

proof fn lemma_alone(s: Seq<char>, at: int, k: nat)
    requires
        alone(s, at, k),
    ensures
        forall|i: int| 0 <= i < k && i != at ==> #[trigger] s[i] != '<',
    decreases k,
{
    if k > 0 {
        lemma_alone(s, at, (k - 1) as nat);
    }
}

proof fn lemma_no_other(s: Seq<char>, p: Seq<char>, at: int, k: nat)
    requires
        p.len() > 1,
        p[0] == '<',
        0 <= at,
        at + 1 < s.len(),
        s[at + 1] != p[1],
        forall|i: int| 0 <= i < s.len() && i != at ==> #[trigger] s[i] != '<',
        k <= s.len(),
    ensures
        count_within(s, p, k) == 0,
    decreases k,
{
    if k > 0 {
        lemma_no_other(s, p, at, (k - 1) as nat);
        if stands(s, p, k - 1) {
            assert(s[k - 1 + 0] == p[0]);
            assert(s[k - 1 + 1] == p[1]);
        }
    }
}

proof fn lemma_joined_stands(a: Seq<char>, p: Seq<char>, b: Seq<char>)
    ensures
        stands(a + p + b, p, a.len() as int),
{
}

proof fn lemma_form_counts(action: Seq<char>, u: Seq<char>, c: Seq<char>, label: Seq<char>)
    requires
        !action.contains('<'),
        !u.contains('<'),
        !c.contains('<'),
        !label.contains('<'),
    ensures
        holding(
            "<form method=\"post\" action=\""@ + action + "\" style=\"display:inline\">\n  <input type=\"hidden\" name=\"user_code\" value=\""@ + u + "\">\n  <input type=\"hidden\" name=\"csrf\" value=\""@ + c + "\">\n  <button type=\"submit\">"@ + label + "</button>\n</form>\n"@,
            1,
            1,
        ),
{
    let g1 = "<form method=\"post\" action=\""@;
    let g2 = "\" style=\"display:inline\">\n  <input type=\"hidden\" name=\"user_code\" value=\""@;
    let g3 = "\">\n  <input type=\"hidden\" name=\"csrf\" value=\""@;
    let g4 = "\">\n  <button type=\"submit\">"@;
    let g5 = "</button>\n</form>\n"@;
    lemma_form_start();
    lemma_button_start();
    lemma_first_field_is_still();
    lemma_second_field_is_still();
    lemma_form_end_is_still();
    lemma_holding_still(g2);
    lemma_holding_still(g3);
    lemma_holding_still(g5);
    lemma_holding_plain(action);
    lemma_holding_plain(u);
    lemma_holding_plain(c);
    lemma_holding_plain(label);
    lemma_holding_joined(g1, action, 1, 0, 0, 0);
    lemma_holding_joined(g1 + action, g2, 1, 0, 0, 0);
    lemma_holding_joined(g1 + action + g2, u, 1, 0, 0, 0);
    lemma_holding_joined(g1 + action + g2 + u, g3, 1, 0, 0, 0);
    lemma_holding_joined(g1 + action + g2 + u + g3, c, 1, 0, 0, 0);
    lemma_holding_joined(g1 + action + g2 + u + g3 + c, g4, 1, 0, 0, 1);
    lemma_holding_joined(g1 + action + g2 + u + g3 + c + g4, label, 1, 0, 1, 0);
    lemma_holding_joined(g1 + action + g2 + u + g3 + c + g4 + label, g5, 1, 0, 1, 0);
}

/// A quoted value that begins where one text ends and ends where the next begins.
proof fn lemma_value_stands(
    form: Seq<char>,
    before: Seq<char>,
    mark: Seq<char>,
    value: Seq<char>,
    after: Seq<char>,
)
    requires
        form == before + mark + value + after,
        after.len() > 0,
        after[0] == '"',
    ensures
        stands(form, mark + value + "\""@, before.len() as int),
{
    reveal_strlit("\"");
    let p = mark + value + "\""@;
    assert(form =~= before + p + after.skip(1));
    lemma_joined_stands(before, p, after.skip(1));
}

proof fn lemma_opening_tag(action: Seq<char>, rest: Seq<char>)
    requires
        !action.contains('>'),
    ensures
        ({
            let form = "<form method=\"post\" action=\""@ + action + "\" style=\"display:inline\">\n  <input type=\"hidden\" name=\"user_code\" value=\""@ + rest;
            &&& stands(form, "<form"@, 0)
            &&& exists|end: int, at: int|
                #![trigger form[end], stands(form, " action=\""@ + action + "\""@, at)]
                0 <= at < end < form.len() && form[end] == '>' && !form.take(end).contains('>') && stands(
                    form,
                    " action=\""@ + action + "\""@,
                    at,
                )
        }),
{
    let g1 = "<form method=\"post\" action=\""@;
    let g2 = "\" style=\"display:inline\">\n  <input type=\"hidden\" name=\"user_code\" value=\""@;
    let form = g1 + action + g2 + rest;
    let na = action.len() as int;
    reveal_strlit("<form method=\"post\" action=\"");
    reveal_strlit("\" style=\"display:inline\">\n  <input type=\"hidden\" name=\"user_code\" value=\"");
    reveal_strlit(" action=\"");
    lemma_form_start();
    assert(stands(form, "<form"@, 0)) by {
        reveal_strlit("<form");
        assert forall|j: int| 0 <= j < 5 implies #[trigger] form[0 + j] == "<form"@[j] by {
            assert(g1[0 + j] == "<form"@[j]);
            assert(form[j] == g1[j]);
        }
    }
    let head = g1.take(19);
    assert(g1 =~= head + " action=\""@);
    assert(form =~= head + " action=\""@ + action + (g2 + rest));
    lemma_value_stands(form, head, " action=\""@, action, g2 + rest);
    let end = 28 + na + 24;
    assert(form[end] == g2[24]);
    assert(!form.take(end).contains('>')) by {
        assert forall|i: int| 0 <= i < end implies form[i] != '>' by {
            if i < 28 {
                assert(form[i] == g1[i]);
            } else if i < 28 + na {
                assert(form[i] == action[i - 28]);
                assert(action.contains(action[i - 28]));
            } else {
                assert(form[i] == g2[i - 28 - na]);
            }
        }
    }
}

proof fn lemma_first_field(front: Seq<char>, u: Seq<char>, rest: Seq<char>)
    ensures
        exists|at: int| #[trigger]
            stands(
                front + "\" style=\"display:inline\">\n  <input type=\"hidden\" name=\"user_code\" value=\""@ + u + "\">\n  <input type=\"hidden\" name=\"csrf\" value=\""@ + rest,
                " name=\"user_code\" value=\""@ + u + "\""@,
                at,
            ),
{
    let g2 = "\" style=\"display:inline\">\n  <input type=\"hidden\" name=\"user_code\" value=\""@;
    let g3 = "\">\n  <input type=\"hidden\" name=\"csrf\" value=\""@;
    let mark = " name=\"user_code\" value=\""@;
    let form = front + g2 + u + g3 + rest;
    reveal_strlit("\" style=\"display:inline\">\n  <input type=\"hidden\" name=\"user_code\" value=\"");
    reveal_strlit("\">\n  <input type=\"hidden\" name=\"csrf\" value=\"");
    reveal_strlit(" name=\"user_code\" value=\"");
    let head = g2.take(48);
    assert(g2 =~= head + mark);
    assert(form =~= (front + head) + mark + u + (g3 + rest));
    lemma_value_stands(form, front + head, mark, u, g3 + rest);
}

proof fn lemma_second_field(front: Seq<char>, c: Seq<char>, rest: Seq<char>)
    ensures
        exists|at: int| #[trigger]
            stands(
                front + "\">\n  <input type=\"hidden\" name=\"csrf\" value=\""@ + c + "\">\n  <button type=\"submit\">"@ + rest,
                " name=\"csrf\" value=\""@ + c + "\""@,
                at,
            ),
{
    let g3 = "\">\n  <input type=\"hidden\" name=\"csrf\" value=\""@;
    let g4 = "\">\n  <button type=\"submit\">"@;
    let mark = " name=\"csrf\" value=\""@;
    let form = front + g3 + c + g4 + rest;
    reveal_strlit("\">\n  <input type=\"hidden\" name=\"csrf\" value=\"");
    reveal_strlit("\">\n  <button type=\"submit\">");
    reveal_strlit(" name=\"csrf\" value=\"");
    let head = g3.take(25);
    assert(g3 =~= head + mark);
    assert(form =~= (front + head) + mark + c + (g4 + rest));
    lemma_value_stands(form, front + head, mark, c, g4 + rest);
}

proof fn lemma_button(front: Seq<char>, label: Seq<char>)
    ensures
        ({
            let form = front + "\">\n  <button type=\"submit\">"@ + label + "</button>\n</form>\n"@;
            &&& exists|at: int| #[trigger]
                stands(form, "<button type=\"submit\">"@ + label + "</button>"@, at)
            &&& stands(form, "</form>"@, form.len() - 8)
        }),
{
    let g4 = "\">\n  <button type=\"submit\">"@;
    let g5 = "</button>\n</form>\n"@;
    let form = front + g4 + label + g5;
    reveal_strlit("\">\n  <button type=\"submit\">");
    reveal_strlit("</button>\n</form>\n");
    reveal_strlit("<button type=\"submit\">");
    reveal_strlit("</button>");
    reveal_strlit("</form>");
    let p = "<button type=\"submit\">"@ + label + "</button>"@;
    assert(g4 =~= g4.take(5) + "<button type=\"submit\">"@);
    assert(g5 =~= "</button>"@ + g5.skip(9));
    assert(form =~= (front + g4.take(5)) + p + g5.skip(9));
    lemma_joined_stands(front + g4.take(5), p, g5.skip(9));
    let o = form.len() - 8;
    assert forall|j: int| 0 <= j < 7 implies #[trigger] form[o + j] == "</form>"@[j] by {
        assert(form[o + j] == g5[g5.len() - 8 + j]);
    }
}

/// One of the two forms posts to its action, for every action without markup.
proof fn lemma_decision_form(action: Seq<char>, user_code: Seq<char>, csrf: Seq<char>, label: Seq<char>)
    requires
        !action.contains('<'),
        !action.contains('>'),
        !label.contains('<'),
    ensures
        posts_to(
            decision_form(action, user_code, csrf, label),
            action,
            html_text(user_code),
            html_text(csrf),
            label,
        ),
{
    let g1 = "<form method=\"post\" action=\""@;
    let g2 = "\" style=\"display:inline\">\n  <input type=\"hidden\" name=\"user_code\" value=\""@;
    let g3 = "\">\n  <input type=\"hidden\" name=\"csrf\" value=\""@;
    let g4 = "\">\n  <button type=\"submit\">"@;
    let g5 = "</button>\n</form>\n"@;
    let u = html_text(user_code);
    let c = html_text(csrf);
    law_html_text_is_inert(user_code);
    law_html_text_is_inert(csrf);
    let form = decision_form(action, user_code, csrf, label);
    lemma_form_counts(action, u, c, label);
    assert(form =~= g1 + action + g2 + (u + g3 + c + g4 + label + g5));
    lemma_opening_tag(action, u + g3 + c + g4 + label + g5);
    assert(form =~= (g1 + action) + g2 + u + g3 + (c + g4 + label + g5));
    lemma_first_field(g1 + action, u, c + g4 + label + g5);
    assert(form =~= (g1 + action + g2 + u) + g3 + c + g4 + (label + g5));
    lemma_second_field(g1 + action + g2 + u, c, label + g5);
    assert(form =~= (g1 + action + g2 + u + g3 + c) + g4 + label + g5);
    lemma_button(g1 + action + g2 + u + g3 + c, label);
}

/// The approval page asks for a decision: its button Authorize approves and its
/// button Deny denies, whatever the client calls itself.
pub proof fn law_buttons_do_what_they_say(
    base: Seq<char>,
    client_name: Seq<char>,
    email: Option<Seq<char>>,
    user_code: Seq<char>,
    csrf: Seq<char>,
)
    requires
        !base.contains('<'),
        !base.contains('>'),
    ensures
        asks_for_a_decision(
            approval_page(base, client_name, email, user_code, csrf),
            base,
            html_text(user_code),
            html_text(csrf),
        ),
{
    let f1 = "<!doctype html><html lang=\"en\"><head><meta charset=\"utf-8\">\n<meta name=\"viewport\" content=\"width=device-width, initial-scale=1\">\n<title>Authorize CLI device</title></head>\n<body style=\"font-family:system-ui,sans-serif;max-width:32rem;margin:4rem auto;line-height:1.5\">\n<h1>Authorize a device</h1>\n<p>The client <strong>"@;
    let f2 = "</strong> is requesting access to your drust account\n(<strong>"@;
    let f3 = "</strong>).</p>\n<p>Verification code: <code>"@;
    let f4 = "</code></p>\n<p>Only continue if you just started a <code>drust auth login</code> on this device.</p>\n"@;
    let back = "</body></html>"@;
    let cn = html_text(client_name);
    let uc = html_text(user_code);
    let account = match email {
        Some(e) => e,
        None => "this account"@,
    };
    let who = html_text(account);
    law_html_text_is_inert(client_name);
    law_html_text_is_inert(user_code);
    law_html_text_is_inert(account);
    lemma_page_start_is_still();
    lemma_account_is_still();
    lemma_code_is_still();
    lemma_warning_is_still();
    lemma_page_end_is_still();
    lemma_holding_still(f1);
    lemma_holding_still(f2);
    lemma_holding_still(f3);
    lemma_holding_still(f4);
    lemma_holding_still(back);
    lemma_holding_plain(cn);
    lemma_holding_plain(who);
    lemma_holding_plain(uc);
    lemma_holding_joined(f1, cn, 0, 0, 0, 0);
    lemma_holding_joined(f1 + cn, f2, 0, 0, 0, 0);
    lemma_holding_joined(f1 + cn + f2, who, 0, 0, 0, 0);
    lemma_holding_joined(f1 + cn + f2 + who, f3, 0, 0, 0, 0);
    lemma_holding_joined(f1 + cn + f2 + who + f3, uc, 0, 0, 0, 0);
    lemma_holding_joined(f1 + cn + f2 + who + f3 + uc, f4, 0, 0, 0, 0);
    let front = f1 + cn + f2 + who + f3 + uc + f4;
    let approve = base + "/auth/cli/device/approve"@;
    let deny = base + "/auth/cli/device/deny"@;
    reveal_strlit("/auth/cli/device/approve");
    reveal_strlit("/auth/cli/device/deny");
    reveal_strlit("Authorize");
    reveal_strlit("Deny");
    lemma_no_markup(base, "/auth/cli/device/approve"@);
    lemma_no_markup(base, "/auth/cli/device/deny"@);
    lemma_decision_form(approve, user_code, csrf, "Authorize"@);
    lemma_decision_form(deny, user_code, csrf, "Deny"@);
    let yes = decision_form(approve, user_code, csrf, "Authorize"@);
    let no = decision_form(deny, user_code, csrf, "Deny"@);
    assert(approval_page(base, client_name, email, user_code, csrf) == front + yes + no + back);
}

proof fn lemma_no_markup(a: Seq<char>, b: Seq<char>)
    requires
        !a.contains('<'),
        !a.contains('>'),
        forall|i: int| 0 <= i < b.len() ==> b[i] != '<' && b[i] != '>',
    ensures
        !(a + b).contains('<'),
        !(a + b).contains('>'),
{
    let s = a + b;
    assert forall|i: int| 0 <= i < s.len() implies s[i] != '<' && s[i] != '>' by {
        if i < a.len() {
            assert(s[i] == a[i]);
            assert(a.contains(a[i]));
        } else {
            assert(s[i] == b[i - a.len()]);
        }
    }
}

/// Renders the page that asks an administrator to confirm a user code.
/// Nothing that a client sends reaches the page unescaped.
pub fn render_approval_page(
    base: &str,
    client_name: &str,
    email: Option<&str>,
    user_code: &str,
    csrf: &str,
) -> (r: String)
    ensures
        r@ == approval_page(
            base@,
            client_name@,
            match email {
                Some(e) => Some(e@),
                None => None,
            },
            user_code@,
            csrf@,
        ),
        !base@.contains('<') && !base@.contains('>') ==> asks_for_a_decision(
            r@,
            base@,
            html_text(user_code@),
            html_text(csrf@),
        ),
{
    proof {
        if !base@.contains('<') && !base@.contains('>') {
            law_buttons_do_what_they_say(
                base@,
                client_name@,
                match email {
                    Some(e) => Some(e@),
                    None => None,
                },
                user_code@,
                csrf@,
            );
        }
    }
    let approve: String = concat2(base, "/auth/cli/device/approve");
    let deny: String = concat2(base, "/auth/cli/device/deny");
    let cn: String = html_escape(client_name);
    let uc: String = html_escape(user_code);
    let who: String = match email {
        Some(e) => html_escape(e),
        None => html_escape("this account"),
    };
    let mut s: String =
        "<!doctype html><html lang=\"en\"><head><meta charset=\"utf-8\">\n<meta name=\"viewport\" content=\"width=device-width, initial-scale=1\">\n<title>Authorize CLI device</title></head>\n<body style=\"font-family:system-ui,sans-serif;max-width:32rem;margin:4rem auto;line-height:1.5\">\n<h1>Authorize a device</h1>\n<p>The client <strong>".to_owned();
    s.append(cn.as_str());
    s.append("</strong> is requesting access to your drust account\n(<strong>");
    s.append(who.as_str());
    s.append("</strong>).</p>\n<p>Verification code: <code>");
    s.append(uc.as_str());
    s.append(
        "</code></p>\n<p>Only continue if you just started a <code>drust auth login</code> on this device.</p>\n",
    );
    s.append(decision_form_text(approve.as_str(), user_code, csrf, "Authorize").as_str());
    s.append(decision_form_text(deny.as_str(), user_code, csrf, "Deny").as_str());
    s.append("</body></html>");
    s
}

/// The page for a user code that is unknown, used or past its end.
pub open spec fn not_found_page() -> Seq<char> {
    "<!doctype html><html lang=\"en\"><head><meta charset=\"utf-8\">\n<title>Code not found</title></head>\n<body style=\"font-family:system-ui,sans-serif;max-width:32rem;margin:4rem auto\">\n<h1>Code not found or expired</h1>\n<p>This verification code is unknown, already used, or has expired. Start a new\n<code>drust auth login</code> and try again.</p>\n</body></html>"@
}

pub fn render_not_found_page() -> (r: String)
    ensures
        r@ == not_found_page(),
{
    "<!doctype html><html lang=\"en\"><head><meta charset=\"utf-8\">\n<title>Code not found</title></head>\n<body style=\"font-family:system-ui,sans-serif;max-width:32rem;margin:4rem auto\">\n<h1>Code not found or expired</h1>\n<p>This verification code is unknown, already used, or has expired. Start a new\n<code>drust auth login</code> and try again.</p>\n</body></html>".to_owned()
}

/// The page after a refusal.
pub open spec fn denied_page() -> Seq<char> {
    "<!doctype html><html lang=\"en\"><head><meta charset=\"utf-8\">\n<title>Request denied</title></head>\n<body style=\"font-family:system-ui,sans-serif;max-width:32rem;margin:4rem auto\">\n<h1>Request denied</h1>\n<p>The device authorization request was denied. You can close this window.</p>\n</body></html>"@
}

pub fn render_denied_page() -> (r: String)
    ensures
        r@ == denied_page(),
{
    "<!doctype html><html lang=\"en\"><head><meta charset=\"utf-8\">\n<title>Request denied</title></head>\n<body style=\"font-family:system-ui,sans-serif;max-width:32rem;margin:4rem auto\">\n<h1>Request denied</h1>\n<p>The device authorization request was denied. You can close this window.</p>\n</body></html>".to_owned()
}

/// The page after an approval.
pub open spec fn approved_page() -> Seq<char> {
    "<!doctype html><html lang=\"en\"><head><meta charset=\"utf-8\">\n<title>Device authorized</title></head>\n<body style=\"font-family:system-ui,sans-serif;max-width:32rem;margin:4rem auto\">\n<h1>Device authorized</h1>\n<p>You have authorized the CLI device. Return to your terminal — it will pick up\nthe credential automatically. You can close this window.</p>\n</body></html>"@
}

pub fn render_approved_page() -> (r: String)
    ensures
        r@ == approved_page(),
{
    "<!doctype html><html lang=\"en\"><head><meta charset=\"utf-8\">\n<title>Device authorized</title></head>\n<body style=\"font-family:system-ui,sans-serif;max-width:32rem;margin:4rem auto\">\n<h1>Device authorized</h1>\n<p>You have authorized the CLI device. Return to your terminal — it will pick up\nthe credential automatically. You can close this window.</p>\n</body></html>".to_owned()
}

/// The page that a visitor with a user code sees, and the cookie that goes
/// with it. `client_name` is that of the pending login of the code, if there
/// is one in time.
pub fn device_page(
    secret: &[u8],
    base: &str,
    cookie_path: &str,
    secure: bool,
    user_code: &str,
    client_name: Option<&str>,
    email: Option<&str>,
) -> (r: (String, Option<String>))
    ensures
        match client_name {
            None => r.1 is None && r.0@ == not_found_page(),
            Some(name) => {
                &&& r.0@ == approval_page(
                    base@,
                    name@,
                    match email {
                        Some(e) => Some(e@),
                        None => None,
                    },
                    user_code@,
                    csrf_token(secret@, user_code@),
                )
                &&& r.1 matches Some(c)
                &&& c@ == "drust_cli_csrf="@ + csrf_token(secret@, user_code@) + "; Path="@
                    + cookie_path@ + "; HttpOnly; SameSite=Lax"@ + (if secure {
                    "; Secure"@
                } else {
                    Seq::<char>::empty()
                })
            },
        },
{
    match client_name {
        None => (render_not_found_page(), None),
        Some(name) => {
            let csrf: String = csrf_for(secret, user_code);
            let page: String = render_approval_page(base, name, email, user_code, csrf.as_str());
            let cookie: String = build_csrf_cookie(csrf.as_str(), cookie_path, secure);
            (page, Some(cookie))
        },
    }
}

/// The note about a login that an administrator denied.
pub fn deny_note(admin_id: i64, user_code: &str) -> (r: AuditNote)
    ensures
        r@ == done(
            "POST /auth/cli/device/deny"@,
            seq![
                ("admin_id"@, FieldView::Number(admin_id as int)),
                ("user_code"@, FieldView::Text(user_code@)),
            ],
        ),
{
    let mut extra: Vec<(String, Field)> = Vec::new();
    extra.push(number_field("admin_id", admin_id));
    extra.push(text_field("user_code", user_code));
    assert(field_views(extra@) =~= seq![
        ("admin_id"@, FieldView::Number(admin_id as int)),
        ("user_code"@, FieldView::Text(user_code@)),
    ]);
    note_done("POST /auth/cli/device/deny", extra)
}

/// What follows the attempt to approve a login.
#[derive(Debug)]
pub enum ApproveNext {
    /// There is no such pending login in time.
    NotFound(String),
    Refused(Refusal),
    /// The row was approved: the page to send and the note to write.
    Approved { page: String, note: AuditNote },
}

/// Stores the drawn token that an approval gives to a client, labelled with the
/// name of the client and ending after so many seconds.
pub fn approved_token(admin_id: i64, client_name: &str, plaintext: &str, ttl_secs: i64) -> (r:
    PatCommand)
    ensures
        r@ == (PatCommandView::Insert {
            admin_id: admin_id as int,
            hash: token_hash(plaintext@),
            plaintext: plaintext@,
            label: Some(client_name@),
            ttl_secs: Some(ttl_secs as int),
        }),
{
    PatCommand::Insert {
        admin_id,
        hash: sha256_b64(plaintext),
        plaintext: plaintext.to_owned(),
        label: Some(client_name.to_owned()),
        ttl_secs: Some(ttl_secs),
    }
}

/// Answers an approval. `client_name` is that of the pending login of the
/// code, if there is one in time; `minted` says whether its token was made.
pub fn device_approve(admin_id: i64, client_name: Option<&str>, minted: bool) -> (r: ApproveNext)
    ensures
        match client_name {
            None => r matches ApproveNext::NotFound(p) && p@ == not_found_page(),
            Some(name) => if !minted {
                r matches ApproveNext::Refused(e) && e@ == refusal(
                    500,
                    "DEVICE_MINT_FAILED"@,
                    "could not mint CLI token"@,
                )
            } else {
                r matches ApproveNext::Approved { page, note } && page@ == approved_page() && note@
                    == done(
                    "POST /auth/cli/device/approve"@,
                    seq![
                        ("admin_id"@, FieldView::Number(admin_id as int)),
                        ("client_name"@, FieldView::Text(name@)),
                    ],
                )
            },
        },
{
    match client_name {
        None => ApproveNext::NotFound(render_not_found_page()),
        Some(name) => {
            if !minted {
                return ApproveNext::Refused(
                    refuse(500, "DEVICE_MINT_FAILED", "could not mint CLI token"),
                );
            }
            let mut extra: Vec<(String, Field)> = Vec::new();
            extra.push(number_field("admin_id", admin_id));
            extra.push(text_field("client_name", name));
            assert(field_views(extra@) =~= seq![
                ("admin_id"@, FieldView::Number(admin_id as int)),
                ("client_name"@, FieldView::Text(name@)),
            ]);
            ApproveNext::Approved {
                page: render_approved_page(),
                note: note_done("POST /auth/cli/device/approve", extra),
            }
        },
    }
}

/// A poll of a login hands the token on exactly while the login is approved and in time.
/// One that was denied is told so, one that is over or used up is told that it has
/// expired, and one that waits is told to wait, or to wait longer where it comes within
/// five seconds of the one before.
pub proof fn law_polls_tell_what_became_of_the_login(p: PollRow, r: PollStep)
    requires
        poll_decision(Ok(Some(p)), r),
    ensures
        r is Redeem <==> hands_out(
            DeviceRowView { status: p.status@, expired: p.expired, minted: None },
        ),
        p.expired || p.status@ == "redeemed"@ ==> tells(r, "expired"@) && r is Answer,
        !p.expired && p.status@ == "denied"@ ==> tells(r, "denied"@) && r is Answer,
        !p.expired && p.status@ == "pending"@ && p.since_last_ms is None ==> tells(r, "pending"@)
            && r is Touch,
        !p.expired && p.status@ == "pending"@ && p.since_last_ms is Some && p.since_last_ms->0
            >= 5000 ==> tells(r, "pending"@) && r is Touch,
        !p.expired && p.status@ == "pending"@ && p.since_last_ms is Some && p.since_last_ms->0
            < 5000 ==> tells(r, "slow_down"@) && r is Touch,
{
    lemma_statuses_differ();
}

/// A step that sends that status.
pub open spec fn tells(r: PollStep, status: Seq<char>) -> bool {
    match r {
        PollStep::Answer(a) => says(a, status),
        PollStep::Touch(a) => says(a, status),
        PollStep::Redeem => false,
    }
}

/// An approval of a login that waits makes the next poll hand out the token that was
/// made for it; a denial makes it hand out none.
pub proof fn law_decisions_take_effect(row: DeviceRowView, token: int)
    requires
        row.status == "pending"@,
        !row.expired,
    ensures
        hands_out(device_after(row, DeviceEvent::Approve { token })),
        device_after(row, DeviceEvent::Approve { token }).minted == Some(token),
        !hands_out(device_after(row, DeviceEvent::Deny)),
        device_after(device_after(row, DeviceEvent::Deny), DeviceEvent::Approve { token })
            == device_after(row, DeviceEvent::Deny),
{
    lemma_statuses_differ();
}

/// A form counts where it brings the token of its user code, and the cookie brings the
/// same; with any other token, or another cookie, it does not.
pub proof fn law_forms_need_their_token(
    cookie: Option<Seq<char>>,
    form_csrf: Seq<char>,
    secret: Seq<u8>,
    user_code: Seq<char>,
)
    ensures
        csrf_ok(cookie, form_csrf, csrf_token(secret, user_code)) ==> form_csrf == csrf_token(
            secret,
            user_code,
        ) && cookie == Some(csrf_token(secret, user_code)),
        csrf_token(secret, user_code).len() > 0 ==> csrf_ok(
            Some(csrf_token(secret, user_code)),
            csrf_token(secret, user_code),
            csrf_token(secret, user_code),
        ),
        !csrf_ok(cookie, Seq::<char>::empty(), form_csrf),
        !csrf_ok(None, form_csrf, csrf_token(secret, user_code)),
{
}

/// The first cookie of a name is the one that is read, whatever stands around it.
pub proof fn law_first_cookie_of_a_name_is_read(
    parts: Seq<Seq<char>>,
    i: int,
    name: Seq<char>,
    value: Seq<char>,
)
    requires
        0 <= i < parts.len(),
        !name.contains('='),
        trimmed(parts[i]) == name + seq!['='] + value,
        forall|j: int|
            0 <= j < i ==> trimmed(#[trigger] parts[j]).take(
                find_char(trimmed(parts[j]), '=') as int,
            ) != name,
    ensures
        pair_value(parts, name) == Some(value),
    decreases parts.len(),
{
    if i == 0 {
        let p = trimmed(parts[0]);
        let n = name.len() as int;
        assert forall|j: int| 0 <= j < n implies p[j] != '=' by {
            assert(p[j] == name[j]);
            assert(name.contains(name[j]));
        }
        assert(p[n] == '=');
        lemma_find_char_is(p, '=', n);
        assert(p.take(n) =~= name);
        assert(p.skip(n + 1) =~= value);
    } else {
        let rest = parts.drop_first();
        assert(trimmed(parts[0]).take(find_char(trimmed(parts[0]), '=') as int) != name);
        assert forall|j: int| 0 <= j < i - 1 implies trimmed(#[trigger] rest[j]).take(
            find_char(trimmed(rest[j]), '=') as int,
        ) != name by {
            assert(rest[j] == parts[j + 1]);
        }
        assert(rest[i - 1] == parts[i]);
        law_first_cookie_of_a_name_is_read(rest, i - 1, name, value);
    }
}

/// A client goes by what it calls itself, without the blanks around it.
pub proof fn law_clients_are_called_as_they_say(name: Seq<char>)
    ensures
        trimmed(name).len() > 0 ==> client_name_of(Some(name)) == trimmed(name),
        trimmed(name).len() == 0 ==> client_name_of(Some(name)) == client_name_of(None),
        client_name_of(None) == "drust-cli"@,
{
}

/// The page after an approval says so, that after a denial says that, and that for an
/// unknown code neither.
pub proof fn law_pages_say_what_was_decided()
    ensures
        has_part(approved_page(), "<h1>Device authorized</h1>"@),
        has_part(denied_page(), "<h1>Request denied</h1>"@),
        has_part(not_found_page(), "<h1>Code not found or expired</h1>"@),
{
    lemma_approved_page();
    lemma_denied_page();
    lemma_not_found_page();
}

proof fn lemma_approved_page()
    ensures
        has_part(approved_page(), "<h1>Device authorized</h1>"@),
{
    reveal_strlit("<h1>Device authorized</h1>");
    reveal_strlit(
        "<!doctype html><html lang=\"en\"><head><meta charset=\"utf-8\">\n<title>Device authorized</title></head>\n<body style=\"font-family:system-ui,sans-serif;max-width:32rem;margin:4rem auto\">\n<h1>Device authorized</h1>\n<p>You have authorized the CLI device. Return to your terminal — it will pick up\nthe credential automatically. You can close this window.</p>\n</body></html>",
    );
    assert(approved_page().subrange(181, 207) =~= "<h1>Device authorized</h1>"@);
    assert(stands_at(approved_page(), "<h1>Device authorized</h1>"@, 181));
}

proof fn lemma_denied_page()
    ensures
        has_part(denied_page(), "<h1>Request denied</h1>"@),
{
    reveal_strlit("<h1>Request denied</h1>");
    reveal_strlit(
        "<!doctype html><html lang=\"en\"><head><meta charset=\"utf-8\">\n<title>Request denied</title></head>\n<body style=\"font-family:system-ui,sans-serif;max-width:32rem;margin:4rem auto\">\n<h1>Request denied</h1>\n<p>The device authorization request was denied. You can close this window.</p>\n</body></html>",
    );
    assert(denied_page().subrange(178, 201) =~= "<h1>Request denied</h1>"@);
    assert(stands_at(denied_page(), "<h1>Request denied</h1>"@, 178));
}

proof fn lemma_not_found_page()
    ensures
        has_part(not_found_page(), "<h1>Code not found or expired</h1>"@),
{
    reveal_strlit("<h1>Code not found or expired</h1>");
    reveal_strlit(
        "<!doctype html><html lang=\"en\"><head><meta charset=\"utf-8\">\n<title>Code not found</title></head>\n<body style=\"font-family:system-ui,sans-serif;max-width:32rem;margin:4rem auto\">\n<h1>Code not found or expired</h1>\n<p>This verification code is unknown, already used, or has expired. Start a new\n<code>drust auth login</code> and try again.</p>\n</body></html>",
    );
    assert(not_found_page().subrange(178, 212)
        =~= "<h1>Code not found or expired</h1>"@);
    assert(stands_at(not_found_page(), "<h1>Code not found or expired</h1>"@, 178));
}

/// A poll for a code that is not known is answered as one for a code that has expired; one
/// that could not be looked up is refused and hands out nothing.
pub proof fn law_unknown_codes_look_expired(r: PollStep)
    ensures
        poll_decision(Ok(None), r) ==> tells(r, "expired"@) && r is Answer,
        poll_decision(Err(()), r) ==> (r matches PollStep::Answer(PollAnswer::Refused(e)) && e@.status
            == 500 && e@.code == "DEVICE_POLL_FAILED"@ && e@.message == "device poll failed"@),
{
}

/// A cookie that nobody sent is not read: what has no equals sign is no cookie.
pub proof fn law_missing_cookies_are_not_read(parts: Seq<Seq<char>>, name: Seq<char>)
    requires
        forall|j: int|
            0 <= j < parts.len() ==> {
                let p = trimmed(#[trigger] parts[j]);
                let i = find_char(p, '=') as int;
                i == p.len() || p.take(i) != name
            },
    ensures
        pair_value(parts, name) is None,
    decreases parts.len(),
{
    if parts.len() > 0 {
        let rest = parts.drop_first();
        assert(parts[0] == parts[0]);
        assert forall|j: int| 0 <= j < rest.len() implies ({
            let p = trimmed(#[trigger] rest[j]);
            let i = find_char(p, '=') as int;
            i == p.len() || p.take(i) != name
        }) by {
            assert(rest[j] == parts[j + 1]);
        }
        law_missing_cookies_are_not_read(rest, name);
    }
}

} // verus!
