//! Dynamic registration of clients.
//!
//! Anybody may register, so the number of registrations from one address is
//! limited by the program around this.

use vstd::prelude::*;
use crate::audit_note::{done, field_views, note_done, text_field, AuditNote, Field, FieldView};
use crate::json::{json_of_list, list_to_json};
use crate::reply::{refusal, refuse, Refusal, RefusalView};
use crate::text::{byte_count, byte_len, copy_all, has_prefix, starts_with, views};

verus! {

#[derive(Debug)]
pub struct RegisterBody {
    pub client_name: String,
    pub redirect_uris: Vec<String>,
    pub grant_types: Option<Vec<String>>,
    pub response_types: Option<Vec<String>>,
    pub token_endpoint_auth_method: Option<String>,
}

#[derive(Debug)]
pub struct RegisterResp {
    pub client_id: String,
    pub client_name: String,
    pub redirect_uris: Vec<String>,
    pub token_endpoint_auth_method: &'static str,
    pub grant_types: Vec<&'static str>,
    pub response_types: Vec<&'static str>,
}

/// A redirect URI that a client may have: HTTPS, or plain HTTP to the machine itself.
pub open spec fn redirect_ok(uri: Seq<char>) -> bool {
    ||| has_prefix(uri, "https://"@)
    ||| has_prefix(uri, "http://localhost"@)
    ||| has_prefix(uri, "http://127.0.0.1"@)
    ||| has_prefix(uri, "http://[::1]"@)
}

pub fn validate_redirect_uri(uri: &str) -> (r: Result<(), &'static str>)
    ensures
        match r {
            Ok(_) => redirect_ok(uri@),
            Err(e) => !redirect_ok(uri@) && e@
                == "redirect_uri must be https:// or http://localhost(:port)"@,
        },
{
    if starts_with(uri, "https://") || starts_with(uri, "http://localhost") || starts_with(
        uri,
        "http://127.0.0.1",
    ) || starts_with(uri, "http://[::1]") {
        Ok(())
    } else {
        Err("redirect_uri must be https:// or http://localhost(:port)")
    }
}

/// Why a registration is refused, if it is.
pub open spec fn register_refusal(body: RegisterBody, within_limit: bool) -> Option<RefusalView> {
    if !within_limit {
        Some(
            refusal(
                429,
                "OAUTH_CLIENT_REGISTRATION_RATE_LIMIT"@,
                "max 10 registrations per IP per hour"@,
            ),
        )
    } else if body.client_name@.len() == 0 || byte_len(body.client_name@) > 256 {
        Some(refusal(400, "INVALID_CLIENT"@, "client_name 1-256 chars"@))
    } else if body.redirect_uris@.len() == 0 {
        Some(refusal(400, "INVALID_REDIRECT_URI"@, "at least one redirect_uri required"@))
    } else if exists|i: int|
        0 <= i < body.redirect_uris@.len() && !redirect_ok(#[trigger] body.redirect_uris@[i]@) {
        Some(
            refusal(
                400,
                "INVALID_REDIRECT_URI"@,
                "redirect_uri must be https:// or http://localhost(:port)"@,
            ),
        )
    } else {
        None
    }
}

/// What a registration does: the client to store, then the answer to send and
/// the note to write.
#[derive(Debug)]
pub struct Registration {
    pub client_id: String,
    pub client_name: String,
    pub redirect_uris_json: String,
    pub reply: RegisterResp,
    pub note: AuditNote,
}

/// Registers a client under the given fresh id.
pub fn register_client(body: &RegisterBody, within_limit: bool, client_id: &str) -> (r: Result<
    Registration,
    Refusal,
>)
    ensures
        match register_refusal(*body, within_limit) {
            Some(e) => r is Err && r->Err_0@ == e,
            None => {
                &&& r matches Ok(g)
                &&& g.client_id@ == client_id@
                &&& g.client_name@ == body.client_name@
                &&& g.redirect_uris_json@ == json_of_list(views(body.redirect_uris@))
                &&& g.reply.client_id@ == client_id@
                &&& g.reply.client_name@ == body.client_name@
                &&& views(g.reply.redirect_uris@) == views(body.redirect_uris@)
                &&& g.reply.token_endpoint_auth_method@ == "none"@
                &&& g.reply.grant_types@ == seq!["authorization_code", "refresh_token"]
                &&& g.reply.response_types@ == seq!["code"]
                &&& g.note@ == done(
                    "admin.oauth.client_register"@,
                    seq![
                        ("client_id"@, FieldView::Text(client_id@)),
                        ("client_name"@, FieldView::Text(body.client_name@)),
                        ("source"@, FieldView::Text("dynamic"@)),
                    ],
                )
            },
        },
{
    if !within_limit {
        return Err(
            refuse(
                429,
                "OAUTH_CLIENT_REGISTRATION_RATE_LIMIT",
                "max 10 registrations per IP per hour",
            ),
        );
    }
    if body.client_name.as_str().is_empty() || byte_count(body.client_name.as_str()) > 256 {
        return Err(refuse(400, "INVALID_CLIENT", "client_name 1-256 chars"));
    }
    if body.redirect_uris.len() == 0 {
        return Err(refuse(400, "INVALID_REDIRECT_URI", "at least one redirect_uri required"));
    }
    let mut i: usize = 0;
    while i < body.redirect_uris.len()
        invariant
            i <= body.redirect_uris@.len(),
            within_limit,
            !(body.client_name@.len() == 0 || byte_len(body.client_name@) > 256),
            body.redirect_uris@.len() > 0,
            forall|k: int| 0 <= k < i ==> redirect_ok(#[trigger] body.redirect_uris@[k]@),
        decreases body.redirect_uris@.len() - i,
    {
        if let Err(reason) = validate_redirect_uri(body.redirect_uris[i].as_str()) {
            assert(!redirect_ok(body.redirect_uris@[i as int]@));
            return Err(refuse(400, "INVALID_REDIRECT_URI", reason));
        }
        i = i + 1;
    }
    let mut extra: Vec<(String, Field)> = Vec::new();
    extra.push(text_field("client_id", client_id));
    extra.push(text_field("client_name", body.client_name.as_str()));
    extra.push(text_field("source", "dynamic"));
    assert(field_views(extra@) =~= seq![
        ("client_id"@, FieldView::Text(client_id@)),
        ("client_name"@, FieldView::Text(body.client_name@)),
        ("source"@, FieldView::Text("dynamic"@)),
    ]);
    let mut grant_types: Vec<&'static str> = Vec::new();
    grant_types.push("authorization_code");
    grant_types.push("refresh_token");
    assert(grant_types@ =~= seq!["authorization_code", "refresh_token"]);
    let mut response_types: Vec<&'static str> = Vec::new();
    response_types.push("code");
    assert(response_types@ =~= seq!["code"]);
    Ok(
        Registration {
            client_id: client_id.to_owned(),
            client_name: body.client_name.clone(),
            redirect_uris_json: list_to_json(&body.redirect_uris),
            reply: RegisterResp {
                client_id: client_id.to_owned(),
                client_name: body.client_name.clone(),
                redirect_uris: copy_all(&body.redirect_uris),
                token_endpoint_auth_method: "none",
                grant_types,
                response_types,
            },
            note: note_done("admin.oauth.client_register", extra),
        },
    )
}

/// A client is registered where it has a name that is not too long and at least one
/// address, and may be sent to all of them. Any address by HTTPS will do, and one by
/// plain HTTP on the machine itself; no other.
pub proof fn law_registration_needs_safe_addresses(body: RegisterBody, rest: Seq<char>)
    ensures
        register_refusal(body, true) is None <==> {
            &&& 0 < body.client_name@.len() && byte_len(body.client_name@) <= 256
            &&& body.redirect_uris@.len() > 0
            &&& forall|i: int|
                0 <= i < body.redirect_uris@.len() ==> redirect_ok(
                    #[trigger] body.redirect_uris@[i]@,
                )
        },
        register_refusal(body, false) matches Some(e) && e.status == 429,
        redirect_ok("https://"@ + rest),
        redirect_ok("http://localhost"@ + rest),
        redirect_ok("http://127.0.0.1"@ + rest),
        redirect_ok("http://[::1]"@ + rest),
        rest.len() > 0 && rest[0] != 'l' && rest[0] != '1' && rest[0] != '[' ==> !redirect_ok(
            "http://"@ + rest,
        ),
{
    reveal_strlit("https://");
    reveal_strlit("http://localhost");
    reveal_strlit("http://127.0.0.1");
    reveal_strlit("http://[::1]");
    reveal_strlit("http://");
    let a = "https://"@;
    let b = "http://localhost"@;
    let c = "http://127.0.0.1"@;
    let d = "http://[::1]"@;
    assert((a + rest).subrange(0, a.len() as int) =~= a);
    assert((b + rest).subrange(0, b.len() as int) =~= b);
    assert((c + rest).subrange(0, c.len() as int) =~= c);
    assert((d + rest).subrange(0, d.len() as int) =~= d);
    if rest.len() > 0 && rest[0] != 'l' && rest[0] != '1' && rest[0] != '[' {
        let u = "http://"@ + rest;
        assert(u[4] == ':' && a[4] == 's');
        assert(u[7] == rest[0]);
        assert(b[7] == 'l' && c[7] == '1' && d[7] == '[');
        if has_prefix(u, a) {
            assert(u.subrange(0, a.len() as int)[4] == u[4]);
        }
        if has_prefix(u, b) {
            assert(u.subrange(0, b.len() as int)[7] == u[7]);
        }
        if has_prefix(u, c) {
            assert(u.subrange(0, c.len() as int)[7] == u[7]);
        }
        if has_prefix(u, d) {
            assert(u.subrange(0, d.len() as int)[7] == u[7]);
        }
    }
}

} // verus!
