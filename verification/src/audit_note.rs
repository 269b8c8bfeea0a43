//! What is written to the audit log about a decision.

use vstd::prelude::*;
use crate::text::{opt_copy, opt_view};

verus! {

/// A value in the extra fields of a note.
#[derive(Debug)]
pub enum Field {
    Text(String),
    Number(i64),
    Flag(bool),
    Null,
}

/// A value in the extra fields of a note, as mathematics has it.
pub enum FieldView {
    Text(Seq<char>),
    Number(int),
    Flag(bool),
    Null,
}

impl View for Field {
    type V = FieldView;

    open spec fn view(&self) -> FieldView {
        match self {
            Field::Text(s) => FieldView::Text(s@),
            Field::Number(n) => FieldView::Number(*n as int),
            Field::Flag(b) => FieldView::Flag(*b),
            Field::Null => FieldView::Null,
        }
    }
}

/// A line of the audit log: the operation, why it failed if it did, and what
/// else there is to say.
#[derive(Debug)]
pub struct AuditNote {
    /// The tenant it concerns, `-` where it concerns none.
    pub tenant: String,
    /// What kind of credential was used, `-` where that says nothing.
    pub token_hint: String,
    pub op: String,
    pub failure: Option<(String, String)>,
    /// The administrator who did it, with their address at that time.
    pub actor: Option<(i64, Option<String>)>,
    /// How somebody signed in through another service.
    pub oauth: Option<OauthNote>,
    pub extra: Vec<(String, Field)>,
}

/// How somebody signed in, or tried to, through another service.
#[derive(Debug)]
pub struct OauthNote {
    pub method: String,
    pub email: Option<String>,
    pub error_code: Option<String>,
}

/// How somebody signed in, as mathematics has it.
pub struct OauthNoteView {
    pub method: Seq<char>,
    pub email: Option<Seq<char>>,
    pub error_code: Option<Seq<char>>,
}

impl View for OauthNote {
    type V = OauthNoteView;

    open spec fn view(&self) -> OauthNoteView {
        OauthNoteView {
            method: self.method@,
            email: opt_view(self.email),
            error_code: opt_view(self.error_code),
        }
    }
}

/// A line of the audit log, as mathematics has it.
pub struct NoteView {
    pub tenant: Seq<char>,
    pub token_hint: Seq<char>,
    pub op: Seq<char>,
    pub failure: Option<(Seq<char>, Seq<char>)>,
    pub actor: Option<(int, Option<Seq<char>>)>,
    pub oauth: Option<OauthNoteView>,
    pub extra: Seq<(Seq<char>, FieldView)>,
}

/// The extra fields, as mathematics has them.
pub open spec fn field_views(v: Seq<(String, Field)>) -> Seq<(Seq<char>, FieldView)> {
    v.map_values(|f: (String, Field)| (f.0@, f.1@))
}

impl View for AuditNote {
    type V = NoteView;

    open spec fn view(&self) -> NoteView {
        NoteView {
            tenant: self.tenant@,
            token_hint: self.token_hint@,
            op: self.op@,
            failure: match self.failure {
                Some(f) => Some((f.0@, f.1@)),
                None => None,
            },
            actor: match self.actor {
                Some(a) => Some((a.0 as int, opt_view(a.1))),
                None => None,
            },
            oauth: match self.oauth {
                Some(o) => Some(o@),
                None => None,
            },
            extra: field_views(self.extra@),
        }
    }
}

/// A note about something that was done.
pub open spec fn done(op: Seq<char>, extra: Seq<(Seq<char>, FieldView)>) -> NoteView {
    NoteView { tenant: "-"@, token_hint: "-"@, op, failure: None, actor: None, oauth: None, extra }
}

/// A note about something that failed.
pub open spec fn failed(
    op: Seq<char>,
    code: Seq<char>,
    message: Seq<char>,
    extra: Seq<(Seq<char>, FieldView)>,
) -> NoteView {
    NoteView {
        tenant: "-"@,
        token_hint: "-"@,
        op,
        failure: Some((code, message)),
        actor: None,
        oauth: None,
        extra,
    }
}

pub fn note_done(op: &str, extra: Vec<(String, Field)>) -> (r: AuditNote)
    ensures
        r@ == done(op@, field_views(extra@)),
{
    AuditNote {
        tenant: "-".to_owned(),
        token_hint: "-".to_owned(),
        op: op.to_owned(),
        failure: None,
        actor: None,
        oauth: None,
        extra,
    }
}

pub fn note_failed(op: &str, code: &str, message: &str, extra: Vec<(String, Field)>) -> (r: AuditNote)
    ensures
        r@ == failed(op@, code@, message@, field_views(extra@)),
{
    AuditNote {
        tenant: "-".to_owned(),
        token_hint: "-".to_owned(),
        op: op.to_owned(),
        failure: Some((code.to_owned(), message.to_owned())),
        actor: None,
        oauth: None,
        extra,
    }
}

/// The same note with the administrator who did it.
pub open spec fn by_actor(note: NoteView, id: int, email: Option<Seq<char>>) -> NoteView {
    NoteView { actor: Some((id, email)), ..note }
}

pub fn note_by(note: AuditNote, id: i64, email: &Option<String>) -> (r: AuditNote)
    ensures
        r@ == by_actor(note@, id as int, opt_view(*email)),
{
    AuditNote {
        tenant: note.tenant,
        token_hint: note.token_hint,
        op: note.op,
        failure: note.failure,
        actor: Some((id, opt_copy(email))),
        oauth: note.oauth,
        extra: note.extra,
    }
}

/// The same note with how somebody signed in.
pub open spec fn through(note: NoteView, oauth: OauthNoteView) -> NoteView {
    NoteView { oauth: Some(oauth), ..note }
}

pub fn note_through(note: AuditNote, oauth: OauthNote) -> (r: AuditNote)
    ensures
        r@ == through(note@, oauth@),
{
    AuditNote {
        tenant: note.tenant,
        token_hint: note.token_hint,
        op: note.op,
        failure: note.failure,
        actor: note.actor,
        oauth: Some(oauth),
        extra: note.extra,
    }
}

/// The same note about a tenant.
pub open spec fn about(note: NoteView, tenant: Seq<char>, token_hint: Seq<char>) -> NoteView {
    NoteView { tenant, token_hint, ..note }
}

pub fn note_about(note: AuditNote, tenant: &str, token_hint: &str) -> (r: AuditNote)
    ensures
        r@ == about(note@, tenant@, token_hint@),
{
    AuditNote {
        tenant: tenant.to_owned(),
        token_hint: token_hint.to_owned(),
        op: note.op,
        failure: note.failure,
        actor: note.actor,
        oauth: note.oauth,
        extra: note.extra,
    }
}

/// A field that holds a text.
pub fn text_field(name: &str, value: &str) -> (r: (String, Field))
    ensures
        (r.0@, r.1@) == (name@, FieldView::Text(value@)),
{
    (name.to_owned(), Field::Text(value.to_owned()))
}

/// A field that holds a number.
pub fn number_field(name: &str, value: i64) -> (r: (String, Field))
    ensures
        (r.0@, r.1@) == (name@, FieldView::Number(value as int)),
{
    (name.to_owned(), Field::Number(value))
}

/// A field that holds yes or no.
pub fn flag_field(name: &str, value: bool) -> (r: (String, Field))
    ensures
        (r.0@, r.1@) == (name@, FieldView::Flag(value)),
{
    (name.to_owned(), Field::Flag(value))
}

/// A field that holds nothing.
pub fn null_field(name: &str) -> (r: (String, Field))
    ensures
        (r.0@, r.1@) == (name@, FieldView::Null),
{
    (name.to_owned(), Field::Null)
}

/// A field that holds a text or nothing.
pub fn opt_field(name: &str, value: &Option<String>) -> (r: (String, Field))
    ensures
        (r.0@, r.1@) == (
            name@,
            match value {
                Some(s) => FieldView::Text(s@),
                None => FieldView::Null,
            },
        ),
{
    match value {
        Some(s) => (name.to_owned(), Field::Text(s.clone())),
        None => (name.to_owned(), Field::Null),
    }
}

/// A note about a success has no failure and names nobody; one about a failure keeps its
/// code and its message apart. What is added to a note changes nothing else of it.
pub proof fn law_notes_say_what_happened(
    note: NoteView,
    op: Seq<char>,
    code: Seq<char>,
    message: Seq<char>,
    extra: Seq<(Seq<char>, FieldView)>,
    id: int,
    email: Option<Seq<char>>,
    oauth: OauthNoteView,
    tenant: Seq<char>,
    hint: Seq<char>,
)
    ensures
        done(op, extra).op == op && done(op, extra).extra == extra,
        done(op, extra).failure is None && done(op, extra).actor is None,
        done(op, extra).oauth is None && done(op, extra).tenant == "-"@,
        done(op, extra).token_hint == "-"@,
        failed(op, code, message, extra).failure == Some((code, message)),
        (NoteView { failure: None, ..failed(op, code, message, extra) }) == done(op, extra),
        by_actor(note, id, email).actor == Some((id, email)),
        (NoteView { actor: note.actor, ..by_actor(note, id, email) }) == note,
        through(note, oauth).oauth == Some(oauth),
        (NoteView { oauth: note.oauth, ..through(note, oauth) }) == note,
        about(note, tenant, hint).tenant == tenant && about(note, tenant, hint).token_hint == hint,
        (NoteView { tenant: note.tenant, token_hint: note.token_hint, ..about(note, tenant, hint) })
            == note,
{
}

} // verus!
