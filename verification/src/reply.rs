//! Refusals, as the console words them.

use vstd::prelude::*;
use crate::text::{contains, has_part};

verus! {

/// A refused request: the HTTP status, the code for programs and the words
/// for people.
#[derive(Debug)]
pub struct Refusal {
    pub status: u16,
    pub code: String,
    pub message: String,
}

/// A refused request, as mathematics has it.
pub struct RefusalView {
    pub status: u16,
    pub code: Seq<char>,
    pub message: Seq<char>,
}

impl View for Refusal {
    type V = RefusalView;

    open spec fn view(&self) -> RefusalView {
        RefusalView { status: self.status, code: self.code@, message: self.message@ }
    }
}

/// The refusal with the given parts.
pub open spec fn refusal(status: u16, code: Seq<char>, message: Seq<char>) -> RefusalView {
    RefusalView { status, code, message }
}

pub fn refuse(status: u16, code: &str, message: &str) -> (r: Refusal)
    ensures
        r@ == refusal(status, code@, message@),
{
    Refusal { status, code: code.to_owned(), message: message.to_owned() }
}

/// The refusal of a request that failed in the database.
pub fn refuse_with(status: u16, code: &str, message: String) -> (r: Refusal)
    ensures
        r@ == refusal(status, code@, message@),
{
    Refusal { status, code: code.to_owned(), message }
}

/// The refusal where the database failed with the given words.
pub fn internal_error(message: String) -> (r: Refusal)
    ensures
        r@ == refusal(500, "INTERNAL"@, message@),
{
    refuse_with(500, "INTERNAL", message)
}

/// A request asks for a page: its `Accept` header names HTML and not JSON.
pub open spec fn asks_for_page(accept: Option<Seq<char>>) -> bool {
    match accept {
        Some(a) => has_part(a, "text/html"@) && !has_part(a, "application/json"@),
        None => false,
    }
}

/// Whether a request asks for a page. Where it says nothing it gets JSON.
pub fn wants_page(accept: Option<&str>) -> (r: bool)
    ensures
        r == asks_for_page(
            match accept {
                Some(a) => Some(a@),
                None => None,
            },
        ),
{
    match accept {
        Some(a) => contains(a, "text/html") && !contains(a, "application/json"),
        None => false,
    }
}

/// A page is for those who ask for HTML and not for JSON.
pub proof fn law_pages_are_for_browsers(accept: Seq<char>)
    ensures
        has_part(accept, "application/json"@) ==> !asks_for_page(Some(accept)),
        has_part(accept, "text/html"@) && !has_part(accept, "application/json"@) ==> asks_for_page(
            Some(accept),
        ),
        !has_part(accept, "text/html"@) ==> !asks_for_page(Some(accept)),
        !asks_for_page(None),
{
}

/// A refusal keeps its status, its code and its message apart.
pub proof fn law_refusals_hold_what_they_say(status: u16, code: Seq<char>, message: Seq<char>)
    ensures
        refusal(status, code, message).status == status,
        refusal(status, code, message).code == code,
        refusal(status, code, message).message == message,
{
}

} // verus!
