//! Keeping the console out of frames.
//!
//! Two headers, because browsers differ in which they heed. A policy that a
//! response already has is kept: that of a stored file confines it, and
//! losing it would be worse than a missing frame rule.

use vstd::prelude::*;
use crate::text::str_eq;

verus! {

/// The route of the console that may stand in a frame: a tenant's own signed
/// file, which may be shown inside the tenant's page.
pub open spec fn framable(route: Seq<char>) -> bool {
    route == "/s/t/{tenant}/{key}"@
}

/// Whether a route of the console may stand in a frame.
pub fn may_be_framed(route: &str) -> (r: bool)
    ensures
        r == framable(route@),
{
    str_eq(route, "/s/t/{tenant}/{key}")
}

/// The two headers that keep a response out of a frame.
#[derive(Debug)]
pub struct FrameHeaders {
    pub content_security_policy: String,
    pub x_frame_options: &'static str,
}

/// The headers of a response that has the given policy, if it has one.
pub fn frame_guard_headers(policy: Option<String>) -> (r: FrameHeaders)
    ensures
        r.content_security_policy@ == (match policy {
            Some(p) => p@,
            None => "frame-ancestors 'none'"@,
        }),
        r.x_frame_options@ == "DENY"@,
{
    FrameHeaders {
        content_security_policy: match policy {
            Some(p) => p,
            None => "frame-ancestors 'none'".to_owned(),
        },
        x_frame_options: "DENY",
    }
}

} // verus!
