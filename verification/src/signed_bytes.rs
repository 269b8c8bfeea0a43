//! Downloads by signed links.
//!
//! A link carries its own proof of permission, so these requests need no
//! session. The proof is checked before anything else is looked at.

use vstd::prelude::*;
use crate::backups::{plain, PlainRefusal};
use crate::text::{concat2, copy_or, has_prefix, has_suffix, opt_eq, opt_view, str_eq, view_or};
use crate::url::{percent, url_encode};

verus! {

#[derive(Debug)]
pub struct SigQs {
    pub e: i64,
    pub t: String,
    pub d: Option<String>,
}

/// Whether a link asks for a download rather than a view.
pub fn is_download(qs: &SigQs) -> (r: bool)
    ensures
        r == (opt_view(qs.d) == Some("1"@)),
{
    opt_eq(&qs.d, "1")
}

/// What is stored of a file, as far as an answer needs it.
#[derive(Debug)]
pub struct StoredFile {
    pub original_name: String,
    pub content_type: Option<String>,
    pub content_disposition: Option<String>,
    pub cache_control: Option<String>,
    pub visibility: String,
}

/// The two buckets.
#[derive(Clone, Copy, Debug, PartialEq, Eq, Structural)]
pub enum Visibility {
    Public,
    Private,
}

/// The bucket that a file lies in; whatever is not marked public is private.
pub fn visibility_of(mark: &str) -> (r: Visibility)
    ensures
        r == (if mark@ == "public"@ {
            Visibility::Public
        } else {
            Visibility::Private
        }),
{
    if str_eq(mark, "public") {
        Visibility::Public
    } else {
        Visibility::Private
    }
}

/// The `Content-Disposition` of a file. `ascii` is its name for clients that
/// know no other.
pub open spec fn disposition(mode: Seq<char>, ascii: Seq<char>, name: Seq<char>) -> Seq<char> {
    mode + "; filename=\""@ + ascii + "\"; filename*=UTF-8''"@ + percent(name)
}

pub fn disposition_text(mode: &str, ascii: &str, name: &str) -> (r: String)
    ensures
        r@ == disposition(mode@, ascii@, name@),
{
    let mut s: String = mode.to_owned();
    s.append("; filename=\"");
    s.append(ascii);
    s.append("\"; filename*=UTF-8''");
    s.append(url_encode(name).as_str());
    s
}

/// The headers of an answer that carries a file.
#[derive(Debug)]
pub struct FileHeaders {
    pub content_type: String,
    pub content_disposition: String,
    pub cache_control: String,
}

/// The headers of a signed download.
pub fn respond(file: &StoredFile, ascii: &str, download: bool) -> (r: FileHeaders)
    ensures
        r.content_type@ == view_or(file.content_type, "application/octet-stream"@),
        r.content_disposition@ == disposition(
            if download {
                "attachment"@
            } else {
                view_or(file.content_disposition, "inline"@)
            },
            ascii@,
            file.original_name@,
        ),
        r.cache_control@ == view_or(file.cache_control, "private, no-store"@),
{
    let mode: String = if download {
        "attachment".to_owned()
    } else {
        copy_or(&file.content_disposition, "inline")
    };
    FileHeaders {
        content_type: copy_or(&file.content_type, "application/octet-stream"),
        content_disposition: disposition_text(mode.as_str(), ascii, file.original_name.as_str()),
        cache_control: copy_or(&file.cache_control, "private, no-store"),
    }
}

/// What the table says of a key.
#[derive(Debug)]
pub enum FileLookup {
    Found(StoredFile),
    Missing,
    /// The tenant cannot be opened.
    NoTenant(String),
    Failed(String),
}

fn words(status: u16, message: &str) -> (r: PlainRefusal)
    ensures
        plain(r, status, message@),
{
    PlainRefusal { status, message: message.to_owned() }
}

/// Decides a request by a signed link: the token first, then the storage, then the file.
pub fn signed_bytes(token_ok: bool, storage_ready: bool, lookup: FileLookup) -> (r: Result<
    (StoredFile, Visibility),
    PlainRefusal,
>)
    ensures
        if !token_ok {
            r is Err && plain(r->Err_0, 403, "invalid or expired token"@)
        } else if !storage_ready {
            r is Err && plain(r->Err_0, 503, "storage not configured"@)
        } else {
            match lookup {
                FileLookup::Missing => r is Err && plain(r->Err_0, 404, "not found"@),
                FileLookup::NoTenant(m) => r is Err && plain(r->Err_0, 404, "tenant: "@ + m@),
                FileLookup::Failed(m) => r is Err && plain(r->Err_0, 500, m@),
                FileLookup::Found(f) => r matches Ok(v) && v.0 == f && v.1 == (if f.visibility@
                    == "public"@ {
                    Visibility::Public
                } else {
                    Visibility::Private
                }),
            }
        },
{
    if !token_ok {
        return Err(words(403, "invalid or expired token"));
    }
    if !storage_ready {
        return Err(words(503, "storage not configured"));
    }
    match lookup {
        FileLookup::Missing => Err(words(404, "not found")),
        FileLookup::NoTenant(m) => Err(
            PlainRefusal { status: 404, message: concat2("tenant: ", m.as_str()) },
        ),
        FileLookup::Failed(m) => Err(PlainRefusal { status: 500, message: m }),
        FileLookup::Found(f) => {
            let v: Visibility = visibility_of(f.visibility.as_str());
            Ok((f, v))
        },
    }
}

/// The refusal where the storage did not give the file.
pub fn storage_failed(message: &str) -> (r: PlainRefusal)
    ensures
        plain(r, 502, "get: "@ + message@),
{
    PlainRefusal { status: 502, message: concat2("get: ", message) }
}

/// The header says how the file is to be shown, and names it: for old clients between
/// quotes, and at the end in full, encoded.
pub proof fn law_header_names_the_file(mode: Seq<char>, ascii: Seq<char>, name: Seq<char>)
    ensures
        has_prefix(disposition(mode, ascii, name), mode + "; filename=\""@ + ascii),
        has_suffix(disposition(mode, ascii, name), "\"; filename*=UTF-8''"@ + percent(name)),
{
    let d = disposition(mode, ascii, name);
    let head = mode + "; filename=\""@ + ascii;
    let tail = "\"; filename*=UTF-8''"@ + percent(name);
    assert(d =~= head + tail);
    assert(d.subrange(0, head.len() as int) =~= head);
    assert(d.subrange(d.len() - tail.len(), d.len() as int) =~= tail);
}

} // verus!
