//! The cookie that remembers where a user was going.
//!
//! The authorization endpoint sends a visitor without a session through the
//! login page. The cookie holds the way back.

use vstd::prelude::*;
use crate::text::{
    after_prefix, concat2, has_prefix, has_suffix, joined_with, law_split_undoes_join,
    lemma_split_none, opt_view, split, split_on, strip_prefix, trim, trim_left, trimmed, views,
    white,
};
use crate::url::{
    law_percent_is_plain, percent, percent_decoded, plain_char, url_decode, url_encode,
};

verus! {

pub const COOKIE_NAME: &'static str = "drust_oauth_intent";

/// The value of the first cookie of that name in a `Cookie` header.
pub open spec fn cookie_value(parts: Seq<Seq<char>>, name: Seq<char>) -> Option<Seq<char>>
    decreases parts.len(),
{
    if parts.len() == 0 {
        None
    } else {
        match after_prefix(trimmed(parts[0]), name + "="@) {
            Some(v) => Some(v),
            None => cookie_value(parts.drop_first(), name),
        }
    }
}

/// Finds the first cookie of that name in a `Cookie` header.
pub fn find_cookie(header: &str, name: &str) -> (r: Option<String>)
    ensures
        opt_view(r) == cookie_value(split_on(header@, ';'), name@),
{
    let parts: Vec<String> = split(header, ';');
    let start: String = concat2(name, "=");
    let ghost all = views(parts@);
    let mut i: usize = 0;
    assert(all.skip(0) =~= all);
    while i < parts.len()
        invariant
            i <= parts.len(),
            all == views(parts@),
            all == split_on(header@, ';'),
            start@ == name@ + "="@,
            cookie_value(all, name@) == cookie_value(all.skip(i as int), name@),
        decreases parts.len() - i,
    {
        assert(all.skip(i as int)[0] == parts@[i as int]@);
        let part: String = trim(parts[i].as_str());
        if let Some(v) = strip_prefix(part.as_str(), start.as_str()) {
            return Some(v);
        }
        assert(all.skip(i as int).drop_first() =~= all.skip(i as int + 1));
        i = i + 1;
    }
    None
}

/// The path that the cookies of a request remember.
pub open spec fn intent(header: Option<Seq<char>>) -> Option<Seq<char>> {
    match header {
        Some(h) => match cookie_value(split_on(h, ';'), COOKIE_NAME@) {
            Some(v) => percent_decoded(v),
            None => None,
        },
        None => None,
    }
}

/// A `Cookie` header in which the cookie of a path stands between other cookies,
/// none before it being a cookie of that name.
pub open spec fn stands_between(
    header: Seq<char>,
    before: Seq<Seq<char>>,
    own: Seq<char>,
    after: Seq<Seq<char>>,
    path: Seq<char>,
) -> bool {
    let parts = before.push(own) + after;
    &&& header == joined_with(parts, seq![';'])
    &&& forall|i: int| 0 <= i < parts.len() ==> !(#[trigger] parts[i]).contains(';')
    &&& forall|i: int|
        0 <= i < before.len() ==> after_prefix(
            trimmed(#[trigger] before[i]),
            COOKIE_NAME@ + "="@,
        ) is None
    &&& trimmed(own) == COOKIE_NAME@ + "="@ + percent(path)
}

/// A `Cookie` header that holds the cookie of a path, whatever stands beside it.
pub open spec fn remembers(header: Seq<char>, path: Seq<char>) -> bool {
    exists|before: Seq<Seq<char>>, own: Seq<char>, after: Seq<Seq<char>>| #[trigger]
        stands_between(header, before, own, after, path)
}

proof fn lemma_first_of_name(parts: Seq<Seq<char>>, k: int, name: Seq<char>)
    requires
        0 <= k < parts.len(),
        forall|i: int|
            0 <= i < k ==> after_prefix(trimmed(#[trigger] parts[i]), name + "="@) is None,
        after_prefix(trimmed(parts[k]), name + "="@) is Some,
    ensures
        cookie_value(parts, name) == after_prefix(trimmed(parts[k]), name + "="@),
    decreases parts.len(),
{
    if k > 0 {
        let rest = parts.drop_first();
        assert forall|i: int| 0 <= i < k - 1 implies after_prefix(
            trimmed(#[trigger] rest[i]),
            name + "="@,
        ) is None by {
            assert(rest[i] == parts[i + 1]);
        }
        lemma_first_of_name(rest, k - 1, name);
    }
}

/// Other cookies do not hide the cookie of a path: the encoded path is found
/// between them.
pub proof fn law_other_cookies_are_ignored(
    header: Seq<char>,
    before: Seq<Seq<char>>,
    own: Seq<char>,
    after: Seq<Seq<char>>,
    path: Seq<char>,
)
    requires
        stands_between(header, before, own, after, path),
    ensures
        cookie_value(split_on(header, ';'), COOKIE_NAME@) == Some(percent(path)),
        intent(Some(header)) == percent_decoded(percent(path)),
{
    let parts = before.push(own) + after;
    let name = COOKIE_NAME@ + "="@;
    let k = before.len() as int;
    law_split_undoes_join(parts, ';');
    assert(parts[k] == own);
    assert forall|i: int| 0 <= i < k implies after_prefix(trimmed(#[trigger] parts[i]), name) is None by {
        assert(parts[i] == before[i]);
    }
    let t = name + percent(path);
    assert(t.subrange(0, name.len() as int) =~= name);
    assert(t.skip(name.len() as int) =~= percent(path));
    lemma_first_of_name(parts, k, COOKIE_NAME@);
}

/// Reads the path that the cookies of a request remember. A cookie that was
/// set for a path gives that path back, whatever cookies stand beside it.
pub fn read(cookie_header: Option<&str>) -> (r: Option<String>)
    ensures
        opt_view(r) == intent(
            match cookie_header {
                Some(h) => Some(h@),
                None => None,
            },
        ),
        forall|path: Seq<char>|
            cookie_header matches Some(h) && h@ == "drust_oauth_intent="@ + #[trigger] percent(path)
                ==> opt_view(r) == Some(path),
        forall|path: Seq<char>|
            cookie_header is Some && #[trigger] remembers(cookie_header->0@, path) ==> opt_view(r)
                == Some(path),
{
    proof {
        assert forall|path: Seq<char>|
            cookie_header is Some && #[trigger] remembers(cookie_header->0@, path) implies cookie_value(
            split_on(cookie_header->0@, ';'),
            COOKIE_NAME@,
        ) == Some(percent(path)) by {
            let h = cookie_header->0@;
            let (before, own, after) = choose|
                before: Seq<Seq<char>>,
                own: Seq<char>,
                after: Seq<Seq<char>>,
            | #[trigger]
                stands_between(h, before, own, after, path);
            law_other_cookies_are_ignored(h, before, own, after, path);
        }
        assert forall|path: Seq<char>|
            cookie_header matches Some(h) && h@ == "drust_oauth_intent="@ + #[trigger] percent(
                path,
            ) implies cookie_value(split_on(cookie_header->0@, ';'), COOKIE_NAME@) == Some(
            percent(path),
        ) by {
            lemma_own_cookie(path);
        }
    }
    match cookie_header {
        Some(h) => match find_cookie(h, COOKIE_NAME) {
            Some(v) => url_decode(v.as_str()),
            None => None,
        },
        None => None,
    }
}

/// The header that a browser sends for the cookie of a path holds the encoded path.
proof fn lemma_own_cookie(path: Seq<char>)
    ensures
        cookie_value(split_on("drust_oauth_intent="@ + percent(path), ';'), COOKIE_NAME@) == Some(
            percent(path),
        ),
{
    reveal_strlit("drust_oauth_intent=");
    reveal_strlit("drust_oauth_intent");
    reveal_strlit("=");
    law_percent_is_plain(path);
    let name = "drust_oauth_intent="@;
    let h = name + percent(path);
    assert(COOKIE_NAME@ + "="@ =~= name);
    assert forall|i: int| 0 <= i < h.len() implies h[i] != ';' && !white(h[i]) by {
        if i >= name.len() {
            assert(h[i] == percent(path)[i - name.len()]);
            assert(plain_char(h[i]));
        } else {
            assert(h[i] == name[i]);
        }
    }
    lemma_split_none(h, ';');
    assert(trim_left(h) == h);
    assert(trimmed(h) == h);
    assert(h.subrange(0, name.len() as int) =~= name);
    assert(h.skip(name.len() as int) =~= percent(path));
    assert(split_on(h, ';')[0] == h);
}

/// A cookie of this console with the given value and life.
pub open spec fn intent_cookie(value: Seq<char>, secure: bool, life: Seq<char>) -> Seq<char> {
    "drust_oauth_intent="@ + value + "; Path=/drust; HttpOnly"@ + (if secure {
        "; Secure"@
    } else {
        ""@
    }) + "; SameSite=Lax; Max-Age="@ + life
}

fn intent_cookie_text(value: &str, secure: bool, life: &str) -> (r: String)
    ensures
        r@ == intent_cookie(value@, secure, life@),
{
    let mut s: String = "drust_oauth_intent=".to_owned();
    s.append(value);
    s.append("; Path=/drust; HttpOnly");
    if secure {
        s.append("; Secure");
    } else {
        s.append("");
    }
    s.append("; SameSite=Lax; Max-Age=");
    s.append(life);
    s
}

/// The `Set-Cookie` value that remembers `path` for ten minutes.
pub fn build_set(path: &str, secure: bool) -> (r: String)
    ensures
        r@ == intent_cookie(percent(path@), secure, "600"@),
{
    let encoded: String = url_encode(path);
    intent_cookie_text(encoded.as_str(), secure, "600")
}

/// The `Set-Cookie` value that forgets the path.
pub fn build_clear(secure: bool) -> (r: String)
    ensures
        r@ == intent_cookie(""@, secure, "0"@),
{
    intent_cookie_text("", secure, "0")
}

/// The cookie begins with its name and its value, and ends with its life; sent by HTTPS
/// it is marked so, and else it is the same without the mark.
pub proof fn law_cookie_holds_its_value(value: Seq<char>, life: Seq<char>)
    ensures
        has_prefix(intent_cookie(value, true, life), "drust_oauth_intent="@ + value + ";"@),
        has_prefix(intent_cookie(value, false, life), "drust_oauth_intent="@ + value + ";"@),
        has_suffix(
            intent_cookie(value, true, life),
            "; Secure"@ + ("; SameSite=Lax; Max-Age="@ + life),
        ),
        has_suffix(
            intent_cookie(value, false, life),
            "; HttpOnly"@ + ("; SameSite=Lax; Max-Age="@ + life),
        ),
{
    reveal_strlit(";");
    reveal_strlit("");
    reveal_strlit("; HttpOnly");
    reveal_strlit("; Path=/drust; HttpOnly");
    let name = "drust_oauth_intent="@;
    let mid = "; Path=/drust; HttpOnly"@;
    let tail = "; SameSite=Lax; Max-Age="@ + life;
    let a = intent_cookie(value, true, life);
    let b = intent_cookie(value, false, life);
    let head = name + value + ";"@;
    assert(a =~= name + value + mid + "; Secure"@ + tail);
    assert(b =~= name + value + mid + tail);
    assert(a.subrange(0, head.len() as int) =~= head);
    assert(b.subrange(0, head.len() as int) =~= head);
    let s = "; Secure"@ + tail;
    assert(a.subrange(a.len() - s.len(), a.len() as int) =~= s);
    assert(mid.subrange(13, 23) =~= "; HttpOnly"@);
    let h = "; HttpOnly"@ + tail;
    assert(b.subrange(b.len() - h.len(), b.len() as int) =~= h);
}

} // verus!
