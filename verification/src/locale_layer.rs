//! Which language a request is answered in.
//!
//! The `drust_locale` cookie comes first, then the tags of the
//! `Accept-Language` header in the order in which they stand there, then
//! English.

use vstd::prelude::*;
use crate::i18n::Locale;
use crate::text::{before_char, head_before, split, split_on, trim, trimmed, views};

verus! {

/// The language of the first tag in `tags` that is known.
pub open spec fn first_known(tags: Seq<Seq<char>>) -> Option<Locale>
    decreases tags.len(),
{
    if tags.len() == 0 {
        None
    } else {
        match Locale::of_tag(trimmed(before_char(tags[0], ';'))) {
            Some(l) => Some(l),
            None => first_known(tags.drop_first()),
        }
    }
}

/// The language of a request with the given cookie and header. The weights
/// of the header are not looked at.
pub open spec fn locale_of(cookie: Option<Seq<char>>, accept: Option<Seq<char>>) -> Locale {
    let from_cookie = match cookie {
        Some(c) => Locale::of_tag(c),
        None => None,
    };
    let from_header = match accept {
        Some(a) => first_known(split_on(a, ',')),
        None => None,
    };
    match (from_cookie, from_header) {
        (Some(l), _) => l,
        (None, Some(l)) => l,
        (None, None) => Locale::En,
    }
}

/// Finds the language of a request from the value of its `drust_locale`
/// cookie and that of its `Accept-Language` header.
pub fn resolve_locale(cookie: Option<&str>, accept_language: Option<&str>) -> (r: Locale)
    ensures
        r == locale_of(
            match cookie {
                Some(c) => Some(c@),
                None => None,
            },
            match accept_language {
                Some(a) => Some(a@),
                None => None,
            },
        ),
{
    if let Some(c) = cookie {
        if let Some(l) = Locale::from_tag(c) {
            return l;
        }
    }
    if let Some(a) = accept_language {
        let tags: Vec<String> = split(a, ',');
        let mut i: usize = 0;
        assert(views(tags@).skip(0) =~= views(tags@));
        while i < tags.len()
            invariant
                i <= tags.len(),
                first_known(views(tags@)) == first_known(views(tags@).skip(i as int)),
                views(tags@) == split_on(a@, ','),
                accept_language == Some(a),
                (match cookie {
                    Some(c) => Locale::of_tag(c@),
                    None => None,
                }) is None,
            decreases tags.len() - i,
        {
            assert(views(tags@).skip(i as int)[0] == tags@[i as int]@);
            let head: String = head_before(tags[i].as_str(), ';');
            let tag: String = trim(head.as_str());
            if let Some(l) = Locale::from_tag(tag.as_str()) {
                return l;
            }
            assert(views(tags@).skip(i as int).drop_first() =~= views(tags@).skip(i as int + 1));
            i = i + 1;
        }
        assert(first_known(views(tags@)) is None);
    }
    Locale::En
}

/// The cookie decides where it names a language; else the first tag of the header that
/// names one; and where none does, English.
pub proof fn law_cookie_then_header_then_english(
    cookie: Option<Seq<char>>,
    tags: Seq<Seq<char>>,
    accept: Option<Seq<char>>,
    i: int,
)
    requires
        accept is Some ==> tags == split_on(accept->0, ','),
    ensures
        cookie is Some && Locale::of_tag(cookie->0) is Some ==> locale_of(cookie, accept)
            == Locale::of_tag(cookie->0)->0,
        (cookie is Some ==> Locale::of_tag(cookie->0) is None) && accept is Some && 0 <= i
            < tags.len() && Locale::of_tag(trimmed(before_char(tags[i], ';'))) is Some && (forall|
            j: int,
        |
            0 <= j < i ==> Locale::of_tag(trimmed(before_char(#[trigger] tags[j], ';'))) is None)
            ==> locale_of(cookie, accept) == Locale::of_tag(trimmed(before_char(tags[i], ';')))->0,
        (cookie is Some ==> Locale::of_tag(cookie->0) is None) && accept is None ==> locale_of(
            cookie,
            accept,
        ) == Locale::En,
{
    if accept is Some && 0 <= i < tags.len() && Locale::of_tag(trimmed(before_char(tags[i], ';'))) is Some
        && (forall|j: int|
        0 <= j < i ==> Locale::of_tag(trimmed(before_char(#[trigger] tags[j], ';'))) is None) {
        lemma_first_known(tags, i);
    }
}

proof fn lemma_first_known(tags: Seq<Seq<char>>, i: int)
    requires
        0 <= i < tags.len(),
        Locale::of_tag(trimmed(before_char(tags[i], ';'))) is Some,
        forall|j: int|
            0 <= j < i ==> Locale::of_tag(trimmed(before_char(#[trigger] tags[j], ';'))) is None,
    ensures
        first_known(tags) == Locale::of_tag(trimmed(before_char(tags[i], ';'))),
    decreases tags.len(),
{
    if i > 0 {
        let rest = tags.drop_first();
        assert(Locale::of_tag(trimmed(before_char(tags[0], ';'))) is None);
        assert forall|j: int| 0 <= j < i - 1 implies Locale::of_tag(
            trimmed(before_char(#[trigger] rest[j], ';')),
        ) is None by {
            assert(rest[j] == tags[j + 1]);
        }
        assert(rest[i - 1] == tags[i]);
        lemma_first_known(rest, i - 1);
    }
}

} // verus!
