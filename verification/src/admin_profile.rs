//! What the sidebar shows of the administrator who is signed in.

use vstd::prelude::*;
use crate::text::{
    before_char, first_chars, head_before, opt_view, split_words, take_chars, to_chars, trim, trimmed,
    views, words,
};

verus! {

/// The upper-case form of a text.
pub uninterp spec fn upper(s: Seq<char>) -> Seq<char>;

/// A letter from `a` to `z` as a capital; any other character as it is.
pub open spec fn capital(c: char) -> char {
    if 'a' <= c <= 'z' {
        (c as u32 - 32) as char
    } else {
        c
    }
}

/// The text is ASCII.
pub open spec fn all_ascii(s: Seq<char>) -> bool {
    forall|i: int| 0 <= i < s.len() ==> (#[trigger] s[i] as u32) < 128
}

/// `str::to_uppercase` gives the Unicode upper-case form of its text, which
/// depends on the text alone. No character disappears in it, and of ASCII it
/// changes the letters from `a` to `z` only.
#[verifier::external_body]
fn to_upper(s: &str) -> (r: String)
    ensures
        r@ == upper(s@),
        s@.len() > 0 ==> r@.len() > 0,
        all_ascii(s@) ==> r@ == s@.map_values(|c: char| capital(c)),
{
    s.to_uppercase()
}

#[derive(Clone, Debug)]
pub struct AdminProfileExt {
    pub display_name: Option<String>,
    pub email: Option<String>,
    pub picture_url: Option<String>,
    /// Never empty.
    pub initials: String,
}

/// The letters that initials are made of, before they are put in upper case:
/// the first letters of the first and the last word of a name, or the first
/// two letters of a single word, or those of the part of an address before
/// the `@`.
pub open spec fn initial_letters(name: Option<Seq<char>>, email: Option<Seq<char>>) -> Seq<char> {
    let from_name = match name {
        Some(n) => {
            let w = words(trimmed(n));
            if w.len() >= 2 {
                seq![w[0][0], w.last()[0]]
            } else {
                first_chars(trimmed(n), 2)
            }
        },
        None => Seq::<char>::empty(),
    };
    if from_name.len() > 0 {
        from_name
    } else {
        match email {
            Some(e) => first_chars(before_char(e, '@'), 2),
            None => Seq::<char>::empty(),
        }
    }
}

/// The initials of an administrator, `??` where nothing gives any.
pub open spec fn initials_of(name: Option<Seq<char>>, email: Option<Seq<char>>) -> Seq<char> {
    let letters = initial_letters(name, email);
    if letters.len() > 0 {
        upper(letters)
    } else {
        "??"@
    }
}

/// The characters of an optional text.
pub open spec fn some_view(s: Option<&str>) -> Option<Seq<char>> {
    match s {
        Some(t) => Some(t@),
        None => None,
    }
}

proof fn lemma_words_full(s: Seq<char>)
    ensures
        forall|i: int| 0 <= i < words(s).len() ==> (#[trigger] words(s)[i]).len() > 0,
{
    let pieces = crate::text::split_where(s, |c: char| crate::text::white(c));
    let full = |w: Seq<char>| w.len() > 0;
    assert forall|i: int| 0 <= i < words(s).len() implies (#[trigger] words(s)[i]).len() > 0 by {
        pieces.lemma_filter_pred(full, i);
    }
}

impl AdminProfileExt {
    pub fn compute_initials(display_name: Option<&str>, email: Option<&str>) -> (r: String)
        ensures
            r@ == initials_of(some_view(display_name), some_view(email)),
            r@.len() > 0,
            ({
                let letters = initial_letters(some_view(display_name), some_view(email));
                letters.len() > 0 && all_ascii(letters) ==> r@ == letters.map_values(
                    |c: char| capital(c),
                )
            }),
    {
        if let Some(name) = display_name {
            let t: String = trim(name);
            let w: Vec<String> = split_words(t.as_str());
            if w.len() >= 2 {
                proof {
                    lemma_words_full(t@);
                    assert(views(w@)[0] == w@[0]@);
                    assert(views(w@).last() == w@.last()@);
                }
                let first: Vec<char> = to_chars(w[0].as_str());
                let last: Vec<char> = to_chars(w[w.len() - 1].as_str());
                let mut two: String = String::new();
                two.push(first[0]);
                two.push(last[0]);
                assert(two@ =~= seq![first@[0], last@[0]]);
                return to_upper(two.as_str());
            }
            let head: String = take_chars(t.as_str(), 2);
            if !head.as_str().is_empty() {
                return to_upper(head.as_str());
            }
        }
        if let Some(e) = email {
            let local: String = head_before(e, '@');
            let head: String = take_chars(local.as_str(), 2);
            if !head.as_str().is_empty() {
                return to_upper(head.as_str());
            }
        }
        proof {
            reveal_strlit("??");
        }
        "??".to_owned()
    }

    /// The profile that is shown where none can be loaded.
    pub fn placeholder() -> (r: Self)
        ensures
            r.display_name is None,
            r.email is None,
            r.picture_url is None,
            r.initials@ == "??"@,
    {
        AdminProfileExt {
            display_name: None,
            email: None,
            picture_url: None,
            initials: "??".to_owned(),
        }
    }

    /// The profile of a stored administrator, with the initials worked out.
    pub fn of_row(
        display_name: Option<String>,
        email: Option<String>,
        picture_url: Option<String>,
    ) -> (r: Self)
        ensures
            r.display_name == display_name,
            r.email == email,
            r.picture_url == picture_url,
            r.initials@ == initials_of(opt_view(display_name), opt_view(email)),
    {
        let name: Option<&str> = match &display_name {
            Some(s) => Some(s.as_str()),
            None => None,
        };
        let mail: Option<&str> = match &email {
            Some(s) => Some(s.as_str()),
            None => None,
        };
        let initials: String = Self::compute_initials(name, mail);
        AdminProfileExt { display_name, email, picture_url, initials }
    }
}

/// Initials come from the first and the last word of a name; from a single word its first
/// letters; and without a name from the address. Where there is neither, they are question
/// marks.
pub proof fn law_initials_come_from_the_name(name: Seq<char>, email: Seq<char>)
    ensures
        words(trimmed(name)).len() >= 2 ==> initial_letters(Some(name), Some(email)) == seq![
            words(trimmed(name))[0][0],
            words(trimmed(name)).last()[0],
        ],
        words(trimmed(name)).len() < 2 && trimmed(name).len() >= 2 ==> initial_letters(
            Some(name),
            Some(email),
        ) == trimmed(name).take(2),
        before_char(email, '@').len() >= 2 ==> initial_letters(None, Some(email)) == before_char(
            email,
            '@',
        ).take(2),
        trimmed(name).len() == 0 && words(trimmed(name)).len() < 2 ==> initial_letters(
            Some(name),
            Some(email),
        ) == initial_letters(None, Some(email)),
        initials_of(None, None) == "??"@,
{
}

} // verus!
