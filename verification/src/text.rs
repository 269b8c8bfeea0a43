//! Text as sequences of characters.
//!
//! A contract of this library speaks of the characters of a string, so the
//! handful of string operations that the rest needs are written here over
//! `Seq<char>` and proved against short definitions.

use vstd::prelude::*;
use vstd::utf8::encode_utf8;

verus! {

/// `String::push` appends one character.
pub assume_specification[ String::push ](s: &mut String, c: char)
    ensures
        final(s)@ == old(s)@.push(c),
;

// ---------------------------------------------------------------------------
// Views
// ---------------------------------------------------------------------------

/// The characters of each string.
pub open spec fn views(v: Seq<String>) -> Seq<Seq<char>> {
    v.map_values(|s: String| s@)
}

/// The characters of an optional string.
pub open spec fn opt_view(o: Option<String>) -> Option<Seq<char>> {
    match o {
        Some(s) => Some(s@),
        None => None,
    }
}

/// The characters of an optional string, or those of `d`.
pub open spec fn view_or(o: Option<String>, d: Seq<char>) -> Seq<char> {
    match o {
        Some(s) => s@,
        None => d,
    }
}

/// The number of bytes that `s` takes in UTF-8.
pub open spec fn byte_len(s: Seq<char>) -> nat {
    encode_utf8(s).len()
}

pub fn byte_count(s: &str) -> (n: usize)
    ensures
        n == byte_len(s@),
{
    let bytes: &[u8] = s.as_bytes();
    bytes.len()
}

/// The characters of `s`, one by one.
pub fn to_chars(s: &str) -> (v: Vec<char>)
    ensures
        v@ == s@,
{
    let mut v: Vec<char> = Vec::new();
    for c in it: s.chars()
        invariant
            it.seq() == s@,
            v@ == s@.take(it.index() as int),
    {
        v.push(c);
        assert(s@.take(it.index() as int + 1) =~= s@.take(it.index() as int).push(c));
    }
    assert(s@.take(s@.len() as int) =~= s@);
    v
}

/// A string of the given characters.
pub fn from_chars(v: &Vec<char>) -> (s: String)
    ensures
        s@ == v@,
{
    let mut s: String = String::new();
    let mut i: usize = 0;
    while i < v.len()
        invariant
            i <= v.len(),
            s@ == v@.take(i as int),
        decreases v.len() - i,
    {
        s.push(v[i]);
        assert(v@.take(i as int + 1) =~= v@.take(i as int).push(v@[i as int]));
        i = i + 1;
    }
    assert(v@.take(v@.len() as int) =~= v@);
    s
}

/// A string of the characters of `v` from `from` up to `to`.
pub fn from_range(v: &Vec<char>, from: usize, to: usize) -> (s: String)
    requires
        from <= to <= v@.len(),
    ensures
        s@ == v@.subrange(from as int, to as int),
{
    let mut s: String = String::new();
    let mut i: usize = from;
    while i < to
        invariant
            from <= i <= to <= v@.len(),
            s@ == v@.subrange(from as int, i as int),
        decreases to - i,
    {
        s.push(v[i]);
        assert(v@.subrange(from as int, i as int + 1) =~= v@.subrange(from as int, i as int).push(
            v@[i as int],
        ));
        i = i + 1;
    }
    s
}

/// Whether two strings hold the same characters.
pub fn str_eq(a: &str, b: &str) -> (r: bool)
    ensures
        r == (a@ == b@),
{
    let x: Vec<char> = to_chars(a);
    let y: Vec<char> = to_chars(b);
    if x.len() != y.len() {
        return false;
    }
    let mut i: usize = 0;
    while i < x.len()
        invariant
            i <= x.len(),
            x.len() == y.len(),
            x@ == a@,
            y@ == b@,
            x@.take(i as int) == y@.take(i as int),
        decreases x.len() - i,
    {
        if x[i] != y[i] {
            return false;
        }
        assert(x@.take(i as int + 1) =~= x@.take(i as int).push(x@[i as int]));
        assert(y@.take(i as int + 1) =~= y@.take(i as int).push(y@[i as int]));
        i = i + 1;
    }
    assert(x@.take(i as int) =~= x@);
    assert(y@.take(i as int) =~= y@);
    true
}

/// Whether an optional string is there and holds exactly `b`.
pub fn opt_eq(a: &Option<String>, b: &str) -> (r: bool)
    ensures
        r == (opt_view(*a) == Some(b@)),
{
    match a {
        Some(s) => str_eq(s.as_str(), b),
        None => false,
    }
}

/// A copy of an optional string.
pub fn opt_copy(a: &Option<String>) -> (r: Option<String>)
    ensures
        opt_view(r) == opt_view(*a),
{
    match a {
        Some(s) => Some(s.clone()),
        None => None,
    }
}

/// A copy of an optional string, or `d`.
pub fn copy_or(a: &Option<String>, d: &str) -> (r: String)
    ensures
        r@ == view_or(*a, d@),
{
    match a {
        Some(s) => s.clone(),
        None => d.to_owned(),
    }
}

/// A copy of a list of strings.
pub fn copy_all(a: &Vec<String>) -> (r: Vec<String>)
    ensures
        views(r@) == views(a@),
{
    let mut r: Vec<String> = Vec::new();
    let mut i: usize = 0;
    while i < a.len()
        invariant
            i <= a.len(),
            r.len() == i,
            forall|k: int| 0 <= k < i ==> #[trigger] r@[k]@ == a@[k]@,
        decreases a.len() - i,
    {
        r.push(a[i].clone());
        i = i + 1;
    }
    assert(views(r@) =~= views(a@));
    r
}

/// Whether `v` holds a string with the characters `s`.
pub fn holds(v: &Vec<String>, s: &str) -> (r: bool)
    ensures
        r == views(v@).contains(s@),
{
    let mut i: usize = 0;
    while i < v.len()
        invariant
            i <= v.len(),
            forall|k: int| 0 <= k < i ==> views(v@)[k] != s@,
        decreases v.len() - i,
    {
        if str_eq(v[i].as_str(), s) {
            assert(views(v@)[i as int] == s@);
            return true;
        }
        assert(views(v@)[i as int] != s@);
        i = i + 1;
    }
    false
}

// ---------------------------------------------------------------------------
// Searching
// ---------------------------------------------------------------------------

/// `p` stands in `s` at position `i`.
pub open spec fn stands_at(s: Seq<char>, p: Seq<char>, i: int) -> bool {
    0 <= i && i + p.len() <= s.len() && s.subrange(i, i + p.len()) == p
}

/// `s` begins with `p`.
pub open spec fn has_prefix(s: Seq<char>, p: Seq<char>) -> bool {
    stands_at(s, p, 0)
}

/// `s` ends with `p`.
pub open spec fn has_suffix(s: Seq<char>, p: Seq<char>) -> bool {
    stands_at(s, p, s.len() - p.len())
}

/// `p` stands somewhere in `s`.
pub open spec fn has_part(s: Seq<char>, p: Seq<char>) -> bool {
    exists|i: int| stands_at(s, p, i)
}

/// Whether `p` stands in `s` at position `i`.
pub fn chars_stand_at(s: &Vec<char>, p: &Vec<char>, i: usize) -> (r: bool)
    ensures
        r == stands_at(s@, p@, i as int),
{
    if i > s.len() || s.len() - i < p.len() {
        return false;
    }
    let mut k: usize = 0;
    while k < p.len()
        invariant
            k <= p.len(),
            i + p.len() <= s.len(),
            forall|j: int| 0 <= j < k ==> s@[i + j] == p@[j],
        decreases p.len() - k,
    {
        if s[i + k] != p[k] {
            assert(s@.subrange(i as int, i + p.len())[k as int] != p@[k as int]);
            return false;
        }
        k = k + 1;
    }
    assert(s@.subrange(i as int, i + p.len()) =~= p@);
    true
}

pub fn starts_with(s: &str, p: &str) -> (r: bool)
    ensures
        r == has_prefix(s@, p@),
{
    let a: Vec<char> = to_chars(s);
    let b: Vec<char> = to_chars(p);
    chars_stand_at(&a, &b, 0)
}

pub fn ends_with(s: &str, p: &str) -> (r: bool)
    ensures
        r == has_suffix(s@, p@),
{
    let a: Vec<char> = to_chars(s);
    let b: Vec<char> = to_chars(p);
    if a.len() < b.len() {
        return false;
    }
    chars_stand_at(&a, &b, a.len() - b.len())
}

pub fn contains(s: &str, p: &str) -> (r: bool)
    ensures
        r == has_part(s@, p@),
{
    let a: Vec<char> = to_chars(s);
    let b: Vec<char> = to_chars(p);
    let mut i: usize = 0;
    while i <= a.len()
        invariant
            i <= a.len() + 1,
            a@ == s@,
            b@ == p@,
            forall|j: int| 0 <= j < i ==> !stands_at(a@, b@, j),
        decreases a.len() + 1 - i,
    {
        if chars_stand_at(&a, &b, i) {
            return true;
        }
        if i == a.len() {
            assert(forall|j: int| !stands_at(a@, b@, j));
            return false;
        }
        i = i + 1;
    }
    false
}

/// What follows `p` in `s`, where `s` begins with `p`.
pub open spec fn after_prefix(s: Seq<char>, p: Seq<char>) -> Option<Seq<char>> {
    if has_prefix(s, p) {
        Some(s.skip(p.len() as int))
    } else {
        None
    }
}

pub fn strip_prefix(s: &str, p: &str) -> (r: Option<String>)
    ensures
        opt_view(r) == after_prefix(s@, p@),
{
    let a: Vec<char> = to_chars(s);
    let b: Vec<char> = to_chars(p);
    if chars_stand_at(&a, &b, 0) {
        let rest: String = from_range(&a, b.len(), a.len());
        assert(rest@ =~= s@.skip(p@.len() as int));
        Some(rest)
    } else {
        None
    }
}

/// What precedes `p` in `s`, where `s` ends with `p`.
pub open spec fn before_suffix(s: Seq<char>, p: Seq<char>) -> Option<Seq<char>> {
    if has_suffix(s, p) {
        Some(s.take(s.len() - p.len()))
    } else {
        None
    }
}

pub fn strip_suffix(s: &str, p: &str) -> (r: Option<String>)
    ensures
        opt_view(r) == before_suffix(s@, p@),
{
    let a: Vec<char> = to_chars(s);
    let b: Vec<char> = to_chars(p);
    if a.len() >= b.len() && chars_stand_at(&a, &b, a.len() - b.len()) {
        let head: String = from_range(&a, 0, a.len() - b.len());
        assert(head@ =~= s@.take(s@.len() - p@.len()));
        Some(head)
    } else {
        None
    }
}

/// The first position of `c` in `s`, or the length of `s`.
pub open spec fn find_char(s: Seq<char>, c: char) -> nat
    decreases s.len(),
{
    if s.len() == 0 || s[0] == c {
        0
    } else {
        1 + find_char(s.drop_first(), c)
    }
}

/// `find_char` gives the first position of the character.
pub proof fn lemma_find_char(s: Seq<char>, c: char)
    ensures
        find_char(s, c) <= s.len(),
        find_char(s, c) < s.len() ==> s[find_char(s, c) as int] == c,
        forall|i: int| 0 <= i < find_char(s, c) ==> s[i] != c,
        find_char(s, c) < s.len() <==> s.contains(c),
    decreases s.len(),
{
    if s.len() > 0 && s[0] != c {
        let t = s.drop_first();
        lemma_find_char(t, c);
        assert forall|i: int| 0 <= i < find_char(s, c) implies s[i] != c by {
            if i > 0 {
                assert(s[i] == t[i - 1]);
            }
        }
        if s.contains(c) {
            let k = choose|k: int| 0 <= k < s.len() && s[k] == c;
            assert(t[k - 1] == c);
        }
    }
}

/// The position that `find_char` names is the only one with its two properties.
pub proof fn lemma_find_char_is(s: Seq<char>, c: char, i: int)
    requires
        0 <= i <= s.len(),
        forall|j: int| 0 <= j < i ==> s[j] != c,
        i == s.len() || s[i] == c,
    ensures
        find_char(s, c) == i,
{
    lemma_find_char(s, c);
    let k = find_char(s, c) as int;
    if k < i {
        assert(s[k] != c);
    }
    if i < k {
        assert(s[i] != c);
    }
}

pub fn position_of(s: &Vec<char>, c: char) -> (i: usize)
    ensures
        i == find_char(s@, c),
        i <= s@.len(),
{
    let mut i: usize = 0;
    while i < s.len()
        invariant
            i <= s.len(),
            forall|j: int| 0 <= j < i ==> s@[j] != c,
        decreases s.len() - i,
    {
        if s[i] == c {
            proof {
                lemma_find_char_is(s@, c, i as int);
            }
            return i;
        }
        i = i + 1;
    }
    proof {
        lemma_find_char_is(s@, c, i as int);
    }
    i
}

/// What stands before the first `c`, or all of `s`.
pub open spec fn before_char(s: Seq<char>, c: char) -> Seq<char> {
    s.take(find_char(s, c) as int)
}

pub fn head_before(s: &str, c: char) -> (r: String)
    ensures
        r@ == before_char(s@, c),
{
    let a: Vec<char> = to_chars(s);
    let i: usize = position_of(&a, c);
    let r: String = from_range(&a, 0, i);
    assert(r@ =~= before_char(s@, c));
    r
}

pub fn contains_char(s: &str, c: char) -> (r: bool)
    ensures
        r == s@.contains(c),
{
    let a: Vec<char> = to_chars(s);
    let i: usize = position_of(&a, c);
    proof {
        lemma_find_char(a@, c);
    }
    i < a.len()
}

/// The first position of `p` in `s`, or the length of `s`.
pub open spec fn find_part(s: Seq<char>, p: Seq<char>) -> nat
    decreases s.len(),
{
    if s.len() == 0 || has_prefix(s, p) {
        0
    } else {
        1 + find_part(s.drop_first(), p)
    }
}

/// What stands before the first `p`, or all of `s`.
pub open spec fn before_part(s: Seq<char>, p: Seq<char>) -> Seq<char> {
    s.take(find_part(s, p) as int)
}

/// What stands behind the first `p`, if it stands there.
pub open spec fn after_part(s: Seq<char>, p: Seq<char>) -> Option<Seq<char>> {
    if find_part(s, p) < s.len() {
        Some(s.skip(find_part(s, p) as int + p.len()))
    } else {
        None
    }
}

proof fn lemma_prefix_of_skip(s: Seq<char>, p: Seq<char>, i: int)
    requires
        0 <= i <= s.len(),
    ensures
        has_prefix(s.skip(i), p) == stands_at(s, p, i),
{
    if i + p.len() <= s.len() {
        assert(s.skip(i).subrange(0, p.len() as int) =~= s.subrange(i, i + p.len()));
    }
}

/// Finds the first position of `p` in `s`, or the length of `s`.
fn position_of_part(s: &Vec<char>, p: &Vec<char>) -> (i: usize)
    requires
        p@.len() > 0,
    ensures
        i == find_part(s@, p@),
        i <= s@.len(),
        i < s@.len() ==> i + p@.len() <= s@.len(),
{
    let mut i: usize = 0;
    assert(s@.skip(0) =~= s@);
    while i < s.len()
        invariant
            i <= s@.len(),
            p@.len() > 0,
            find_part(s@, p@) == i + find_part(s@.skip(i as int), p@),
        decreases s@.len() - i,
    {
        proof {
            lemma_prefix_of_skip(s@, p@, i as int);
        }
        if chars_stand_at(s, p, i) {
            return i;
        }
        assert(s@.skip(i as int).drop_first() =~= s@.skip(i as int + 1));
        i = i + 1;
    }
    i
}

/// Cuts `s` at the first `p`.
pub fn cut(s: &str, p: &str) -> (r: (String, Option<String>))
    requires
        p@.len() > 0,
    ensures
        r.0@ == before_part(s@, p@),
        opt_view(r.1) == after_part(s@, p@),
{
    let a: Vec<char> = to_chars(s);
    let b: Vec<char> = to_chars(p);
    let i: usize = position_of_part(&a, &b);
    let head: String = from_range(&a, 0, i);
    assert(head@ =~= before_part(s@, p@));
    if i < a.len() {
        let tail: String = from_range(&a, i + b.len(), a.len());
        assert(tail@ =~= s@.skip(i + p@.len()));
        (head, Some(tail))
    } else {
        (head, None)
    }
}

/// The first `n` characters of `s`, or all of it.
pub open spec fn first_chars(s: Seq<char>, n: nat) -> Seq<char> {
    if s.len() <= n {
        s
    } else {
        s.take(n as int)
    }
}

pub fn take_chars(s: &str, n: usize) -> (r: String)
    ensures
        r@ == first_chars(s@, n as nat),
{
    let a: Vec<char> = to_chars(s);
    if a.len() <= n {
        s.to_owned()
    } else {
        let r: String = from_range(&a, 0, n);
        assert(r@ =~= s@.take(n as int));
        r
    }
}

// ---------------------------------------------------------------------------
// Splitting and trimming
// ---------------------------------------------------------------------------

/// The pieces of `s` between the characters that `sep` holds of.
pub open spec fn split_where(s: Seq<char>, sep: spec_fn(char) -> bool) -> Seq<Seq<char>>
    decreases s.len(),
{
    if s.len() == 0 {
        seq![Seq::<char>::empty()]
    } else {
        let head = split_where(s.drop_last(), sep);
        if sep(s.last()) {
            head.push(Seq::<char>::empty())
        } else {
            head.drop_last().push(head.last().push(s.last()))
        }
    }
}

/// Holds of the character `c` alone.
pub open spec fn only(c: char) -> spec_fn(char) -> bool {
    |x: char| x == c
}

/// The pieces of `s` between the characters `c`.
pub open spec fn split_on(s: Seq<char>, c: char) -> Seq<Seq<char>> {
    split_where(s, only(c))
}

/// A split has at least one piece.
pub proof fn lemma_split_nonempty(s: Seq<char>, sep: spec_fn(char) -> bool)
    ensures
        split_where(s, sep).len() >= 1,
    decreases s.len(),
{
    if s.len() > 0 {
        lemma_split_nonempty(s.drop_last(), sep);
    }
}

/// A text without the separator is one piece.
pub proof fn lemma_split_none(s: Seq<char>, c: char)
    requires
        forall|i: int| 0 <= i < s.len() ==> s[i] != c,
    ensures
        split_on(s, c) == seq![s],
    decreases s.len(),
{
    if s.len() > 0 {
        lemma_split_none(s.drop_last(), c);
        let head = split_on(s.drop_last(), c);
        assert(head.drop_last().push(head.last().push(s.last())) =~= seq![s]) by {
            assert(s.drop_last().push(s.last()) =~= s);
        }
    } else {
        assert(s =~= Seq::<char>::empty());
    }
}

pub fn split(s: &str, c: char) -> (r: Vec<String>)
    ensures
        views(r@) == split_on(s@, c),
        r@.len() >= 1,
{
    let a: Vec<char> = to_chars(s);
    let ghost sep = only(c);
    let mut done: Vec<String> = Vec::new();
    let mut cur: String = String::new();
    let mut i: usize = 0;
    assert(a@.take(0) =~= Seq::<char>::empty());
    assert(views(done@).push(cur@) =~= split_where(a@.take(0), sep));
    while i < a.len()
        invariant
            i <= a.len(),
            sep == only(c),
            views(done@).push(cur@) == split_where(a@.take(i as int), sep),
        decreases a.len() - i,
    {
        let ghost t = a@.take(i as int + 1);
        let ghost before = split_where(a@.take(i as int), sep);
        assert(t.drop_last() =~= a@.take(i as int));
        assert(t.last() == a@[i as int]);
        if a[i] == c {
            done.push(cur);
            cur = String::new();
            assert(views(done@) =~= before);
        } else {
            cur.push(a[i]);
            assert(views(done@) =~= before.drop_last());
        }
        assert(views(done@).push(cur@) =~= split_where(t, sep));
        i = i + 1;
    }
    assert(a@.take(i as int) =~= s@);
    done.push(cur);
    assert(views(done@) =~= split_where(s@, sep));
    done
}

/// The characters of the Unicode property White_Space.
pub open spec fn white(c: char) -> bool {
    ||| '\u{9}' <= c <= '\u{d}'
    ||| c == ' '
    ||| c == '\u{85}'
    ||| c == '\u{a0}'
    ||| c == '\u{1680}'
    ||| '\u{2000}' <= c <= '\u{200a}'
    ||| c == '\u{2028}'
    ||| c == '\u{2029}'
    ||| c == '\u{202f}'
    ||| c == '\u{205f}'
    ||| c == '\u{3000}'
}

pub fn is_white(c: char) -> (r: bool)
    ensures
        r == white(c),
{
    ('\u{9}' <= c && c <= '\u{d}') || c == ' ' || c == '\u{85}' || c == '\u{a0}' || c == '\u{1680}'
        || ('\u{2000}' <= c && c <= '\u{200a}') || c == '\u{2028}' || c == '\u{2029}' || c
        == '\u{202f}' || c == '\u{205f}' || c == '\u{3000}'
}

/// The non-empty pieces of `s` between white space.
pub open spec fn words(s: Seq<char>) -> Seq<Seq<char>> {
    split_where(s, |c: char| white(c)).filter(|w: Seq<char>| w.len() > 0)
}

pub fn split_words(s: &str) -> (r: Vec<String>)
    ensures
        views(r@) == words(s@),
{
    let a: Vec<char> = to_chars(s);
    let ghost sep = |c: char| white(c);
    let ghost full = |w: Seq<char>| w.len() > 0;
    let mut done: Vec<String> = Vec::new();
    let mut cur: String = String::new();
    let mut i: usize = 0;
    assert(a@.take(0) =~= Seq::<char>::empty());
    proof {
        reveal(Seq::filter);
        assert(split_where(a@.take(0), sep).drop_last() =~= Seq::<Seq<char>>::empty());
        assert(views(done@) =~= split_where(a@.take(0), sep).drop_last().filter(full));
    }
    while i < a.len()
        invariant
            i <= a.len(),
            sep == (|c: char| white(c)),
            full == (|w: Seq<char>| w.len() > 0),
            split_where(a@.take(i as int), sep).len() >= 1,
            views(done@) == split_where(a@.take(i as int), sep).drop_last().filter(full),
            cur@ == split_where(a@.take(i as int), sep).last(),
        decreases a.len() - i,
    {
        let ghost t = a@.take(i as int + 1);
        let ghost before = split_where(a@.take(i as int), sep);
        assert(t.drop_last() =~= a@.take(i as int));
        assert(t.last() == a@[i as int]);
        if is_white(a[i]) {
            proof {
                reveal(Seq::filter);
                assert(split_where(t, sep).drop_last() =~= before);
                assert(before.drop_last().push(before.last()) =~= before);
            }
            if cur.as_str().is_empty() {
                assert(views(done@) =~= before.filter(full));
            } else {
                let ghost old_done = done@;
                done.push(cur);
                assert(views(done@) =~= views(old_done).push(before.last()));
                assert(views(done@) =~= before.filter(full));
            }
            cur = String::new();
        } else {
            cur.push(a[i]);
            assert(split_where(t, sep).drop_last() =~= before.drop_last());
        }
        i = i + 1;
    }
    assert(a@.take(i as int) =~= s@);
    proof {
        reveal(Seq::filter);
    }
    let ghost all = split_where(s@, sep);
    assert(all.drop_last().push(all.last()) =~= all);
    if !cur.as_str().is_empty() {
        let ghost old_done = done@;
        done.push(cur);
        assert(views(done@) =~= views(old_done).push(all.last()));
    }
    assert(views(done@) =~= words(s@));
    done
}

/// `s` without the white space it begins with.
pub open spec fn trim_left(s: Seq<char>) -> Seq<char>
    decreases s.len(),
{
    if s.len() > 0 && white(s[0]) {
        trim_left(s.drop_first())
    } else {
        s
    }
}

/// `s` without the white space it ends with.
pub open spec fn trim_right(s: Seq<char>) -> Seq<char>
    decreases s.len(),
{
    if s.len() > 0 && white(s.last()) {
        trim_right(s.drop_last())
    } else {
        s
    }
}

/// `s` without the white space around it.
pub open spec fn trimmed(s: Seq<char>) -> Seq<char> {
    trim_right(trim_left(s))
}

pub fn trim(s: &str) -> (r: String)
    ensures
        r@ == trimmed(s@),
{
    let a: Vec<char> = to_chars(s);
    let mut from: usize = 0;
    assert(a@.skip(0) =~= a@);
    while from < a.len() && is_white(a[from])
        invariant
            from <= a.len(),
            a@ == s@,
            trim_left(s@) == trim_left(a@.skip(from as int)),
        decreases a.len() - from,
    {
        assert(a@.skip(from as int).drop_first() =~= a@.skip(from as int + 1));
        from = from + 1;
    }
    let mut to: usize = a.len();
    assert(a@.skip(from as int) =~= a@.subrange(from as int, to as int));
    while to > from && is_white(a[to - 1])
        invariant
            from <= to <= a.len(),
            a@ == s@,
            trimmed(s@) == trim_right(a@.subrange(from as int, to as int)),
        decreases to,
    {
        assert(a@.subrange(from as int, to as int).drop_last() =~= a@.subrange(
            from as int,
            to as int - 1,
        ));
        to = to - 1;
    }
    from_range(&a, from, to)
}

/// A trimmed text has no white space at either end.
pub proof fn law_trimmed_ends(s: Seq<char>)
    ensures
        trimmed(s).len() > 0 ==> !white(trimmed(s)[0]) && !white(trimmed(s).last()),
{
    lemma_trim_left_end(s);
    lemma_trim_right_end(trim_left(s));
}

proof fn lemma_trim_left_end(s: Seq<char>)
    ensures
        trim_left(s).len() > 0 ==> !white(trim_left(s)[0]),
    decreases s.len(),
{
    if s.len() > 0 && white(s[0]) {
        lemma_trim_left_end(s.drop_first());
    }
}

proof fn lemma_trim_right_end(s: Seq<char>)
    ensures
        trim_right(s).len() > 0 ==> !white(trim_right(s).last()),
        trim_right(s).len() > 0 ==> trim_right(s)[0] == s[0],
        trim_right(s).len() <= s.len(),
    decreases s.len(),
{
    if s.len() > 0 && white(s.last()) {
        lemma_trim_right_end(s.drop_last());
    }
}

// ---------------------------------------------------------------------------
// Replacing
// ---------------------------------------------------------------------------

/// Every character of `s` replaced by what `f` gives for it.
pub open spec fn flat(s: Seq<char>, f: spec_fn(char) -> Seq<char>) -> Seq<char>
    decreases s.len(),
{
    if s.len() == 0 {
        Seq::<char>::empty()
    } else {
        flat(s.drop_last(), f) + f(s.last())
    }
}

/// `flat` of a prefix that is one character longer.
pub proof fn lemma_flat_step(s: Seq<char>, f: spec_fn(char) -> Seq<char>, i: int)
    requires
        0 <= i < s.len(),
    ensures
        flat(s.take(i + 1), f) == flat(s.take(i), f) + f(s[i]),
{
    assert(s.take(i + 1).drop_last() =~= s.take(i));
}

/// `flat` of two texts put together.
pub proof fn lemma_flat_concat(a: Seq<char>, b: Seq<char>, f: spec_fn(char) -> Seq<char>)
    ensures
        flat(a + b, f) == flat(a, f) + flat(b, f),
    decreases b.len(),
{
    if b.len() == 0 {
        assert(a + b =~= a);
        assert(flat(a, f) + flat(b, f) =~= flat(a, f));
    } else {
        lemma_flat_concat(a, b.drop_last(), f);
        assert((a + b).drop_last() =~= a + b.drop_last());
        assert(flat(a + b, f) =~= flat(a, f) + flat(b, f));
    }
}

/// Each occurrence of `p` in `s`, from the left and without overlap, replaced by `w`.
pub open spec fn replaced(s: Seq<char>, p: Seq<char>, w: Seq<char>) -> Seq<char>
    decreases s.len(),
{
    if p.len() == 0 || s.len() < p.len() {
        s
    } else if has_prefix(s, p) {
        w + replaced(s.skip(p.len() as int), p, w)
    } else {
        seq![s[0]] + replaced(s.drop_first(), p, w)
    }
}

pub fn replace(s: &str, p: &str, w: &str) -> (r: String)
    requires
        p@.len() > 0,
    ensures
        r@ == replaced(s@, p@, w@),
{
    let a: Vec<char> = to_chars(s);
    let b: Vec<char> = to_chars(p);
    let mut r: String = String::new();
    let mut i: usize = 0;
    assert(a@.skip(0) =~= a@);
    while i < a.len()
        invariant
            i <= a.len(),
            b@ == p@,
            p@.len() > 0,
            replaced(a@, p@, w@) == r@ + replaced(a@.skip(i as int), p@, w@),
        decreases a.len() - i,
    {
        let ghost rest = a@.skip(i as int);
        if chars_stand_at(&a, &b, i) {
            assert(rest.subrange(0, p@.len() as int) =~= a@.subrange(i as int, i + p@.len()));
            assert(rest.skip(p@.len() as int) =~= a@.skip(i + p@.len()));
            r.append(w);
            i = i + b.len();
        } else {
            proof {
                if rest.len() >= p@.len() {
                    assert(a@.subrange(i as int, i + p@.len()) =~= rest.subrange(
                        0,
                        p@.len() as int,
                    ));
                    assert(!has_prefix(rest, p@));
                }
                lemma_replaced_step(rest, p@, w@);
                assert(rest.drop_first() =~= a@.skip(i + 1));
            }
            r.push(a[i]);
            i = i + 1;
        }
        assert(replaced(a@, p@, w@) =~= r@ + replaced(a@.skip(i as int), p@, w@));
    }
    assert(a@.skip(i as int) =~= Seq::<char>::empty());
    r
}

pub proof fn lemma_replaced_step(s: Seq<char>, p: Seq<char>, w: Seq<char>)
    requires
        s.len() > 0,
        p.len() > 0,
        !has_prefix(s, p),
    ensures
        replaced(s, p, w) == seq![s[0]] + replaced(s.drop_first(), p, w),
{
    if s.len() < p.len() {
        assert(s =~= seq![s[0]] + s.drop_first());
    }
}

// ---------------------------------------------------------------------------
// Letters and digits
// ---------------------------------------------------------------------------

pub open spec fn ascii_digit(c: char) -> bool {
    '0' <= c <= '9'
}

pub open spec fn ascii_lower(c: char) -> bool {
    'a' <= c <= 'z'
}

pub open spec fn ascii_upper(c: char) -> bool {
    'A' <= c <= 'Z'
}

pub open spec fn ascii_alnum(c: char) -> bool {
    ascii_digit(c) || ascii_lower(c) || ascii_upper(c)
}

pub open spec fn ascii_hex(c: char) -> bool {
    ascii_digit(c) || 'a' <= c <= 'f' || 'A' <= c <= 'F'
}

pub fn is_digit(c: char) -> (r: bool)
    ensures
        r == ascii_digit(c),
{
    '0' <= c && c <= '9'
}

pub fn is_alnum(c: char) -> (r: bool)
    ensures
        r == ascii_alnum(c),
{
    is_digit(c) || ('a' <= c && c <= 'z') || ('A' <= c && c <= 'Z')
}

pub fn is_hex(c: char) -> (r: bool)
    ensures
        r == ascii_hex(c),
{
    is_digit(c) || ('a' <= c && c <= 'f') || ('A' <= c && c <= 'F')
}

/// The characters of the Unicode category Cc.
pub open spec fn control(c: char) -> bool {
    c <= '\u{1f}' || '\u{7f}' <= c <= '\u{9f}'
}

pub fn is_control(c: char) -> (r: bool)
    ensures
        r == control(c),
{
    c <= '\u{1f}' || ('\u{7f}' <= c && c <= '\u{9f}')
}

/// The lower-case form of an ASCII letter; any other character as it is.
pub open spec fn lower_char(c: char) -> char {
    if ascii_upper(c) {
        (c as u32 + 32) as char
    } else {
        c
    }
}

/// `s` with its ASCII letters in lower case.
pub open spec fn lowered(s: Seq<char>) -> Seq<char> {
    s.map_values(|c: char| lower_char(c))
}

pub fn to_lower(c: char) -> (r: char)
    ensures
        r == lower_char(c),
{
    if 'A' <= c && c <= 'Z' {
        let n: u8 = (c as u32 + 32) as u8;
        n as char
    } else {
        c
    }
}

pub fn lowercase(s: &str) -> (r: String)
    ensures
        r@ == lowered(s@),
{
    let a: Vec<char> = to_chars(s);
    let mut r: String = String::new();
    let mut i: usize = 0;
    while i < a.len()
        invariant
            i <= a.len(),
            r@ == lowered(a@.take(i as int)),
        decreases a.len() - i,
    {
        r.push(to_lower(a[i]));
        assert(lowered(a@.take(i as int + 1)) =~= lowered(a@.take(i as int)).push(
            lower_char(a@[i as int]),
        ));
        i = i + 1;
    }
    assert(a@.take(i as int) =~= s@);
    r
}

/// The character of a decimal digit.
pub open spec fn digit_char(d: nat) -> char {
    (48 + d) as char
}

/// The decimal notation of `n`.
pub open spec fn dec(n: nat) -> Seq<char>
    decreases n,
{
    if n < 10 {
        seq![digit_char(n)]
    } else {
        dec(n / 10).push(digit_char(n % 10))
    }
}

/// The decimal notation of `n`, with a minus sign where it is negative.
pub open spec fn dec_int(n: int) -> Seq<char> {
    if n < 0 {
        seq!['-'] + dec((-n) as nat)
    } else {
        dec(n as nat)
    }
}

fn to_digit_char(d: u8) -> (c: char)
    requires
        d < 10,
    ensures
        c == digit_char(d as nat),
{
    (48 + d) as char
}

/// Appends the decimal notation of `n`.
pub fn push_dec(s: &mut String, n: u64)
    ensures
        final(s)@ == old(s)@ + dec(n as nat),
    decreases n,
{
    if n < 10 {
        s.push(to_digit_char(n as u8));
        assert(s@ =~= old(s)@ + dec(n as nat));
    } else {
        push_dec(s, n / 10);
        s.push(to_digit_char((n % 10) as u8));
        assert(s@ =~= old(s)@ + dec(n as nat));
    }
}

pub fn dec_of(n: u64) -> (s: String)
    ensures
        s@ == dec(n as nat),
{
    let mut s: String = String::new();
    push_dec(&mut s, n);
    assert(s@ =~= dec(n as nat));
    s
}

/// Appends the decimal notation of a signed number.
pub fn push_dec_int(s: &mut String, n: i64)
    ensures
        final(s)@ == old(s)@ + dec_int(n as int),
{
    if n >= 0 {
        push_dec(s, n as u64);
    } else {
        s.push('-');
        if n == i64::MIN {
            push_dec(s, 0x8000_0000_0000_0000u64);
        } else {
            push_dec(s, (-n) as u64);
        }
        assert(s@ =~= old(s)@ + dec_int(n as int));
    }
}

/// Only decimal digits stand in a decimal notation, and at least one.
pub proof fn lemma_dec_digits(n: nat)
    ensures
        dec(n).len() >= 1,
        forall|i: int| 0 <= i < dec(n).len() ==> ascii_digit(#[trigger] dec(n)[i]),
    decreases n,
{
    if n >= 10 {
        lemma_dec_digits(n / 10);
    }
}

/// The decimal notation of a number stands for no other number.
pub proof fn lemma_dec_injective(a: nat, b: nat)
    requires
        dec(a) == dec(b),
    ensures
        a == b,
    decreases a,
{
    lemma_dec_digits(a / 10);
    lemma_dec_digits(b / 10);
    if a < 10 {
        if b < 10 {
            assert(dec(a)[0] == digit_char(a));
            assert(dec(b)[0] == digit_char(b));
        } else {
            assert(dec(b).len() == dec(b / 10).len() + 1);
        }
    } else {
        if b < 10 {
            assert(dec(a).len() == dec(a / 10).len() + 1);
        } else {
            assert(dec(a).last() == digit_char(a % 10));
            assert(dec(b).last() == digit_char(b % 10));
            assert(dec(a).drop_last() =~= dec(a / 10));
            assert(dec(b).drop_last() =~= dec(b / 10));
            lemma_dec_injective(a / 10, b / 10);
        }
    }
}

/// Only decimal digits, and at least one.
pub open spec fn all_digits(s: Seq<char>) -> bool {
    s.len() > 0 && forall|i: int| 0 <= i < s.len() ==> ascii_digit(#[trigger] s[i])
}

/// The number that some digits stand for.
pub open spec fn value_of(s: Seq<char>) -> nat
    decreases s.len(),
{
    if s.len() == 0 {
        0
    } else {
        value_of(s.drop_last()) * 10 + (s.last() as nat - 48) as nat
    }
}

/// `s` without a leading plus sign.
pub open spec fn unsigned_part(s: Seq<char>) -> Seq<char> {
    if s.len() > 0 && s[0] == '+' {
        s.skip(1)
    } else {
        s
    }
}

/// The number up to `max` that a text stands for: digits, with or without a plus sign.
pub open spec fn unsigned_of(s: Seq<char>, max: nat) -> Option<nat> {
    let t = unsigned_part(s);
    if all_digits(t) && value_of(t) <= max {
        Some(value_of(t))
    } else {
        None
    }
}

/// More digits stand for no smaller number.
proof fn lemma_value_grows(s: Seq<char>, k: int)
    requires
        0 <= k <= s.len(),
        forall|i: int| 0 <= i < s.len() ==> ascii_digit(#[trigger] s[i]),
    ensures
        value_of(s.take(k)) <= value_of(s),
    decreases s.len(),
{
    if k == s.len() {
        assert(s.take(k) =~= s);
    } else {
        let t = s.drop_last();
        assert forall|i: int| 0 <= i < t.len() implies ascii_digit(#[trigger] t[i]) by {
            assert(t[i] == s[i]);
        }
        lemma_value_grows(t, k);
        assert(t.take(k) =~= s.take(k));
    }
}

fn parse_digits(a: &Vec<char>, from: usize, max: u64) -> (r: Option<u64>)
    requires
        from <= a@.len(),
    ensures
        match r {
            Some(n) => all_digits(a@.skip(from as int)) && n == value_of(a@.skip(from as int)) && n
                <= max,
            None => !all_digits(a@.skip(from as int)) || value_of(a@.skip(from as int)) > max,
        },
{
    let ghost t = a@.skip(from as int);
    if from == a.len() {
        return None;
    }
    let mut n: u64 = 0;
    let mut i: usize = from;
    assert(t.take(0) =~= Seq::<char>::empty());
    while i < a.len()
        invariant
            from <= i <= a@.len(),
            t == a@.skip(from as int),
            n == value_of(t.take(i - from)),
            n <= max,
            forall|k: int| 0 <= k < i - from ==> ascii_digit(#[trigger] t[k]),
        decreases a@.len() - i,
    {
        assert(t[i - from] == a@[i as int]);
        if !is_digit(a[i]) {
            return None;
        }
        let d: u64 = (a[i] as u32 - 48) as u64;
        proof {
            let head = t.take(i - from + 1);
            assert(head.drop_last() =~= t.take(i - from));
            assert(value_of(head) == n * 10 + d);
            if all_digits(t) {
                lemma_value_grows(t, i - from + 1);
            }
        }
        if d > max || n > max / 10 || n * 10 > max - d {
            return None;
        }
        n = n * 10 + d;
        i = i + 1;
    }
    assert(t.take(i - from) =~= t);
    Some(n)
}

/// Reads an unsigned number up to `max`.
pub fn parse_unsigned(s: &str, max: u64) -> (r: Option<u64>)
    ensures
        (match r {
            Some(n) => Some(n as nat),
            None => None,
        }) == unsigned_of(s@, max as nat),
        r matches Some(n) ==> n <= max,
{
    let a: Vec<char> = to_chars(s);
    if a.len() > 0 && a[0] == '+' {
        parse_digits(&a, 1, max)
    } else {
        assert(a@.skip(0) =~= a@);
        parse_digits(&a, 0, max)
    }
}

/// The signed 64-bit number that a text stands for.
pub open spec fn signed_of(s: Seq<char>) -> Option<int> {
    if s.len() > 0 && s[0] == '-' {
        if all_digits(s.skip(1)) && value_of(s.skip(1)) <= 0x8000_0000_0000_0000 {
            Some(-(value_of(s.skip(1)) as int))
        } else {
            None
        }
    } else {
        match unsigned_of(s, 0x7fff_ffff_ffff_ffff) {
            Some(n) => Some(n as int),
            None => None,
        }
    }
}

/// Reads a signed number.
pub fn parse_signed(s: &str) -> (r: Option<i64>)
    ensures
        (match r {
            Some(n) => Some(n as int),
            None => None,
        }) == signed_of(s@),
{
    let a: Vec<char> = to_chars(s);
    if a.len() > 0 && a[0] == '-' {
        match parse_digits(&a, 1, 0x8000_0000_0000_0000) {
            Some(n) => if n == 0x8000_0000_0000_0000 {
                Some(i64::MIN)
            } else {
                Some(-(n as i64))
            },
            None => None,
        }
    } else {
        match parse_unsigned(s, 0x7fff_ffff_ffff_ffff) {
            Some(n) => Some(n as i64),
            None => None,
        }
    }
}

/// What the decimal notation of a number is read as is that number.
pub proof fn law_dec_is_read_back(n: nat, max: nat)
    requires
        n <= max,
    ensures
        unsigned_of(dec(n), max) == Some(n),
{
    lemma_dec_digits(n);
    lemma_dec_value(n);
    assert(dec(n)[0] != '+') by {
        assert(ascii_digit(dec(n)[0]));
    }
}

proof fn lemma_dec_value(n: nat)
    ensures
        value_of(dec(n)) == n,
    decreases n,
{
    if n >= 10 {
        lemma_dec_value(n / 10);
        assert(dec(n).drop_last() =~= dec(n / 10));
        assert(dec(n).last() == digit_char(n % 10));
    } else {
        assert(dec(n).drop_last() =~= Seq::<char>::empty());
        assert(dec(n).last() == digit_char(n));
        reveal_with_fuel(value_of, 2);
    }
}

// ---------------------------------------------------------------------------
// Order
// ---------------------------------------------------------------------------

/// `a` comes before or is `b` in the order of their characters.
pub open spec fn text_le(a: Seq<char>, b: Seq<char>) -> bool
    decreases a.len(),
{
    if a.len() == 0 {
        true
    } else if b.len() == 0 {
        false
    } else if a[0] == b[0] {
        text_le(a.drop_first(), b.drop_first())
    } else {
        a[0] < b[0]
    }
}

pub fn is_le(a: &str, b: &str) -> (r: bool)
    ensures
        r == text_le(a@, b@),
{
    let x: Vec<char> = to_chars(a);
    let y: Vec<char> = to_chars(b);
    let mut i: usize = 0;
    assert(x@.skip(0) =~= x@);
    assert(y@.skip(0) =~= y@);
    while i < x.len() && i < y.len() && x[i] == y[i]
        invariant
            i <= x.len(),
            i <= y.len(),
            x@ == a@,
            y@ == b@,
            text_le(a@, b@) == text_le(x@.skip(i as int), y@.skip(i as int)),
        decreases x.len() - i,
    {
        assert(x@.skip(i as int).drop_first() =~= x@.skip(i as int + 1));
        assert(y@.skip(i as int).drop_first() =~= y@.skip(i as int + 1));
        i = i + 1;
    }
    if i >= x.len() {
        true
    } else if i >= y.len() {
        false
    } else {
        x[i] < y[i]
    }
}

/// The order of texts is total.
pub proof fn lemma_text_total(a: Seq<char>, b: Seq<char>)
    ensures
        text_le(a, b) || text_le(b, a),
    decreases a.len(),
{
    if a.len() > 0 && b.len() > 0 && a[0] == b[0] {
        lemma_text_total(a.drop_first(), b.drop_first());
    }
}

/// The order of texts is transitive.
pub proof fn lemma_text_trans(a: Seq<char>, b: Seq<char>, c: Seq<char>)
    requires
        text_le(a, b),
        text_le(b, c),
    ensures
        text_le(a, c),
    decreases a.len(),
{
    if a.len() > 0 && b.len() > 0 && c.len() > 0 && a[0] == b[0] && b[0] == c[0] {
        lemma_text_trans(a.drop_first(), b.drop_first(), c.drop_first());
    }
}

/// Two texts that each come before or are the other are the same.
pub proof fn lemma_text_antisym(a: Seq<char>, b: Seq<char>)
    requires
        text_le(a, b),
        text_le(b, a),
    ensures
        a == b,
    decreases a.len(),
{
    if a.len() > 0 && b.len() > 0 && a[0] == b[0] {
        lemma_text_antisym(a.drop_first(), b.drop_first());
        assert(a =~= seq![a[0]] + a.drop_first());
        assert(b =~= seq![b[0]] + b.drop_first());
    } else {
        assert(a =~= b);
    }
}

// ---------------------------------------------------------------------------
// Putting texts together
// ---------------------------------------------------------------------------

/// All of `parts`, one after the other.
pub open spec fn joined(parts: Seq<Seq<char>>) -> Seq<char>
    decreases parts.len(),
{
    if parts.len() == 0 {
        Seq::<char>::empty()
    } else {
        joined(parts.drop_last()) + parts.last()
    }
}

/// All of `parts` with `sep` between them.
pub open spec fn joined_with(parts: Seq<Seq<char>>, sep: Seq<char>) -> Seq<char>
    decreases parts.len(),
{
    if parts.len() == 0 {
        Seq::<char>::empty()
    } else if parts.len() == 1 {
        parts[0]
    } else {
        joined_with(parts.drop_last(), sep) + sep + parts.last()
    }
}

/// A piece behind a separator is the last one.
pub proof fn lemma_split_behind(a: Seq<char>, b: Seq<char>, c: char)
    requires
        forall|i: int| 0 <= i < b.len() ==> b[i] != c,
    ensures
        split_on(a + seq![c] + b, c) == split_on(a, c).push(b),
    decreases b.len(),
{
    let s = a + seq![c] + b;
    if b.len() == 0 {
        assert(s.drop_last() =~= a);
        assert(b =~= Seq::<char>::empty());
    } else {
        let head = b.drop_last();
        lemma_split_behind(a, head, c);
        assert(s.drop_last() =~= a + seq![c] + head);
        assert(s.last() == b.last());
        assert(head.push(b.last()) =~= b);
        assert(split_on(a, c).push(head).drop_last() =~= split_on(a, c));
    }
}

/// Splitting undoes joining, where no part holds the character between them.
pub proof fn law_split_undoes_join(parts: Seq<Seq<char>>, c: char)
    requires
        parts.len() > 0,
        forall|i: int| 0 <= i < parts.len() ==> !(#[trigger] parts[i]).contains(c),
    ensures
        split_on(joined_with(parts, seq![c]), c) == parts,
    decreases parts.len(),
{
    let last = parts.last();
    assert forall|i: int| 0 <= i < last.len() implies last[i] != c by {
        assert(last.contains(last[i]));
    }
    if parts.len() == 1 {
        lemma_split_none(last, c);
        assert(parts =~= seq![last]);
    } else {
        law_split_undoes_join(parts.drop_last(), c);
        lemma_split_behind(joined_with(parts.drop_last(), seq![c]), last, c);
        assert(parts.drop_last().push(last) =~= parts);
    }
}

pub fn join(parts: &Vec<String>, sep: &str) -> (r: String)
    ensures
        r@ == joined_with(views(parts@), sep@),
{
    let mut r: String = String::new();
    let mut i: usize = 0;
    assert(views(parts@).take(0) =~= Seq::<Seq<char>>::empty());
    while i < parts.len()
        invariant
            i <= parts.len(),
            r@ == joined_with(views(parts@).take(i as int), sep@),
        decreases parts.len() - i,
    {
        if i > 0 {
            r.append(sep);
        }
        r.append(parts[i].as_str());
        proof {
            let t = views(parts@).take(i as int + 1);
            assert(t.drop_last() =~= views(parts@).take(i as int));
            assert(t.last() == parts@[i as int]@);
            assert(r@ =~= joined_with(t, sep@));
        }
        i = i + 1;
    }
    assert(views(parts@).take(i as int) =~= views(parts@));
    r
}

/// Two texts, one after the other.
pub fn concat2(a: &str, b: &str) -> (r: String)
    ensures
        r@ == a@ + b@,
{
    let mut r: String = a.to_owned();
    r.append(b);
    r
}

/// Three texts, one after the other.
pub fn concat3(a: &str, b: &str, c: &str) -> (r: String)
    ensures
        r@ == a@ + b@ + c@,
{
    let mut r: String = a.to_owned();
    r.append(b);
    r.append(c);
    r
}

// ---------------------------------------------------------------------------
// What std makes of a text
// ---------------------------------------------------------------------------

/// The lower-case form of a text.
pub uninterp spec fn lower(s: Seq<char>) -> Seq<char>;

/// `str::to_lowercase` gives the Unicode lower-case form of a text, which
/// depends on the text alone.
#[verifier::external_body]
pub(crate) fn to_lower_text(s: &str) -> (r: String)
    ensures
        r@ == lower(s@),
{
    s.to_lowercase()
}

/// A text between quotes, with escapes, as Rust writes it for a programmer.
pub uninterp spec fn quoted(s: Seq<char>) -> Seq<char>;

/// The `Debug` form of `str` writes a text between quotes with escapes; it
/// depends on the text alone.
#[verifier::external_body]
pub(crate) fn write_quoted(s: &str) -> (r: String)
    ensures
        r@ == quoted(s@),
{
    format!("{s:?}")
}

proof fn lemma_stands_behind(s: Seq<char>, p: Seq<char>, i: int)
    requires
        0 <= i,
        s.len() > 0,
    ensures
        stands_at(s.drop_first(), p, i) == stands_at(s, p, i + 1),
{
    if i + 1 + p.len() <= s.len() {
        assert(s.drop_first().subrange(i, i + p.len()) =~= s.subrange(i + 1, i + 1 + p.len()));
    }
}

/// A part is not found before the place where it first stands.
pub proof fn lemma_part_is_not_before(s: Seq<char>, p: Seq<char>, n: int)
    requires
        0 <= n <= s.len(),
        forall|i: int| 0 <= i < n ==> !stands_at(s, p, i),
    ensures
        n <= find_part(s, p) <= s.len(),
    decreases s.len(),
{
    if s.len() > 0 && !has_prefix(s, p) {
        let rest = s.drop_first();
        if n > 0 {
            assert forall|i: int| 0 <= i < n - 1 implies !stands_at(rest, p, i) by {
                lemma_stands_behind(s, p, i);
                assert(!stands_at(s, p, i + 1));
            }
            lemma_part_is_not_before(rest, p, n - 1);
        } else {
            lemma_part_is_not_before(rest, p, 0);
        }
    } else if s.len() > 0 && n > 0 {
        assert(!stands_at(s, p, 0));
    }
}

/// A text is cut at the first place where the part stands: what stands before it and
/// behind it are the two pieces.
pub proof fn law_texts_are_cut_at_the_part(a: Seq<char>, p: Seq<char>, b: Seq<char>)
    requires
        p.len() > 0,
        forall|i: int| 0 <= i < a.len() ==> !stands_at(a + p + b, p, i),
    ensures
        before_part(a + p + b, p) == a,
        after_part(a + p + b, p) == Some(b),
{
    let s = a + p + b;
    lemma_part_is_not_before(s, p, a.len() as int);
    lemma_part_is_not_behind(s, p, a.len() as int);
    assert(s.subrange(a.len() as int, (a.len() + p.len()) as int) =~= p);
    assert(s.take(a.len() as int) =~= a);
    assert(s.skip((a.len() + p.len()) as int) =~= b);
}

proof fn lemma_part_is_not_behind(s: Seq<char>, p: Seq<char>, n: int)
    ensures
        0 <= n < s.len() && stands_at(s, p, n) ==> find_part(s, p) <= n,
    decreases s.len(),
{
    if 0 <= n < s.len() && stands_at(s, p, n) && !has_prefix(s, p) {
        lemma_stands_behind(s, p, n - 1);
        lemma_part_is_not_behind(s.drop_first(), p, n - 1);
    }
}

/// A number below zero is written as the number above with a minus before it.
pub proof fn law_minus_is_written(n: nat)
    requires
        n > 0,
    ensures
        dec_int(-(n as int)) == seq!['-'] + dec(n),
        dec_int(n as int) == dec(n),
        signed_of(dec_int(n as int)) == (if n <= 0x7fff_ffff_ffff_ffff {
            Some(n as int)
        } else {
            None
        }),
{
    lemma_dec_digits(n);
    lemma_dec_value(n);
    assert(ascii_digit(dec(n)[0]));
}

/// Letters become small, and nothing else changes.
pub proof fn law_letters_become_small(s: Seq<char>, i: int)
    requires
        0 <= i < s.len(),
    ensures
        lowered(s).len() == s.len(),
        !ascii_upper(lowered(s)[i]),
        ascii_upper(s[i]) ==> ascii_lower(lowered(s)[i]) && lowered(s)[i] as u32 - 'a' as u32
            == s[i] as u32 - 'A' as u32,
        !ascii_upper(s[i]) ==> lowered(s)[i] == s[i],
{
}

/// The beginning of a text is as long as asked for, or the whole text.
pub proof fn law_beginnings_are_short(s: Seq<char>, n: nat)
    ensures
        s.len() <= n ==> first_chars(s, n) == s,
        s.len() > n ==> first_chars(s, n).len() == n && has_prefix(s, first_chars(s, n)),
{
    if s.len() > n {
        assert(s.subrange(0, n as int) =~= s.take(n as int));
    }
}

} // verus!
