//! JSON that may stand inside a `<script>` element.
//!
//! An HTML tokenizer leaves a script element at `</script>` in any letter
//! case and enters a comment at `<!--`. U+2028 and U+2029 are line
//! terminators to a JavaScript parser. Text of a user must bring none of them
//! into the page, so this is the one place where JSON is made safe. What comes
//! out is JSON still, and reads as before.

use vstd::prelude::*;
use crate::json::{hex_char, json_char, json_string};
use crate::text::{
    ascii_hex, flat, has_part, has_prefix, lemma_flat_concat, lemma_replaced_step, opt_view, replace, replaced, stands_at,
};

verus! {

/// `json` with every sequence broken up that could end the script element.
pub open spec fn script_safe(json: Seq<char>) -> Seq<char> {
    replaced(
        replaced(
            replaced(replaced(json, "</"@, "<\\/"@), "<!--"@, "<\\u0021--"@),
            "\u{2028}"@,
            "\\u2028"@,
        ),
        "\u{2029}"@,
        "\\u2029"@,
    )
}

/// Breaks up every sequence in `json` that could end the script element.
pub fn escape_json_for_script(json: &str) -> (r: String)
    ensures
        r@ == script_safe(json@),
{
    proof {
        reveal_strlit("</");
        reveal_strlit("<!--");
        reveal_strlit("\u{2028}");
        reveal_strlit("\u{2029}");
    }
    let a: String = replace(json, "</", "<\\/");
    let b: String = replace(a.as_str(), "<!--", "<\\u0021--");
    let c: String = replace(b.as_str(), "\u{2028}", "\\u2028");
    replace(c.as_str(), "\u{2029}", "\\u2029")
}

/// The script text for a value that was serialized to `json`. A value that
/// could not be serialized becomes `null`, which is an expression of its own;
/// an empty text would leave `const x = ;`.
pub fn json_for_script(json: Option<String>) -> (r: String)
    ensures
        r@ == script_safe(
            match opt_view(json) {
                Some(s) => s,
                None => "null"@,
            },
        ),
{
    match json {
        Some(s) => escape_json_for_script(s.as_str()),
        None => escape_json_for_script("null"),
    }
}

/// Escaped JSON holds nothing that closes a script element, opens a comment
/// or ends a line of script.
pub proof fn law_script_safe(json: Seq<char>)
    ensures
        !has_part(script_safe(json), "</"@),
        !has_part(script_safe(json), "<!--"@),
        !script_safe(json).contains('\u{2028}'),
        !script_safe(json).contains('\u{2029}'),
{
    reveal_strlit("</");
    reveal_strlit("<\\/");
    reveal_strlit("<!--");
    reveal_strlit("<\\u0021--");
    reveal_strlit("\u{2028}");
    reveal_strlit("\\u2028");
    reveal_strlit("\u{2029}");
    reveal_strlit("\\u2029");
    let close = "</"@;
    let open = "<!--"@;
    let a = replaced(json, close, "<\\/"@);
    let b = replaced(a, open, "<\\u0021--"@);
    let c = replaced(b, "\u{2028}"@, "\\u2028"@);
    let d = replaced(c, "\u{2029}"@, "\\u2029"@);
    lemma_no_close(json);
    lemma_keeps_no_close(a);
    lemma_no_open(a);
    let ls = '\u{2028}';
    let ps = '\u{2029}';
    assert("\u{2028}"@ =~= seq![ls]);
    assert("\u{2029}"@ =~= seq![ps]);
    lemma_no_char(b, ls, "\\u2028"@);
    lemma_no_char(c, ps, "\\u2029"@);
    lemma_keeps_absent(b, ls, "\\u2028"@, close);
    lemma_keeps_absent(b, ls, "\\u2028"@, open);
    lemma_keeps_absent(c, ps, "\\u2029"@, close);
    lemma_keeps_absent(c, ps, "\\u2029"@, open);
    if d.contains(ls) {
        let k = choose|k: int| 0 <= k < d.len() && d[k] == ls;
        assert(d.subrange(k, k + 1) =~= seq![ls]);
        assert(stands_at(d, seq![ls], k));
        lemma_keeps_absent(c, ps, "\\u2029"@, seq![ls]);
        let j = choose|j: int| stands_at(c, seq![ls], j);
        assert(c.subrange(j, j + 1)[0] == c[j]);
    }
}

/// A text that begins with `<` where its pattern and replacement do keeps its first character.
proof fn lemma_first_kept(s: Seq<char>, p: Seq<char>, w: Seq<char>)
    requires
        p.len() > 0,
        w.len() > 0,
        p[0] == w[0],
    ensures
        s.len() > 0 ==> replaced(s, p, w).len() > 0 && replaced(s, p, w)[0] == s[0],
        s.len() == 0 ==> replaced(s, p, w).len() == 0,
    decreases s.len(),
{
    if s.len() >= p.len() && has_prefix(s, p) {
        assert(s.subrange(0, p.len() as int)[0] == s[0]);
    }
}

proof fn lemma_no_close(s: Seq<char>)
    ensures
        !has_part(replaced(s, "</"@, "<\\/"@), "</"@),
    decreases s.len(),
{
    reveal_strlit("</");
    reveal_strlit("<\\/");
    let p = "</"@;
    let w = "<\\/"@;
    let r = replaced(s, p, w);
    if has_part(r, p) {
        let i = choose|i: int| stands_at(r, p, i);
        let found = r.subrange(i, i + 2);
        assert(found[0] == '<' && found[1] == '/');
        assert(r[i] == '<' && r[i + 1] == '/');
        if s.len() < 2 {
        } else if has_prefix(s, p) {
            let rest = replaced(s.skip(2), p, w);
            lemma_no_close(s.skip(2));
            assert(r =~= w + rest);
            if i >= 3 {
                assert(rest.subrange(i - 3, i - 1) =~= found);
                assert(stands_at(rest, p, i - 3));
            }
        } else {
            let rest = replaced(s.drop_first(), p, w);
            lemma_no_close(s.drop_first());
            assert(r =~= seq![s[0]] + rest);
            if i >= 1 {
                assert(rest.subrange(i - 1, i + 1) =~= found);
                assert(stands_at(rest, p, i - 1));
            } else {
                lemma_first_kept(s.drop_first(), p, w);
                assert(s.subrange(0, 2) =~= p);
            }
        }
    }
}

proof fn lemma_keeps_no_close(s: Seq<char>)
    requires
        !has_part(s, "</"@),
    ensures
        !has_part(replaced(s, "<!--"@, "<\\u0021--"@), "</"@),
    decreases s.len(),
{
    reveal_strlit("</");
    reveal_strlit("<!--");
    reveal_strlit("<\\u0021--");
    let p = "<!--"@;
    let w = "<\\u0021--"@;
    let r = replaced(s, p, w);
    if has_part(r, "</"@) {
        let i = choose|i: int| stands_at(r, "</"@, i);
        let found = r.subrange(i, i + 2);
        assert(found[0] == '<' && found[1] == '/');
        assert(r[i] == '<' && r[i + 1] == '/');
        if s.len() < 4 {
        } else if has_prefix(s, p) {
            let rest = replaced(s.skip(4), p, w);
            lemma_suffix_absent(s, "</"@, 4);
            lemma_keeps_no_close(s.skip(4));
            assert(r =~= w + rest);
            if i >= 9 {
                assert(rest.subrange(i - 9, i - 7) =~= found);
                assert(stands_at(rest, "</"@, i - 9));
            }
        } else {
            let rest = replaced(s.drop_first(), p, w);
            assert(s.drop_first() =~= s.skip(1));
            lemma_suffix_absent(s, "</"@, 1);
            lemma_keeps_no_close(s.drop_first());
            assert(r =~= seq![s[0]] + rest);
            if i >= 1 {
                assert(rest.subrange(i - 1, i + 1) =~= found);
                assert(stands_at(rest, "</"@, i - 1));
            } else {
                lemma_first_kept(s.drop_first(), p, w);
                assert(s.subrange(0, 2) =~= "</"@);
                assert(stands_at(s, "</"@, 0));
            }
        }
    }
}

/// What does not stand in a text does not stand in its tail.
proof fn lemma_suffix_absent(s: Seq<char>, q: Seq<char>, k: int)
    requires
        0 <= k <= s.len(),
        !has_part(s, q),
    ensures
        !has_part(s.skip(k), q),
{
    if has_part(s.skip(k), q) {
        let i = choose|i: int| stands_at(s.skip(k), q, i);
        assert(s.subrange(k + i, k + i + q.len()) =~= s.skip(k).subrange(i, i + q.len()));
        assert(stands_at(s, q, k + i));
    }
}

proof fn lemma_no_open(s: Seq<char>)
    ensures
        !has_part(replaced(s, "<!--"@, "<\\u0021--"@), "<!--"@),
    decreases s.len(),
{
    reveal_strlit("<!--");
    reveal_strlit("<\\u0021--");
    let p = "<!--"@;
    let w = "<\\u0021--"@;
    let r = replaced(s, p, w);
    if has_part(r, p) {
        let i = choose|i: int| stands_at(r, p, i);
        let found = r.subrange(i, i + 4);
        assert(found[0] == '<' && found[1] == '!' && found[2] == '-' && found[3] == '-');
        assert(r[i] == '<' && r[i + 1] == '!' && r[i + 2] == '-' && r[i + 3] == '-');
        if s.len() < 4 {
        } else if has_prefix(s, p) {
            let rest = replaced(s.skip(4), p, w);
            lemma_no_open(s.skip(4));
            assert(r =~= w + rest);
            if i >= 9 {
                assert(rest.subrange(i - 9, i - 5) =~= found);
                assert(stands_at(rest, p, i - 9));
            }
        } else {
            let rest = replaced(s.drop_first(), p, w);
            lemma_no_open(s.drop_first());
            assert(r =~= seq![s[0]] + rest);
            if i >= 1 {
                assert(rest.subrange(i - 1, i + 3) =~= found);
                assert(stands_at(rest, p, i - 1));
            } else {
                lemma_plain_prefix(s.drop_first(), p, w, 3);
                assert(rest[0] == r[1] && rest[1] == r[2] && rest[2] == r[3]);
                assert(s[1] == s.drop_first()[0]);
                assert(s[2] == s.drop_first()[1]);
                assert(s[3] == s.drop_first()[2]);
                assert(s.subrange(0, 4) =~= p);
            }
        }
    }
}

/// The characters before the first `<` of a replaced text are those of the text itself.
proof fn lemma_plain_prefix(s: Seq<char>, p: Seq<char>, w: Seq<char>, k: int)
    requires
        p.len() > 0,
        w.len() > 0,
        p[0] == '<',
        w[0] == '<',
        0 <= k <= replaced(s, p, w).len(),
        forall|j: int| 0 <= j < k ==> replaced(s, p, w)[j] != '<',
    ensures
        k <= s.len(),
        forall|j: int| 0 <= j < k ==> replaced(s, p, w)[j] == s[j],
    decreases k,
{
    if k > 0 {
        lemma_first_kept(s, p, w);
        if s.len() >= p.len() {
            if has_prefix(s, p) {
                assert(s.subrange(0, p.len() as int)[0] == s[0]);
            } else {
                let rest = replaced(s.drop_first(), p, w);
                assert(replaced(s, p, w) =~= seq![s[0]] + rest);
                assert forall|j: int| 0 <= j < k - 1 implies rest[j] != '<' by {
                    assert(replaced(s, p, w)[j + 1] == rest[j]);
                }
                lemma_plain_prefix(s.drop_first(), p, w, k - 1);
                assert forall|j: int| 0 <= j < k implies replaced(s, p, w)[j] == s[j] by {
                    if j > 0 {
                        assert(s[j] == s.drop_first()[j - 1]);
                    }
                }
            }
        }
    }
}

/// A character that is replaced is gone.
proof fn lemma_no_char(s: Seq<char>, c: char, w: Seq<char>)
    requires
        !w.contains(c),
    ensures
        !replaced(s, seq![c], w).contains(c),
    decreases s.len(),
{
    let p = seq![c];
    let r = replaced(s, p, w);
    if r.contains(c) {
        let k = choose|k: int| 0 <= k < r.len() && r[k] == c;
        if s.len() < 1 {
        } else if has_prefix(s, p) {
            lemma_no_char(s.skip(1), c, w);
            let rest = replaced(s.skip(1), p, w);
            assert(r =~= w + rest);
            if k < w.len() {
                assert(w[k] == c);
            } else {
                assert(rest[k - w.len()] == c);
            }
        } else {
            lemma_no_char(s.drop_first(), c, w);
            let rest = replaced(s.drop_first(), p, w);
            assert(r =~= seq![s[0]] + rest);
            if k == 0 {
                assert(s.subrange(0, 1) =~= p);
            } else {
                assert(rest[k - 1] == c);
            }
        }
    }
}

/// Replacing a character brings in no text that has nothing in common with the replacement.
proof fn lemma_keeps_absent(s: Seq<char>, c: char, w: Seq<char>, q: Seq<char>)
    requires
        q.len() > 0,
        w.len() > 0,
        forall|j: int| 0 <= j < q.len() ==> !w.contains(#[trigger] q[j]),
    ensures
        has_part(replaced(s, seq![c], w), q) ==> has_part(s, q),
    decreases s.len(),
{
    let p = seq![c];
    let r = replaced(s, p, w);
    if has_part(r, q) {
        let i = choose|i: int| stands_at(r, q, i);
        let n = q.len() as int;
        assert(r.subrange(i, i + n)[0] == q[0]);
        assert(r[i] == q[0]);
        if s.len() < 1 {
        } else if has_prefix(s, p) {
            let rest = replaced(s.skip(1), p, w);
            assert(r =~= w + rest);
            if i < w.len() {
                assert(w[i] == q[0]);
                assert(w.contains(q[0]));
            } else {
                assert(rest.subrange(i - w.len(), i - w.len() + n) =~= r.subrange(i, i + n));
                assert(stands_at(rest, q, i - w.len()));
                lemma_keeps_absent(s.skip(1), c, w, q);
                lemma_part_of_tail(s, q, 1);
            }
        } else {
            let rest = replaced(s.drop_first(), p, w);
            assert(r =~= seq![s[0]] + rest);
            assert(s.drop_first() =~= s.skip(1));
            if i >= 1 {
                assert(rest.subrange(i - 1, i - 1 + n) =~= r.subrange(i, i + n));
                assert(stands_at(rest, q, i - 1));
                lemma_keeps_absent(s.drop_first(), c, w, q);
                lemma_part_of_tail(s, q, 1);
            } else {
                let qt = q.drop_first();
                assert(rest.subrange(0, n - 1) =~= r.subrange(0, n).drop_first());
                lemma_keeps_prefix(s.drop_first(), c, w, qt);
                assert(s.subrange(0, n) =~= seq![s[0]] + s.drop_first().subrange(0, n - 1));
                assert(q =~= seq![q[0]] + qt);
                assert(stands_at(s, q, 0));
            }
        }
    }
}

proof fn lemma_part_of_tail(s: Seq<char>, q: Seq<char>, k: int)
    requires
        0 <= k <= s.len(),
        has_part(s.skip(k), q),
    ensures
        has_part(s, q),
{
    let i = choose|i: int| stands_at(s.skip(k), q, i);
    assert(s.subrange(k + i, k + i + q.len()) =~= s.skip(k).subrange(i, i + q.len()));
    assert(stands_at(s, q, k + i));
}

proof fn lemma_keeps_prefix(s: Seq<char>, c: char, w: Seq<char>, q: Seq<char>)
    requires
        w.len() > 0,
        forall|j: int| 0 <= j < q.len() ==> !w.contains(#[trigger] q[j]),
        has_prefix(replaced(s, seq![c], w), q),
    ensures
        has_prefix(s, q),
    decreases q.len(),
{
    let p = seq![c];
    let r = replaced(s, p, w);
    let n = q.len() as int;
    if n == 0 {
        assert(s.subrange(0, 0) =~= q);
    } else {
        assert(r.subrange(0, n)[0] == q[0]);
        assert(s.len() > 0);
        if has_prefix(s, p) {
            assert(r[0] == w[0]);
            assert(w.contains(q[0]));
        } else {
            let rest = replaced(s.drop_first(), p, w);
            let qt = q.drop_first();
            assert(r =~= seq![s[0]] + rest);
            assert(rest.subrange(0, n - 1) =~= r.subrange(0, n).drop_first());
            lemma_keeps_prefix(s.drop_first(), c, w, qt);
            assert(s.subrange(0, n) =~= seq![s[0]] + s.drop_first().subrange(0, n - 1));
            assert(q =~= seq![q[0]] + qt);
        }
    }
}

// ---------------------------------------------------------------------------
// What a reader of JSON sees
// ---------------------------------------------------------------------------

/// What a reader of JSON sees: a quote that begins or ends a string, a
/// character outside of strings, or the number of a character inside one.
pub enum JsonMark {
    Quote,
    Outside(char),
    Inside(int),
}

/// The value of a hexadecimal digit.
pub open spec fn hex_value(c: char) -> int {
    if c <= '9' {
        c as int - 48
    } else if c <= 'F' {
        c as int - 55
    } else {
        c as int - 87
    }
}

/// The character that a backslash and `c` stand for.
pub open spec fn short_escape(c: char) -> Option<int> {
    if c == '"' || c == '\\' || c == '/' {
        Some(c as int)
    } else if c == 'b' {
        Some(8)
    } else if c == 'f' {
        Some(12)
    } else if c == 'n' {
        Some(10)
    } else if c == 'r' {
        Some(13)
    } else if c == 't' {
        Some(9)
    } else {
        None
    }
}

/// A character that JSON has inside of strings only.
pub open spec fn string_only(c: char) -> bool {
    c == '<' || c == '\u{2028}' || c == '\u{2029}'
}

/// What a reader sees first in a text, inside or outside of a string, and how
/// many characters that takes; nothing where the text is no JSON.
pub open spec fn first_mark(s: Seq<char>, inside: bool) -> Option<(JsonMark, int)> {
    if s[0] == '"' {
        Some((JsonMark::Quote, 1))
    } else if !inside {
        if string_only(s[0]) {
            None
        } else {
            Some((JsonMark::Outside(s[0]), 1))
        }
    } else if s[0] != '\\' {
        if (s[0] as int) < 32 {
            None
        } else {
            Some((JsonMark::Inside(s[0] as int), 1))
        }
    } else if s.len() >= 2 && short_escape(s[1]) is Some {
        Some((JsonMark::Inside(short_escape(s[1])->0), 2))
    } else if s.len() >= 6 && s[1] == 'u' && ascii_hex(s[2]) && ascii_hex(s[3]) && ascii_hex(s[4])
        && ascii_hex(s[5]) {
        Some(
            (
                JsonMark::Inside(
                    4096 * hex_value(s[2]) + 256 * hex_value(s[3]) + 16 * hex_value(s[4])
                        + hex_value(s[5]),
                ),
                6,
            ),
        )
    } else {
        None
    }
}

/// What a reader sees in a text, from the inside or the outside of a string
/// on; nothing where the text is no JSON.
pub open spec fn marks(s: Seq<char>, inside: bool) -> Option<Seq<JsonMark>>
    decreases s.len(),
{
    if s.len() == 0 {
        if inside {
            None
        } else {
            Some(Seq::<JsonMark>::empty())
        }
    } else {
        match first_mark(s, inside) {
            None => None,
            Some((m, n)) => match marks(
                s.skip(n),
                if m is Quote {
                    !inside
                } else {
                    inside
                },
            ) {
                None => None,
                Some(rest) => Some(seq![m] + rest),
            },
        }
    }
}

/// What is seen after some characters of a string were seen.
spec fn seen_after(first: Seq<JsonMark>, rest: Option<Seq<JsonMark>>) -> Option<Seq<JsonMark>> {
    match rest {
        None => None,
        Some(r) => Some(first + r),
    }
}

/// One character of a string that stands for itself.
proof fn lemma_plain_mark(c: char, rest: Seq<char>)
    requires
        c != '"',
        c != '\\',
        c as int >= 32,
    ensures
        marks(seq![c] + rest, true) == seen_after(
            seq![JsonMark::Inside(c as int)],
            marks(rest, true),
        ),
{
    let s = seq![c] + rest;
    assert(s.skip(1) =~= rest);
}

/// A replacement that reads as what it replaces is not noticed. Only texts
/// that begin with a character of strings are replaced.
proof fn lemma_replaced_reads(s: Seq<char>, p: Seq<char>, w: Seq<char>, e: Seq<JsonMark>, inside: bool)
    requires
        p.len() > 0,
        string_only(p[0]),
        forall|rest: Seq<char>| #[trigger]
            marks(p + rest, true) == seen_after(e, marks(rest, true)),
        forall|rest: Seq<char>| #[trigger]
            marks(w + rest, true) == seen_after(e, marks(rest, true)),
        marks(s, inside) is Some,
    ensures
        marks(replaced(s, p, w), inside) == marks(s, inside),
    decreases s.len(),
{
    if s.len() == 0 {
        assert(replaced(s, p, w) =~= s);
    } else if has_prefix(s, p) {
        assert(s.subrange(0, p.len() as int)[0] == s[0]);
        let rest = s.skip(p.len() as int);
        assert(s =~= p + rest);
        assert(marks(p + rest, true) == seen_after(e, marks(rest, true)));
        lemma_replaced_reads(rest, p, w, e, true);
        assert(marks(w + replaced(rest, p, w), true) == seen_after(
            e,
            marks(replaced(rest, p, w), true),
        ));
    } else {
        let (m, n) = first_mark(s, inside)->0;
        let next = if m is Quote {
            !inside
        } else {
            inside
        };
        lemma_replaced_head(s, p, w, n);
        let rest = s.skip(n);
        let r = replaced(s, p, w);
        assert(r =~= s.take(n) + replaced(rest, p, w));
        lemma_replaced_reads(rest, p, w, e, next);
        assert(r.skip(n) =~= replaced(rest, p, w));
        assert(r.take(n) =~= s.take(n));
        assert forall|i: int| 0 <= i < n implies #[trigger] r[i] == s[i] by {
            assert(r.take(n)[i] == s.take(n)[i]);
        }
        assert(first_mark(r, inside) == first_mark(s, inside)) by {
            assert(r[0] == s[0]);
            if n >= 2 {
                assert(r[1] == s[1]);
            }
            if n == 6 {
                assert(r[2] == s[2] && r[3] == s[3] && r[4] == s[4] && r[5] == s[5]);
            }
        }
    }
}

/// The first `n` characters are kept where none of them begins what is
/// replaced, but for the first, at which it does not stand.
proof fn lemma_replaced_head(s: Seq<char>, p: Seq<char>, w: Seq<char>, n: int)
    requires
        0 < n <= s.len(),
        p.len() > 0,
        !has_prefix(s, p),
        forall|i: int| 1 <= i < n ==> #[trigger] s[i] != p[0],
    ensures
        replaced(s, p, w) == s.take(n) + replaced(s.skip(n), p, w),
    decreases n,
{
    lemma_replaced_step(s, p, w);
    let tail = s.drop_first();
    assert(tail =~= s.skip(1));
    if n == 1 {
        assert(s.take(1) =~= seq![s[0]]);
    } else {
        if has_prefix(tail, p) {
            assert(tail.subrange(0, p.len() as int)[0] == tail[0]);
            assert(s[1] == tail[0]);
        }
        assert forall|i: int| 1 <= i < n - 1 implies #[trigger] tail[i] != p[0] by {
            assert(tail[i] == s[i + 1]);
        }
        lemma_replaced_head(tail, p, w, n - 1);
        assert(tail.skip(n - 1) =~= s.skip(n));
        assert(s.take(n) =~= seq![s[0]] + tail.take(n - 1));
        assert(s.take(n) + replaced(s.skip(n), p, w) =~= seq![s[0]] + (tail.take(n - 1) + replaced(
            s.skip(n),
            p,
            w,
        )));
    }
}

/// A short escape in a string.
proof fn lemma_short_mark(c: char, rest: Seq<char>)
    requires
        short_escape(c) is Some,
    ensures
        marks(seq!['\\', c] + rest, true) == seen_after(
            seq![JsonMark::Inside(short_escape(c)->0)],
            marks(rest, true),
        ),
{
    let s = seq!['\\', c] + rest;
    assert(s.skip(2) =~= rest);
}

/// An escape of four digits in a string.
proof fn lemma_long_mark(a: char, b: char, c: char, d: char, rest: Seq<char>)
    requires
        ascii_hex(a),
        ascii_hex(b),
        ascii_hex(c),
        ascii_hex(d),
    ensures
        marks(seq!['\\', 'u', a, b, c, d] + rest, true) == seen_after(
            seq![
                JsonMark::Inside(
                    4096 * hex_value(a) + 256 * hex_value(b) + 16 * hex_value(c) + hex_value(d),
                ),
            ],
            marks(rest, true),
        ),
{
    let s = seq!['\\', 'u', a, b, c, d] + rest;
    assert(s.skip(6) =~= rest);
}

proof fn lemma_close_reads(rest: Seq<char>)
    ensures
        marks("</"@ + rest, true) == seen_after(
            seq![JsonMark::Inside(60), JsonMark::Inside(47)],
            marks(rest, true),
        ),
        marks("<\\/"@ + rest, true) == seen_after(
            seq![JsonMark::Inside(60), JsonMark::Inside(47)],
            marks(rest, true),
        ),
{
    reveal_strlit("</");
    reveal_strlit("<\\/");
    lemma_plain_mark('/', rest);
    lemma_plain_mark('<', seq!['/'] + rest);
    lemma_short_mark('/', rest);
    lemma_plain_mark('<', seq!['\\', '/'] + rest);
    assert("</"@ + rest =~= seq!['<'] + (seq!['/'] + rest));
    assert("<\\/"@ + rest =~= seq!['<'] + (seq!['\\', '/'] + rest));
    if let Some(r) = marks(rest, true) {
        assert(seq![JsonMark::Inside(60)] + (seq![JsonMark::Inside(47)] + r) =~= seq![
            JsonMark::Inside(60),
            JsonMark::Inside(47),
        ] + r);
    }
}

proof fn lemma_open_reads(rest: Seq<char>)
    ensures
        marks("<!--"@ + rest, true) == seen_after(
            seq![
                JsonMark::Inside(60),
                JsonMark::Inside(33),
                JsonMark::Inside(45),
                JsonMark::Inside(45),
            ],
            marks(rest, true),
        ),
        marks("<\\u0021--"@ + rest, true) == seen_after(
            seq![
                JsonMark::Inside(60),
                JsonMark::Inside(33),
                JsonMark::Inside(45),
                JsonMark::Inside(45),
            ],
            marks(rest, true),
        ),
{
    reveal_strlit("<!--");
    reveal_strlit("<\\u0021--");
    let one = seq!['-'] + rest;
    let two = seq!['-'] + one;
    lemma_plain_mark('-', rest);
    lemma_plain_mark('-', one);
    lemma_plain_mark('!', two);
    lemma_plain_mark('<', seq!['!'] + two);
    lemma_long_mark('0', '0', '2', '1', two);
    lemma_plain_mark('<', seq!['\\', 'u', '0', '0', '2', '1'] + two);
    assert("<!--"@ + rest =~= seq!['<'] + (seq!['!'] + two));
    assert("<\\u0021--"@ + rest =~= seq!['<'] + (seq!['\\', 'u', '0', '0', '2', '1'] + two));
    if let Some(r) = marks(rest, true) {
        let d = seq![JsonMark::Inside(45)];
        assert(seq![JsonMark::Inside(60)] + (seq![JsonMark::Inside(33)] + (d + (d + r))) =~= seq![
            JsonMark::Inside(60),
            JsonMark::Inside(33),
            JsonMark::Inside(45),
            JsonMark::Inside(45),
        ] + r);
    }
}

proof fn lemma_line_ends_read(rest: Seq<char>)
    ensures
        marks("\u{2028}"@ + rest, true) == seen_after(
            seq![JsonMark::Inside(0x2028)],
            marks(rest, true),
        ),
        marks("\\u2028"@ + rest, true) == seen_after(
            seq![JsonMark::Inside(0x2028)],
            marks(rest, true),
        ),
        marks("\u{2029}"@ + rest, true) == seen_after(
            seq![JsonMark::Inside(0x2029)],
            marks(rest, true),
        ),
        marks("\\u2029"@ + rest, true) == seen_after(
            seq![JsonMark::Inside(0x2029)],
            marks(rest, true),
        ),
{
    reveal_strlit("\u{2028}");
    reveal_strlit("\\u2028");
    reveal_strlit("\u{2029}");
    reveal_strlit("\\u2029");
    assert("\u{2028}"@ =~= seq!['\u{2028}']);
    assert("\u{2029}"@ =~= seq!['\u{2029}']);
    assert("\\u2028"@ =~= seq!['\\', 'u', '2', '0', '2', '8']);
    assert("\\u2029"@ =~= seq!['\\', 'u', '2', '0', '2', '9']);
    lemma_plain_mark('\u{2028}', rest);
    lemma_plain_mark('\u{2029}', rest);
    lemma_long_mark('2', '0', '2', '8', rest);
    lemma_long_mark('2', '0', '2', '9', rest);
}

/// Escaped JSON is JSON still, and a reader sees in it what it sees in the
/// text itself.
pub proof fn law_escaping_is_not_noticed(json: Seq<char>)
    requires
        marks(json, false) is Some,
    ensures
        marks(script_safe(json), false) == marks(json, false),
{
    reveal_strlit("</");
    reveal_strlit("<!--");
    reveal_strlit("\u{2028}");
    reveal_strlit("\u{2029}");
    let close = seq![JsonMark::Inside(60), JsonMark::Inside(47)];
    let open = seq![
        JsonMark::Inside(60),
        JsonMark::Inside(33),
        JsonMark::Inside(45),
        JsonMark::Inside(45),
    ];
    assert forall|rest: Seq<char>| #[trigger]
        marks("</"@ + rest, true) == seen_after(close, marks(rest, true)) by {
        lemma_close_reads(rest);
    }
    assert forall|rest: Seq<char>| #[trigger]
        marks("<\\/"@ + rest, true) == seen_after(close, marks(rest, true)) by {
        lemma_close_reads(rest);
    }
    assert forall|rest: Seq<char>| #[trigger]
        marks("<!--"@ + rest, true) == seen_after(open, marks(rest, true)) by {
        lemma_open_reads(rest);
    }
    assert forall|rest: Seq<char>| #[trigger]
        marks("<\\u0021--"@ + rest, true) == seen_after(open, marks(rest, true)) by {
        lemma_open_reads(rest);
    }
    let ls = seq![JsonMark::Inside(0x2028)];
    let ps = seq![JsonMark::Inside(0x2029)];
    assert forall|rest: Seq<char>| #[trigger]
        marks("\u{2028}"@ + rest, true) == seen_after(ls, marks(rest, true)) by {
        lemma_line_ends_read(rest);
    }
    assert forall|rest: Seq<char>| #[trigger]
        marks("\\u2028"@ + rest, true) == seen_after(ls, marks(rest, true)) by {
        lemma_line_ends_read(rest);
    }
    assert forall|rest: Seq<char>| #[trigger]
        marks("\u{2029}"@ + rest, true) == seen_after(ps, marks(rest, true)) by {
        lemma_line_ends_read(rest);
    }
    assert forall|rest: Seq<char>| #[trigger]
        marks("\\u2029"@ + rest, true) == seen_after(ps, marks(rest, true)) by {
        lemma_line_ends_read(rest);
    }
    let a = replaced(json, "</"@, "<\\/"@);
    let b = replaced(a, "<!--"@, "<\\u0021--"@);
    let c = replaced(b, "\u{2028}"@, "\\u2028"@);
    lemma_replaced_reads(json, "</"@, "<\\/"@, close, false);
    lemma_replaced_reads(a, "<!--"@, "<\\u0021--"@, open, false);
    lemma_replaced_reads(b, "\u{2028}"@, "\\u2028"@, ls, false);
    lemma_replaced_reads(c, "\u{2029}"@, "\\u2029"@, ps, false);
}

/// What a reader sees of the characters of a string.
pub open spec fn string_marks(s: Seq<char>) -> Seq<JsonMark> {
    s.map_values(|c: char| JsonMark::Inside(c as int))
}

proof fn lemma_json_char_reads(c: char, rest: Seq<char>)
    ensures
        marks(json_char(c) + rest, true) == seen_after(
            seq![JsonMark::Inside(c as int)],
            marks(rest, true),
        ),
{
    let e = json_char(c);
    if e.len() == 1 {
        assert(e =~= seq![c]);
        lemma_plain_mark(c, rest);
    } else if e.len() == 2 {
        assert(e =~= seq!['\\', e[1]]);
        lemma_short_mark(e[1], rest);
    } else {
        let (a, b) = (hex_char(c as nat / 16), hex_char(c as nat % 16));
        assert(e =~= seq!['\\', 'u', '0', '0', a, b]);
        lemma_long_mark('0', '0', a, b, rest);
    }
}

proof fn lemma_json_chars_read(s: Seq<char>)
    ensures
        marks(flat(s, |c: char| json_char(c)) + seq!['"'], true) == Some(
            string_marks(s) + seq![JsonMark::Quote],
        ),
    decreases s.len(),
{
    let f = |c: char| json_char(c);
    let q = seq!['"'];
    if s.len() == 0 {
        assert(flat(s, f) + q =~= q);
        assert(q.skip(1) =~= Seq::<char>::empty());
        assert(marks(Seq::<char>::empty(), false) == Some(Seq::<JsonMark>::empty()));
        assert(string_marks(s) + seq![JsonMark::Quote] =~= seq![JsonMark::Quote] + Seq::<
            JsonMark,
        >::empty());
    } else {
        let tail = s.drop_first();
        lemma_json_chars_read(tail);
        assert(s =~= seq![s[0]] + tail);
        lemma_flat_concat(seq![s[0]], tail, f);
        assert(seq![s[0]].drop_last() =~= Seq::<char>::empty());
        assert(flat(seq![s[0]].drop_last(), f) =~= Seq::<char>::empty());
        assert(flat(seq![s[0]], f) =~= json_char(s[0]));
        let rest = flat(tail, f) + q;
        assert(flat(s, f) + q =~= json_char(s[0]) + rest);
        lemma_json_char_reads(s[0], rest);
        assert(string_marks(s) + seq![JsonMark::Quote] =~= seq![JsonMark::Inside(s[0] as int)] + (
        string_marks(tail) + seq![JsonMark::Quote]));
    }
}

/// A text that is written as JSON and put into a script is read there as it
/// was.
pub proof fn law_text_reaches_the_script(s: Seq<char>)
    ensures
        marks(script_safe(json_string(s)), false) == Some(
            seq![JsonMark::Quote] + string_marks(s) + seq![JsonMark::Quote],
        ),
{
    let inner = flat(s, |c: char| json_char(c)) + seq!['"'];
    lemma_json_chars_read(s);
    let all = json_string(s);
    assert(all.skip(1) =~= inner);
    assert(seq![JsonMark::Quote] + (string_marks(s) + seq![JsonMark::Quote]) =~= seq![JsonMark::Quote]
        + string_marks(s) + seq![JsonMark::Quote]);
    law_escaping_is_not_noticed(all);
}

} // verus!
