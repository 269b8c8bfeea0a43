//! Text in HTML.

use vstd::prelude::*;
use crate::text::{flat, lemma_flat_concat, lemma_flat_step, to_chars};

verus! {

/// What stands for `c` in an element or a quoted attribute value.
pub open spec fn html_char(c: char) -> Seq<char> {
    if c == '&' {
        "&amp;"@
    } else if c == '<' {
        "&lt;"@
    } else if c == '>' {
        "&gt;"@
    } else if c == '"' {
        "&quot;"@
    } else if c == '\'' {
        "&#x27;"@
    } else {
        seq![c]
    }
}

/// `s` in an element or a quoted attribute value.
pub open spec fn html_text(s: Seq<char>) -> Seq<char> {
    flat(s, |c: char| html_char(c))
}

/// Escapes text for an element or a quoted attribute value.
pub fn html_escape(s: &str) -> (r: String)
    ensures
        r@ == html_text(s@),
{
    let a: Vec<char> = to_chars(s);
    let ghost f = |c: char| html_char(c);
    let mut r: String = String::new();
    let mut i: usize = 0;
    assert(a@.take(0) =~= Seq::<char>::empty());
    while i < a.len()
        invariant
            i <= a.len(),
            f == (|c: char| html_char(c)),
            r@ == flat(a@.take(i as int), f),
        decreases a.len() - i,
    {
        proof {
            lemma_flat_step(a@, f, i as int);
        }
        let c: char = a[i];
        let ghost before = r@;
        if c == '&' {
            r.append("&amp;");
        } else if c == '<' {
            r.append("&lt;");
        } else if c == '>' {
            r.append("&gt;");
        } else if c == '"' {
            r.append("&quot;");
        } else if c == '\'' {
            r.append("&#x27;");
        } else {
            r.push(c);
            assert(r@ =~= before + seq![c]);
        }
        i = i + 1;
    }
    assert(a@.take(i as int) =~= s@);
    r
}

/// Escaped text holds no character that opens markup or ends an attribute value.
pub proof fn law_html_text_is_inert(s: Seq<char>)
    ensures
        !html_text(s).contains('<'),
        !html_text(s).contains('>'),
        !html_text(s).contains('"'),
        !html_text(s).contains('\''),
    decreases s.len(),
{
    reveal_strlit("&amp;");
    reveal_strlit("&lt;");
    reveal_strlit("&gt;");
    reveal_strlit("&quot;");
    reveal_strlit("&#x27;");
    if s.len() > 0 {
        law_html_text_is_inert(s.drop_last());
        let head = html_text(s.drop_last());
        let tail = html_char(s.last());
        let all = html_text(s);
        assert(all == head + tail);
        assert forall|k: int| 0 <= k < all.len() implies all[k] != '<' && all[k] != '>' && all[k]
            != '"' && all[k] != '\'' by {
            if k < head.len() {
                assert(head[k] == all[k]);
                assert(head.contains(all[k]));
            } else {
                assert(tail[k - head.len()] == all[k]);
            }
        }
    }
}

// ---------------------------------------------------------------------------
// Where a text stands in a page
// ---------------------------------------------------------------------------

/// The text `p` stands at place `i` of `s`.
pub open spec fn stands(s: Seq<char>, p: Seq<char>, i: int) -> bool {
    0 <= i && i + p.len() <= s.len() && forall|j: int|
        0 <= j < p.len() ==> #[trigger] s[i + j] == p[j]
}

/// At how many of the first `k` places of `s` the text `p` stands.
pub open spec fn count_within(s: Seq<char>, p: Seq<char>, k: nat) -> nat
    decreases k,
{
    if k == 0 {
        0
    } else {
        count_within(s, p, (k - 1) as nat) + if stands(s, p, k - 1) {
            1nat
        } else {
            0nat
        }
    }
}

/// How often the text `p` stands in `s`.
pub open spec fn count_of(s: Seq<char>, p: Seq<char>) -> nat {
    count_within(s, p, s.len())
}

/// A tag that begins among the last `n - 1` characters ends among them, too.
pub open spec fn calm(s: Seq<char>, n: nat) -> bool {
    forall|i: int|
        s.len() - n < i < s.len() && i >= 0 && #[trigger] s[i] == '<' ==> exists|j: int|
            i < j < s.len() && #[trigger] s[j] == '>'
}

proof fn lemma_count_start(a: Seq<char>, b: Seq<char>, p: Seq<char>, k: nat)
    requires
        p.len() > 0,
        p[0] == '<',
        !p.contains('>'),
        calm(a, p.len()),
        k <= a.len(),
    ensures
        count_within(a + b, p, k) == count_within(a, p, k),
    decreases k,
{
    if k > 0 {
        lemma_count_start(a, b, p, (k - 1) as nat);
        let s = a + b;
        let i = k - 1;
        if stands(s, p, i) {
            assert(s[i + 0] == p[0]);
            assert(a[i] == '<');
            if i + p.len() > a.len() {
                let j = choose|j: int| i < j < a.len() && #[trigger] a[j] == '>';
                assert(s[i + (j - i)] == p[j - i]);
                assert(p.contains(p[j - i]));
            }
            assert forall|j: int| 0 <= j < p.len() implies #[trigger] a[i + j] == p[j] by {
                assert(s[i + j] == p[j]);
            }
        }
        if stands(a, p, i) {
            assert forall|j: int| 0 <= j < p.len() implies #[trigger] s[i + j] == p[j] by {
                assert(a[i + j] == p[j]);
            }
        }
    }
}

proof fn lemma_count_rest(a: Seq<char>, b: Seq<char>, p: Seq<char>, k: nat)
    requires
        p.len() > 0,
        p[0] == '<',
        !p.contains('>'),
        calm(a, p.len()),
        k <= b.len(),
    ensures
        count_within(a + b, p, a.len() + k) == count_of(a, p) + count_within(b, p, k),
    decreases k,
{
    if k == 0 {
        lemma_count_start(a, b, p, a.len());
    } else {
        lemma_count_rest(a, b, p, (k - 1) as nat);
        let s = a + b;
        let i = k - 1;
        let n = a.len() as int;
        if stands(b, p, i) {
            assert forall|j: int| 0 <= j < p.len() implies #[trigger] s[n + i + j] == p[j] by {
                assert(b[i + j] == p[j]);
            }
        }
        if stands(s, p, n + i) {
            assert forall|j: int| 0 <= j < p.len() implies #[trigger] b[i + j] == p[j] by {
                assert(s[n + i + j] == p[j]);
            }
        }
        assert((a.len() + k - 1) as nat == a.len() + (k - 1) as nat);
    }
}

/// What begins with `<` stands in two texts together as often as in both.
pub proof fn lemma_count_joined(a: Seq<char>, b: Seq<char>, p: Seq<char>)
    requires
        p.len() > 0,
        p[0] == '<',
        !p.contains('>'),
        calm(a, p.len()),
        calm(b, p.len()),
    ensures
        count_of(a + b, p) == count_of(a, p) + count_of(b, p),
        calm(a + b, p.len()),
{
    lemma_count_rest(a, b, p, b.len());
    let s = a + b;
    assert forall|i: int|
        s.len() - p.len() < i < s.len() && i >= 0 && #[trigger] s[i] == '<' implies exists|j: int|
        i < j < s.len() && #[trigger] s[j] == '>' by {
        if i >= a.len() {
            assert(b[i - a.len()] == '<');
            let j = choose|j: int| i - a.len() < j < b.len() && #[trigger] b[j] == '>';
            assert(s[a.len() + j] == '>');
        } else {
            assert(a[i] == '<');
            let j = choose|j: int| i < j < a.len() && #[trigger] a[j] == '>';
            assert(s[j] == '>');
        }
    }
}

/// In a text without `<` nothing stands that begins with it.
pub proof fn lemma_count_plain(s: Seq<char>, p: Seq<char>, k: nat)
    requires
        p.len() > 0,
        p[0] == '<',
        !s.contains('<'),
        k <= s.len(),
    ensures
        count_within(s, p, k) == 0,
        calm(s, p.len()),
    decreases k,
{
    assert forall|i: int| 0 <= i < s.len() implies s[i] != '<' by {
        assert(s.contains(s[i]));
    }
    if k > 0 {
        lemma_count_plain(s, p, (k - 1) as nat);
        if stands(s, p, k - 1) {
            assert(s[k - 1 + 0] == p[0]);
        }
    }
}

/// What stands at one place, with `<` at no other, stands there once.
pub proof fn lemma_count_single(s: Seq<char>, p: Seq<char>, at: int, k: nat)
    requires
        p.len() > 0,
        p[0] == '<',
        stands(s, p, at),
        forall|i: int| 0 <= i < s.len() && i != at ==> #[trigger] s[i] != '<',
        k <= s.len(),
    ensures
        count_within(s, p, k) == (if at < k {
            1nat
        } else {
            0nat
        }),
    decreases k,
{
    if k > 0 {
        lemma_count_single(s, p, at, (k - 1) as nat);
        if stands(s, p, k - 1) {
            assert(s[k - 1 + 0] == p[0]);
        }
    }
}

/// Each mark of the markup has its own entity, and every other character stands for
/// itself.
pub proof fn law_marks_have_their_entities(c: char)
    ensures
        html_char('&') == "&amp;"@,
        html_char('<') == "&lt;"@,
        html_char('>') == "&gt;"@,
        html_char('"') == "&quot;"@,
        html_char('\'') == "&#x27;"@,
        c != '&' && c != '<' && c != '>' && c != '"' && c != '\'' ==> html_char(c) == seq![c],
{
}

/// Text put together is escaped piece by piece.
pub proof fn law_escaping_goes_piece_by_piece(a: Seq<char>, b: Seq<char>)
    ensures
        html_text(a + b) == html_text(a) + html_text(b),
{
    lemma_flat_concat(a, b, |c: char| html_char(c));
}

} // verus!
