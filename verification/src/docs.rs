//! The changelog as a page: Markdown with anchors at its headings.
//!
//! The Markdown parser gives a list of events. Headings get anchors of their
//! own, diagrams are passed on as they are written, and everything else stays
//! as it is.

use vstd::prelude::*;
use crate::text::{
    concat3, dec, dec_of, digit_char, flat, is_alnum, is_white, lemma_dec_injective,
    lemma_flat_step, lower_char, str_eq, to_chars, to_lower, white,
};
use crate::text::ascii_alnum;

verus! {

// ---------------------------------------------------------------------------
// Anchors
// ---------------------------------------------------------------------------

/// Punctuation that separates the words of an anchor.
pub open spec fn punctuation(c: char) -> bool {
    c == '.' || c == ',' || c == '(' || c == ')' || c == '[' || c == ']' || c == '{' || c == '}' || c
        == '!' || c == '?' || c == '\'' || c == '"' || c == '`' || c == '/' || c == '\\' || c == ':'
        || c == ';' || c == '|' || c == '<' || c == '>'
}

fn is_punctuation(c: char) -> (r: bool)
    ensures
        r == punctuation(c),
{
    c == '.' || c == ',' || c == '(' || c == ')' || c == '[' || c == ']' || c == '{' || c == '}' || c
        == '!' || c == '?' || c == '\'' || c == '"' || c == '`' || c == '/' || c == '\\' || c == ':'
        || c == ';' || c == '|' || c == '<' || c == '>'
}

/// The anchor of the first `k` characters, before its end is trimmed. Letters
/// become small; spaces and punctuation become one hyphen between words.
pub open spec fn slug_part(s: Seq<char>, k: nat) -> Seq<char>
    decreases k,
{
    if k == 0 {
        Seq::<char>::empty()
    } else {
        let before = slug_part(s, (k - 1) as nat);
        let c = s[k - 1];
        if ascii_alnum(c) {
            before.push(lower_char(c))
        } else if c == '-' || c == '_' {
            before.push(c)
        } else if white(c) || punctuation(c) {
            if before.len() == 0 || before.last() == '-' {
                before
            } else {
                before.push('-')
            }
        } else {
            before.push(c)
        }
    }
}

/// A text without the hyphens at its end.
pub open spec fn without_hyphens(s: Seq<char>) -> Seq<char>
    decreases s.len(),
{
    if s.len() > 0 && s.last() == '-' {
        without_hyphens(s.drop_last())
    } else {
        s
    }
}

/// The anchor of a text.
pub open spec fn slug(s: Seq<char>) -> Seq<char> {
    let t = without_hyphens(slug_part(s, s.len()));
    if t.len() == 0 {
        "section"@
    } else {
        t
    }
}

/// Makes the anchor of a text.
pub fn slugify(text: &str) -> (r: String)
    ensures
        r@ == slug(text@),
{
    let a: Vec<char> = to_chars(text);
    let mut out: Vec<char> = Vec::new();
    let mut i: usize = 0;
    assert(out@ =~= slug_part(a@, 0));
    while i < a.len()
        invariant
            i <= a@.len(),
            out@ == slug_part(a@, i as nat),
        decreases a@.len() - i,
    {
        let c: char = a[i];
        if is_alnum(c) {
            out.push(to_lower(c));
        } else if c == '-' || c == '_' {
            out.push(c);
        } else if is_white(c) || is_punctuation(c) {
            if out.len() > 0 && out[out.len() - 1] != '-' {
                out.push('-');
            }
        } else {
            out.push(c);
        }
        i = i + 1;
    }
    let ghost whole = out@;
    let mut n: usize = out.len();
    assert(out@.take(n as int) =~= out@);
    while n > 0 && out[n - 1] == '-'
        invariant
            n <= out@.len(),
            whole == out@,
            without_hyphens(whole) == without_hyphens(out@.take(n as int)),
        decreases n,
    {
        assert(out@.take(n as int).last() == out@[n - 1]);
        assert(out@.take(n as int).drop_last() =~= out@.take(n - 1));
        n = n - 1;
    }
    if n > 0 {
        assert(out@.take(n as int).last() == out@[n - 1]);
    }
    assert(without_hyphens(whole) == out@.take(n as int));
    if n == 0 {
        return "section".to_owned();
    }
    let r: String = crate::text::from_range(&out, 0, n);
    assert(r@ =~= out@.take(n as int));
    r
}

proof fn lemma_slug_part_plain(s: Seq<char>, k: nat)
    requires
        k <= s.len(),
    ensures
        forall|i: int|
            0 <= i < slug_part(s, k).len() ==> !white(#[trigger] slug_part(s, k)[i]) && !punctuation(
                slug_part(s, k)[i],
            ),
    decreases k,
{
    if k > 0 {
        lemma_slug_part_plain(s, (k - 1) as nat);
        let before = slug_part(s, (k - 1) as nat);
        let r = slug_part(s, k);
        assert forall|i: int| 0 <= i < r.len() implies !white(#[trigger] r[i]) && !punctuation(r[i]) by {
            if i < before.len() {
                assert(r[i] == before[i]);
            }
        }
    }
}

proof fn lemma_trimmed_prefix(s: Seq<char>)
    ensures
        without_hyphens(s).len() <= s.len(),
        without_hyphens(s) == s.take(without_hyphens(s).len() as int),
        without_hyphens(s).len() > 0 ==> without_hyphens(s).last() != '-',
    decreases s.len(),
{
    if s.len() > 0 && s.last() == '-' {
        lemma_trimmed_prefix(s.drop_last());
        assert(s.drop_last().take(without_hyphens(s).len() as int) =~= s.take(
            without_hyphens(s).len() as int,
        ));
    } else {
        assert(s.take(s.len() as int) =~= s);
    }
}

/// An anchor is not empty, does not end with a hyphen, and holds neither
/// spaces nor quotes nor angle brackets, so that it can stand in an attribute
/// and in a link as it is.
pub proof fn law_slug_is_an_anchor(s: Seq<char>)
    ensures
        slug(s).len() > 0,
        slug(s).last() != '-',
        forall|i: int|
            0 <= i < slug(s).len() ==> !white(#[trigger] slug(s)[i]) && !punctuation(slug(s)[i]),
{
    reveal_strlit("section");
    let p = slug_part(s, s.len());
    lemma_slug_part_plain(s, s.len());
    lemma_trimmed_prefix(p);
    let t = without_hyphens(p);
    assert forall|i: int| 0 <= i < t.len() implies !white(#[trigger] t[i]) && !punctuation(t[i]) by {
        assert(t[i] == p[i]);
    }
}

/// How often each anchor was asked for.
pub type Used = Seq<(Seq<char>, nat)>;

/// How often an anchor was asked for.
pub open spec fn times_used(used: Used, base: Seq<char>) -> nat
    decreases used.len(),
{
    if used.len() == 0 {
        0
    } else if used.last().0 == base {
        used.last().1
    } else {
        times_used(used.drop_last(), base)
    }
}

/// An anchor that was asked for `n` times before: from the second time on it
/// is numbered.
pub open spec fn numbered(base: Seq<char>, n: nat) -> Seq<char> {
    if n == 0 {
        base
    } else {
        base + "-"@ + dec(n)
    }
}

/// Headings of one wording get anchors that differ.
pub proof fn law_same_wording_different_anchor(base: Seq<char>, m: nat, n: nat)
    requires
        m != n,
    ensures
        numbered(base, m) != numbered(base, n),
{
    reveal_strlit("-");
    if m == 0 {
        assert(numbered(base, n).len() > base.len());
    } else if n == 0 {
        assert(numbered(base, m).len() > base.len());
    } else if numbered(base, m) == numbered(base, n) {
        let a = numbered(base, m);
        assert(a.skip(base.len() as int + 1) =~= dec(m));
        assert(numbered(base, n).skip(base.len() as int + 1) =~= dec(n));
        lemma_dec_injective(m, n);
    }
}

/// The counts, as mathematics has them.
pub open spec fn used_views(v: Seq<(String, usize)>) -> Used {
    v.map_values(|u: (String, usize)| (u.0@, u.1 as nat))
}

/// No count is above `n`.
pub open spec fn counts_within(v: Seq<(String, usize)>, n: int) -> bool {
    forall|i: int| 0 <= i < v.len() ==> (#[trigger] v[i]).1 <= n
}

/// Makes an anchor for a heading and counts it.
pub fn unique_slug(text: &str, used: &mut Vec<(String, usize)>) -> (r: String)
    requires
        counts_within(old(used)@, usize::MAX - 1),
    ensures
        r@ == numbered(slug(text@), times_used(used_views(old(used)@), slug(text@))),
        used_views(final(used)@) == used_views(old(used)@).push(
            (slug(text@), times_used(used_views(old(used)@), slug(text@)) + 1),
        ),
        forall|n: int| #[trigger]
            counts_within(old(used)@, n) && n >= 0 ==> counts_within(final(used)@, n + 1),
{
    let base: String = slugify(text);
    let ghost all = used_views(used@);
    let ghost start = used@;
    let mut n: usize = used.len();
    let mut count: usize = 0;
    let mut found: bool = false;
    assert(all.take(n as int) =~= all);
    while n > 0 && !found
        invariant
            n <= used@.len(),
            used@ == start,
            all == used_views(start),
            base@ == slug(text@),
            counts_within(start, usize::MAX - 1),
            found ==> times_used(all, base@) == count,
            !found ==> count == 0 && times_used(all, base@) == times_used(
                all.take(n as int),
                base@,
            ),
            count < usize::MAX,
            forall|m: int| #[trigger] counts_within(start, m) && m >= 0 ==> count <= m,
        decreases n,
    {
        assert(all.take(n as int).last() == (start[n - 1].0@, start[n - 1].1 as nat));
        assert(all.take(n as int).drop_last() =~= all.take(n - 1));
        if str_eq(used[n - 1].0.as_str(), base.as_str()) {
            count = used[n - 1].1;
            found = true;
        }
        n = n - 1;
    }
    used.push((base.clone(), count + 1));
    assert(used_views(used@) =~= all.push((base@, (count + 1) as nat)));
    assert forall|m: int| #[trigger] counts_within(start, m) && m >= 0 implies counts_within(
        used@,
        m + 1,
    ) by {
        assert forall|i: int| 0 <= i < used@.len() implies (#[trigger] used@[i]).1 <= m + 1 by {
            if i < start.len() {
                assert(used@[i] == start[i]);
            }
        }
    }
    if count == 0 {
        base
    } else {
        concat3(base.as_str(), "-", dec_of(count as u64).as_str())
    }
}

// ---------------------------------------------------------------------------
// Diagrams
// ---------------------------------------------------------------------------

/// What stands for `c` in an element.
pub open spec fn element_char(c: char) -> Seq<char> {
    if c == '&' {
        "&amp;"@
    } else if c == '<' {
        "&lt;"@
    } else if c == '>' {
        "&gt;"@
    } else {
        seq![c]
    }
}

/// `s` in an element.
pub open spec fn element_text(s: Seq<char>) -> Seq<char> {
    flat(s, |c: char| element_char(c))
}

/// Escapes text for an element.
pub fn html_escape(s: &str) -> (r: String)
    ensures
        r@ == element_text(s@),
{
    let a: Vec<char> = to_chars(s);
    let ghost f = |c: char| element_char(c);
    let mut r: String = String::new();
    let mut i: usize = 0;
    assert(a@.take(0) =~= Seq::<char>::empty());
    while i < a.len()
        invariant
            i <= a.len(),
            f == (|c: char| element_char(c)),
            r@ == flat(a@.take(i as int), f),
        decreases a.len() - i,
    {
        proof {
            lemma_flat_step(a@, f, i as int);
        }
        let c: char = a[i];
        let ghost before = r@;
        if c == '&' {
            r.append("&amp;");
        } else if c == '<' {
            r.append("&lt;");
        } else if c == '>' {
            r.append("&gt;");
        } else {
            r.push(c);
        }
        assert(r@ =~= before + element_char(c));
        i = i + 1;
    }
    assert(a@.take(a@.len() as int) =~= a@);
    r
}

// ---------------------------------------------------------------------------
// Events
// ---------------------------------------------------------------------------

/// An event of the Markdown parser, as far as this page looks at it.
#[derive(Debug)]
pub enum MdEvent {
    /// A fenced block begins, in the language named.
    FencedStart(String),
    CodeBlockEnd,
    Text(String),
    Code(String),
    HeadingStart,
    /// A heading of that level ends.
    HeadingEnd(u8),
    Other,
}

/// An event, as mathematics has it.
pub enum MdEventView {
    FencedStart(Seq<char>),
    CodeBlockEnd,
    Text(Seq<char>),
    Code(Seq<char>),
    HeadingStart,
    HeadingEnd(u8),
    Other,
}

impl View for MdEvent {
    type V = MdEventView;

    open spec fn view(&self) -> MdEventView {
        match self {
            MdEvent::FencedStart(l) => MdEventView::FencedStart(l@),
            MdEvent::CodeBlockEnd => MdEventView::CodeBlockEnd,
            MdEvent::Text(t) => MdEventView::Text(t@),
            MdEvent::Code(t) => MdEventView::Code(t@),
            MdEvent::HeadingStart => MdEventView::HeadingStart,
            MdEvent::HeadingEnd(n) => MdEventView::HeadingEnd(*n),
            MdEvent::Other => MdEventView::Other,
        }
    }
}

/// A piece of the page: HTML of its own, or an event as the parser gave it.
#[derive(Debug)]
pub enum MdPiece {
    Html(String),
    Keep(usize),
}

/// A piece of the page, as mathematics has it.
pub enum MdPieceView {
    Html(Seq<char>),
    Keep(int),
}

impl View for MdPiece {
    type V = MdPieceView;

    open spec fn view(&self) -> MdPieceView {
        match self {
            MdPiece::Html(h) => MdPieceView::Html(h@),
            MdPiece::Keep(i) => MdPieceView::Keep(*i as int),
        }
    }
}

/// The events, as mathematics has them.
pub open spec fn event_views(v: Seq<MdEvent>) -> Seq<MdEventView> {
    v.map_values(|e: MdEvent| e@)
}

/// The pieces, as mathematics has them.
pub open spec fn piece_views(v: Seq<MdPiece>) -> Seq<MdPieceView> {
    v.map_values(|p: MdPiece| p@)
}

/// An entry of the table of contents.
#[derive(Debug)]
pub struct NavItem {
    pub slug: String,
    pub text: String,
}

/// The entries, as mathematics has them.
pub open spec fn nav_views(v: Seq<NavItem>) -> Seq<(Seq<char>, Seq<char>)> {
    v.map_values(|n: NavItem| (n.slug@, n.text@))
}

/// How far a page has come.
pub struct MdState {
    pub out: Seq<MdPieceView>,
    pub nav: Seq<(Seq<char>, Seq<char>)>,
    pub used: Used,
    /// The text of the heading that is open, with its pieces.
    pub heading: Option<(Seq<char>, Seq<MdPieceView>)>,
    /// The text of a diagram that is open.
    pub diagram: Option<Seq<char>>,
}

/// The name of the element for a heading.
pub open spec fn heading_element(level: u8) -> Seq<char> {
    match level {
        1 => "h1"@,
        2 => "h2"@,
        3 => "h3"@,
        4 => "h4"@,
        5 => "h5"@,
        _ => "h6"@,
    }
}

/// The page before the first event.
pub open spec fn md_start() -> MdState {
    MdState {
        out: Seq::<MdPieceView>::empty(),
        nav: Seq::<(Seq<char>, Seq<char>)>::empty(),
        used: Seq::<(Seq<char>, nat)>::empty(),
        heading: None,
        diagram: None,
    }
}

/// A heading ends: its element gets an anchor, and one of the second level
/// an entry in the table of contents.
pub open spec fn heading_done(s: MdState, level: u8) -> MdState {
    let text = match s.heading {
        Some(h) => h.0,
        None => Seq::<char>::empty(),
    };
    let inner = match s.heading {
        Some(h) => h.1,
        None => Seq::<MdPieceView>::empty(),
    };
    let base = slug(text);
    let n = times_used(s.used, base);
    let anchor = numbered(base, n);
    let tag = heading_element(level);
    MdState {
        out: s.out.push(MdPieceView::Html("<"@ + tag + " id=\""@ + anchor + "\">"@)) + inner + seq![
            MdPieceView::Html("</"@ + tag + ">"@),
        ],
        nav: if level == 2 {
            s.nav.push((anchor, text))
        } else {
            s.nav
        },
        used: s.used.push((base, n + 1)),
        heading: None,
        diagram: s.diagram,
    }
}

/// The page after one event more, the one at position `i`.
pub open spec fn md_step(s: MdState, e: MdEventView, i: int) -> MdState {
    match e {
        MdEventView::FencedStart(l) => if l == "mermaid"@ {
            MdState { diagram: Some(Seq::<char>::empty()), ..s }
        } else {
            md_other(s, i)
        },
        MdEventView::CodeBlockEnd => match s.diagram {
            Some(t) => MdState {
                out: s.out.push(
                    MdPieceView::Html(
                        "<pre class=\"mermaid\">"@ + element_text(t) + "</pre>"@,
                    ),
                ),
                diagram: None,
                ..s
            },
            None => md_other(s, i),
        },
        MdEventView::Text(t) => match s.diagram {
            Some(d) => MdState { diagram: Some(d + t), ..s },
            None => match s.heading {
                Some(h) => MdState {
                    heading: Some((h.0 + t, h.1.push(MdPieceView::Keep(i)))),
                    ..s
                },
                None => md_other(s, i),
            },
        },
        MdEventView::HeadingStart => MdState {
            heading: Some((Seq::<char>::empty(), Seq::<MdPieceView>::empty())),
            ..s
        },
        MdEventView::HeadingEnd(level) => heading_done(s, level),
        MdEventView::Code(t) => match s.heading {
            Some(h) => MdState {
                heading: Some((h.0 + t, h.1.push(MdPieceView::Keep(i)))),
                ..s
            },
            None => md_other(s, i),
        },
        MdEventView::Other => md_other(s, i),
    }
}

/// An event that is passed on: into the heading that is open, or to the page;
/// inside a diagram it is dropped.
pub open spec fn md_other(s: MdState, i: int) -> MdState {
    match s.heading {
        Some(h) => MdState { heading: Some((h.0, h.1.push(MdPieceView::Keep(i)))), ..s },
        None => if s.diagram is None {
            MdState { out: s.out.push(MdPieceView::Keep(i)), ..s }
        } else {
            s
        },
    }
}

/// The page after the first `k` events.
pub open spec fn md_after(events: Seq<MdEventView>, k: nat) -> MdState
    decreases k,
{
    if k == 0 {
        md_start()
    } else {
        md_step(md_after(events, (k - 1) as nat), events[k - 1], k - 1)
    }
}

/// Every event that is kept is one of the first `k`.
pub open spec fn kept_within(pieces: Seq<MdPieceView>, k: int) -> bool {
    forall|i: int|
        0 <= i < pieces.len() ==> ((#[trigger] pieces[i]) matches MdPieceView::Keep(n) ==> 0 <= n < k)
}

/// The page in the making.
struct Page {
    out: Vec<MdPiece>,
    nav: Vec<NavItem>,
    used: Vec<(String, usize)>,
    heading: Option<(String, Vec<MdPiece>)>,
    diagram: Option<String>,
}

impl Page {
    spec fn state(self) -> MdState {
        MdState {
            out: piece_views(self.out@),
            nav: nav_views(self.nav@),
            used: used_views(self.used@),
            heading: match self.heading {
                Some(h) => Some((h.0@, piece_views(h.1@))),
                None => None,
            },
            diagram: crate::text::opt_view(self.diagram),
        }
    }
}

fn heading_tag(level: u8) -> (r: &'static str)
    ensures
        r@ == heading_element(level),
{
    match level {
        1 => "h1",
        2 => "h2",
        3 => "h3",
        4 => "h4",
        5 => "h5",
        _ => "h6",
    }
}

fn pass_on(p: Page, i: usize) -> (r: Page)
    ensures
        r.state() == md_other(p.state(), i as int),
        r.used == p.used,
{
    let mut p: Page = p;
    match p.heading {
        Some(h) => {
            let (text, pieces): (String, Vec<MdPiece>) = h;
            let mut pieces: Vec<MdPiece> = pieces;
            let ghost before = piece_views(pieces@);
            pieces.push(MdPiece::Keep(i));
            assert(piece_views(pieces@) =~= before.push(MdPieceView::Keep(i as int)));
            p.heading = Some((text, pieces));
        },
        None => {
            p.heading = None;
            if p.diagram.is_none() {
                let ghost before = piece_views(p.out@);
                p.out.push(MdPiece::Keep(i));
                assert(piece_views(p.out@) =~= before.push(MdPieceView::Keep(i as int)));
            }
        },
    }
    p
}

fn end_heading(p: Page, level: u8) -> (r: Page)
    requires
        counts_within(p.used@, usize::MAX - 1),
    ensures
        r.state() == heading_done(p.state(), level),
        forall|n: int| #[trigger]
            counts_within(p.used@, n) && n >= 0 ==> counts_within(r.used@, n + 1),
{
    let ghost s = p.state();
    let mut p: Page = p;
    let (text, inner): (String, Vec<MdPiece>) = match p.heading {
        Some(h) => h,
        None => {
            let none: Vec<MdPiece> = Vec::new();
            assert(piece_views(none@) =~= Seq::<MdPieceView>::empty());
            (String::new(), none)
        },
    };
    p.heading = None;
    let anchor: String = unique_slug(text.as_str(), &mut p.used);
    let tag: &'static str = heading_tag(level);
    let mut opening: String = "<".to_owned();
    opening.append(tag);
    opening.append(" id=\"");
    opening.append(anchor.as_str());
    opening.append("\">");
    let ghost o = opening@;
    p.out.push(MdPiece::Html(opening));
    let ghost with_opening = piece_views(p.out@);
    assert(with_opening =~= s.out.push(MdPieceView::Html(o)));
    let mut inner: Vec<MdPiece> = inner;
    let ghost iv = piece_views(inner@);
    let ghost ii = inner@;
    p.out.append(&mut inner);
    assert(piece_views(p.out@) =~= with_opening + iv);
    let closing: String = concat3("</", tag, ">");
    let ghost c = closing@;
    p.out.push(MdPiece::Html(closing));
    assert(piece_views(p.out@) =~= with_opening + iv + seq![MdPieceView::Html(c)]);
    if level == 2 {
        let ghost before = nav_views(p.nav@);
        let ghost pair = (anchor@, text@);
        p.nav.push(NavItem { slug: anchor, text });
        assert(nav_views(p.nav@) =~= before.push(pair));
    }
    p
}

fn take_event(p: Page, e: &MdEvent, i: usize) -> (r: Page)
    requires
        counts_within(p.used@, usize::MAX - 1),
    ensures
        r.state() == md_step(p.state(), e@, i as int),
        forall|n: int| #[trigger]
            counts_within(p.used@, n) && n >= 0 ==> counts_within(r.used@, n + 1),
{
    match e {
        MdEvent::FencedStart(l) => {
            if str_eq(l.as_str(), "mermaid") {
                let mut p: Page = p;
                p.diagram = Some(String::new());
                p
            } else {
                pass_on(p, i)
            }
        },
        MdEvent::CodeBlockEnd => {
            if p.diagram.is_none() {
                return pass_on(p, i);
            }
            let mut p: Page = p;
            let ghost before = piece_views(p.out@);
            if let Some(d) = p.diagram {
                let body: String = html_escape(d.as_str());
                let html: String = concat3("<pre class=\"mermaid\">", body.as_str(), "</pre>");
                let ghost h = html@;
                p.out.push(MdPiece::Html(html));
                assert(piece_views(p.out@) =~= before.push(MdPieceView::Html(h)));
            }
            p.diagram = None;
            p
        },
        MdEvent::Text(t) => {
            if p.diagram.is_some() {
                let mut p: Page = p;
                if let Some(d) = p.diagram {
                    let mut d: String = d;
                    d.append(t.as_str());
                    p.diagram = Some(d);
                } else {
                    p.diagram = None;
                }
                return p;
            }
            heading_text(p, t.as_str(), i)
        },
        MdEvent::Code(t) => heading_text(p, t.as_str(), i),
        MdEvent::HeadingStart => {
            let mut p: Page = p;
            let none: Vec<MdPiece> = Vec::new();
            assert(piece_views(none@) =~= Seq::<MdPieceView>::empty());
            p.heading = Some((String::new(), none));
            p
        },
        MdEvent::HeadingEnd(level) => end_heading(p, *level),
        MdEvent::Other => pass_on(p, i),
    }
}

fn heading_text(p: Page, t: &str, i: usize) -> (r: Page)
    ensures
        r.state() == (match p.state().heading {
            Some(h) => MdState {
                heading: Some((h.0 + t@, h.1.push(MdPieceView::Keep(i as int)))),
                ..p.state()
            },
            None => md_other(p.state(), i as int),
        }),
        r.used == p.used,
{
    if p.heading.is_none() {
        return pass_on(p, i);
    }
    let mut p: Page = p;
    if let Some(h) = p.heading {
        let (text, pieces): (String, Vec<MdPiece>) = h;
        let mut text: String = text;
        let mut pieces: Vec<MdPiece> = pieces;
        let ghost before = piece_views(pieces@);
        text.append(t);
        pieces.push(MdPiece::Keep(i));
        assert(piece_views(pieces@) =~= before.push(MdPieceView::Keep(i as int)));
        p.heading = Some((text, pieces));
    } else {
        p.heading = None;
    }
    p
}

proof fn lemma_kept(events: Seq<MdEventView>, k: nat)
    requires
        k <= events.len(),
    ensures
        kept_within(md_after(events, k).out, k as int),
        md_after(events, k).heading matches Some(h) ==> kept_within(h.1, k as int),
    decreases k,
{
    if k > 0 {
        lemma_kept(events, (k - 1) as nat);
        let s = md_after(events, (k - 1) as nat);
        let r = md_after(events, k);
        assert forall|i: int| 0 <= i < r.out.len() implies ((#[trigger] r.out[i]) matches MdPieceView::Keep(
            n,
        ) ==> 0 <= n < k) by {
            if i < s.out.len() {
                assert(r.out[i] == s.out[i]);
            } else if events[k - 1] is HeadingEnd {
                if s.heading is Some && s.out.len() < i <= s.out.len() + (s.heading->0).1.len() {
                    assert(r.out[i] == (s.heading->0).1[i - s.out.len() - 1]);
                }
            }
        }
        if r.heading is Some {
            let h = (r.heading->0).1;
            assert forall|i: int| 0 <= i < h.len() implies ((#[trigger] h[i]) matches MdPieceView::Keep(
                n,
            ) ==> 0 <= n < k) by {
                if s.heading is Some && i < (s.heading->0).1.len() && !(events[k - 1] is HeadingStart) {
                    assert(h[i] == (s.heading->0).1[i]);
                }
            }
        }
    }
}

// ---------------------------------------------------------------------------
// What becomes of the content
// ---------------------------------------------------------------------------

/// Where a document stands between two of its events.
pub enum MdPlace {
    Body,
    /// In the heading that began at that event.
    Heading(int),
    /// In the diagram that began at that event.
    Diagram(int),
    /// Headings and diagrams are not properly nested.
    Broken,
}

/// A fenced block of that language is a diagram.
pub open spec fn begins_diagram(e: MdEventView) -> bool {
    e matches MdEventView::FencedStart(l) && l == "mermaid"@
}

/// Where a document stands after its first `k` events.
pub open spec fn place(events: Seq<MdEventView>, k: nat) -> MdPlace
    decreases k,
{
    if k == 0 {
        MdPlace::Body
    } else {
        let e = events[k - 1];
        match place(events, (k - 1) as nat) {
            MdPlace::Body => if e is HeadingStart {
                MdPlace::Heading(k - 1)
            } else if begins_diagram(e) {
                MdPlace::Diagram(k - 1)
            } else if e is HeadingEnd {
                MdPlace::Broken
            } else {
                MdPlace::Body
            },
            MdPlace::Heading(s) => if e is HeadingEnd {
                MdPlace::Body
            } else if e is HeadingStart || begins_diagram(e) {
                MdPlace::Broken
            } else {
                MdPlace::Heading(s)
            },
            MdPlace::Diagram(s) => if e is CodeBlockEnd {
                MdPlace::Body
            } else if e is HeadingStart || e is HeadingEnd || begins_diagram(e) {
                MdPlace::Broken
            } else {
                MdPlace::Diagram(s)
            },
            MdPlace::Broken => MdPlace::Broken,
        }
    }
}

/// Headings and diagrams begin and end one after the other, and all of them end.
pub open spec fn well_nested(events: Seq<MdEventView>) -> bool {
    place(events, events.len()) is Body
}

/// The events among the first `k` that are content: all but those that begin or end
/// a heading and those of a diagram.
pub open spec fn content(events: Seq<MdEventView>, k: nat) -> Seq<int>
    decreases k,
{
    if k == 0 {
        Seq::<int>::empty()
    } else {
        let before = content(events, (k - 1) as nat);
        let e = events[k - 1];
        if place(events, (k - 1) as nat) is Diagram || begins_diagram(e) || e is HeadingStart
            || e is HeadingEnd {
            before
        } else {
            before.push(k - 1)
        }
    }
}

/// The events that pieces keep, in their order.
pub open spec fn kept(pieces: Seq<MdPieceView>) -> Seq<int>
    decreases pieces.len(),
{
    if pieces.len() == 0 {
        Seq::<int>::empty()
    } else {
        let before = kept(pieces.drop_last());
        match pieces.last() {
            MdPieceView::Keep(i) => before.push(i),
            MdPieceView::Html(_) => before,
        }
    }
}

/// The words of the events from `from` up to `to`: those of texts, and where `code`
/// says so those of code.
pub open spec fn words_between(events: Seq<MdEventView>, from: int, to: int, code: bool) -> Seq<char>
    decreases to - from,
{
    if to <= from {
        Seq::<char>::empty()
    } else {
        let before = words_between(events, from, to - 1, code);
        match events[to - 1] {
            MdEventView::Text(t) => before + t,
            MdEventView::Code(t) => if code {
                before + t
            } else {
                before
            },
            _ => before,
        }
    }
}

/// The heading from event `s` to event `e` stands on the page: an element of its
/// level, with an anchor, around the events between, one by one. One of the second
/// level is listed under that anchor with its words.
pub open spec fn heading_stands(
    events: Seq<MdEventView>,
    out: Seq<MdPieceView>,
    nav: Seq<(Seq<char>, Seq<char>)>,
    s: int,
    e: int,
    level: u8,
) -> bool {
    let tag = seq!['h', (48 + level) as char];
    exists|p: int, anchor: Seq<char>|
        #![trigger out[p], "<"@ + tag + " id=\""@ + anchor + "\">"@]
        {
            &&& 0 <= p && p + (e - s) < out.len()
            &&& out[p] == MdPieceView::Html("<"@ + tag + " id=\""@ + anchor + "\">"@)
            &&& forall|j: int| s < j < e ==> #[trigger] out[p + (j - s)] == MdPieceView::Keep(j)
            &&& out[p + (e - s)] == MdPieceView::Html("</"@ + tag + ">"@)
            &&& level == 2 ==> nav.contains((anchor, words_between(events, s + 1, e, true)))
        }
}

proof fn lemma_kept_push(pieces: Seq<MdPieceView>, p: MdPieceView)
    ensures
        kept(pieces.push(p)) == (match p {
            MdPieceView::Keep(i) => kept(pieces).push(i),
            MdPieceView::Html(_) => kept(pieces),
        }),
{
    assert(pieces.push(p).drop_last() =~= pieces);
}

proof fn lemma_kept_joined(a: Seq<MdPieceView>, b: Seq<MdPieceView>)
    ensures
        kept(a + b) == kept(a) + kept(b),
    decreases b.len(),
{
    if b.len() == 0 {
        assert(a + b =~= a);
        assert(kept(a) + kept(b) =~= kept(a));
    } else {
        lemma_kept_joined(a, b.drop_last());
        assert((a + b).drop_last() =~= a + b.drop_last());
        assert((a + b).last() == b.last());
        match b.last() {
            MdPieceView::Keep(i) => {
                assert((kept(a) + kept(b.drop_last())).push(i) =~= kept(a) + kept(
                    b.drop_last(),
                ).push(i));
            },
            MdPieceView::Html(_) => {},
        }
    }
}

/// What the page holds after `k` events, by where the document stands.
spec fn holds_content(events: Seq<MdEventView>, k: nat) -> bool {
    let s = md_after(events, k);
    match place(events, k) {
        MdPlace::Body => {
            &&& s.heading is None
            &&& s.diagram is None
            &&& kept(s.out) == content(events, k)
        },
        MdPlace::Heading(b) => {
            &&& 0 <= b < k
            &&& s.diagram is None
            &&& s.heading matches Some(h)
            &&& h.0 == words_between(events, b + 1, k as int, true)
            &&& h.1 == Seq::new((k - b - 1) as nat, |j: int| MdPieceView::Keep(b + 1 + j))
            &&& kept(s.out) + kept(h.1) == content(events, k)
        },
        MdPlace::Diagram(b) => {
            &&& 0 <= b < k
            &&& s.heading is None
            &&& s.diagram == Some(words_between(events, b + 1, k as int, false))
            &&& kept(s.out) == content(events, k)
        },
        MdPlace::Broken => true,
    }
}

proof fn lemma_content(events: Seq<MdEventView>, k: nat)
    requires
        k <= events.len(),
    ensures
        holds_content(events, k),
    decreases k,
{
    if k > 0 {
        let i = (k - 1) as nat;
        lemma_content(events, i);
        let s = md_after(events, i);
        let r = md_after(events, k);
        let e = events[i as int];
        match place(events, i) {
            MdPlace::Body => {
                lemma_kept_push(s.out, MdPieceView::Keep(i as int));
                if e is HeadingStart {
                    assert(kept(s.out) + kept(Seq::<MdPieceView>::empty()) =~= kept(s.out));
                    assert(Seq::<MdPieceView>::empty() =~= Seq::new(
                        0,
                        |j: int| MdPieceView::Keep(i + 1 + j),
                    ));
                }
            },
            MdPlace::Heading(b) => {
                let h = s.heading->0;
                if e is HeadingEnd {
                    let level = e->HeadingEnd_0;
                    let open = s.out.push(r.out[s.out.len() as int]);
                    let close = r.out.last();
                    lemma_kept_push(s.out, r.out[s.out.len() as int]);
                    lemma_kept_joined(open, h.1);
                    lemma_kept_push(open + h.1, close);
                    assert(r.out =~= (open + h.1).push(close));
                } else if place(events, k) is Heading {
                    lemma_kept_push(h.1, MdPieceView::Keep(i as int));
                    assert((r.heading->0).1 =~= Seq::new(
                        (k - b - 1) as nat,
                        |j: int| MdPieceView::Keep(b + 1 + j),
                    ));
                    assert((kept(s.out) + kept(h.1)).push(i as int) =~= kept(s.out) + kept(
                        (r.heading->0).1,
                    ));
                }
            },
            MdPlace::Diagram(b) => {
                if e is CodeBlockEnd {
                    lemma_kept_push(s.out, r.out.last());
                }
            },
            MdPlace::Broken => {},
        }
    } else {
        assert(kept(md_start().out) =~= content(events, 0));
    }
}

/// A page only grows.
proof fn lemma_page_grows(events: Seq<MdEventView>, j: nat, k: nat)
    requires
        j <= k <= events.len(),
    ensures
        md_after(events, j).out.len() <= md_after(events, k).out.len(),
        forall|i: int|
            0 <= i < md_after(events, j).out.len() ==> #[trigger] md_after(events, k).out[i]
                == md_after(events, j).out[i],
        md_after(events, j).nav.len() <= md_after(events, k).nav.len(),
        forall|i: int|
            0 <= i < md_after(events, j).nav.len() ==> #[trigger] md_after(events, k).nav[i]
                == md_after(events, j).nav[i],
    decreases k,
{
    if j < k {
        lemma_page_grows(events, j, (k - 1) as nat);
    }
}

proof fn lemma_broken_stays(events: Seq<MdEventView>, j: nat, k: nat)
    requires
        j <= k <= events.len(),
        place(events, j) is Broken,
    ensures
        place(events, k) is Broken,
    decreases k,
{
    if j < k {
        lemma_broken_stays(events, j, (k - 1) as nat);
    }
}

/// No content is lost: the page keeps every event of the document that is neither a
/// heading's boundary nor part of a diagram, once, in the order of the document.
pub proof fn law_no_content_is_lost(events: Seq<MdEventView>)
    requires
        well_nested(events),
    ensures
        kept(md_after(events, events.len()).out) == content(events, events.len()),
{
    lemma_content(events, events.len());
}

/// The words of a heading stand inside its element, at the level of the heading, and
/// a heading of the second level is found in the table of contents by its anchor.
pub proof fn law_headings_keep_their_words(events: Seq<MdEventView>, s: int, e: int, level: u8)
    requires
        well_nested(events),
        0 <= s < e < events.len(),
        events[s] is HeadingStart,
        events[e] == MdEventView::HeadingEnd(level),
        1 <= level <= 6,
        forall|j: int| s < j < e ==> !((#[trigger] events[j]) is HeadingEnd),
    ensures
        heading_stands(
            events,
            md_after(events, events.len()).out,
            md_after(events, events.len()).nav,
            s,
            e,
            level,
        ),
{
    let n = events.len();
    lemma_heading_open(events, s, e as nat);
    lemma_content(events, e as nat);
    lemma_page_grows(events, (e + 1) as nat, n);
    let before = md_after(events, e as nat);
    let after = md_after(events, (e + 1) as nat);
    let last = md_after(events, n);
    let h = before.heading->0;
    let p = before.out.len() as int;
    let tag = seq!['h', (48 + level) as char];
    let base = slug(h.0);
    let anchor = numbered(base, times_used(before.used, base));
    lemma_tag(level);
    assert(after.out[p] == MdPieceView::Html("<"@ + tag + " id=\""@ + anchor + "\">"@));
    assert(last.out[p] == after.out[p]);
    assert forall|j: int| s < j < e implies #[trigger] last.out[p + (j - s)] == MdPieceView::Keep(j) by {
        assert(after.out[p + (j - s)] == h.1[j - s - 1]);
        assert(last.out[p + (j - s)] == after.out[p + (j - s)]);
    }
    assert(last.out[p + (e - s)] == after.out[p + (e - s)]);
    if level == 2 {
        let q = before.nav.len() as int;
        assert(after.nav[q] == (anchor, h.0));
        assert(last.nav[q] == after.nav[q]);
    }
}

proof fn lemma_tag(level: u8)
    requires
        1 <= level <= 6,
    ensures
        heading_element(level) == seq!['h', (48 + level) as char],
{
    reveal_strlit("h1");
    reveal_strlit("h2");
    reveal_strlit("h3");
    reveal_strlit("h4");
    reveal_strlit("h5");
    reveal_strlit("h6");
    assert(heading_element(level) =~= seq!['h', (48 + level) as char]);
}

proof fn lemma_heading_open(events: Seq<MdEventView>, s: int, k: nat)
    requires
        well_nested(events),
        0 <= s < k <= events.len(),
        events[s] is HeadingStart,
        forall|j: int| s < j < k ==> !((#[trigger] events[j]) is HeadingEnd),
    ensures
        place(events, k) == MdPlace::Heading(s),
    decreases k,
{
    if place(events, k) is Broken {
        lemma_broken_stays(events, k, events.len());
    }
    if k > s + 1 {
        lemma_heading_open(events, s, (k - 1) as nat);
    } else if place(events, s as nat) is Broken {
        lemma_broken_stays(events, s as nat, events.len());
    }
}

/// A diagram stands on the page with all its text, in one element of its own.
pub proof fn law_diagrams_keep_their_text(events: Seq<MdEventView>, s: int, e: int)
    requires
        well_nested(events),
        0 <= s < e < events.len(),
        place(events, s as nat) is Body,
        begins_diagram(events[s]),
        events[e] is CodeBlockEnd,
        forall|j: int| s < j < e ==> !((#[trigger] events[j]) is CodeBlockEnd),
    ensures
        md_after(events, events.len()).out.contains(
            MdPieceView::Html(
                "<pre class=\"mermaid\">"@ + element_text(words_between(events, s + 1, e, false))
                    + "</pre>"@,
            ),
        ),
{
    let n = events.len();
    lemma_diagram_open(events, s, e as nat);
    lemma_content(events, e as nat);
    lemma_page_grows(events, (e + 1) as nat, n);
    let p = md_after(events, e as nat).out.len() as int;
    assert(md_after(events, n).out[p] == md_after(events, (e + 1) as nat).out[p]);
}

proof fn lemma_diagram_open(events: Seq<MdEventView>, s: int, k: nat)
    requires
        well_nested(events),
        0 <= s < k <= events.len(),
        place(events, s as nat) is Body,
        begins_diagram(events[s]),
        forall|j: int| s < j < k ==> !((#[trigger] events[j]) is CodeBlockEnd),
    ensures
        place(events, k) == MdPlace::Diagram(s),
    decreases k,
{
    if place(events, k) is Broken {
        lemma_broken_stays(events, k, events.len());
    }
    if k > s + 1 {
        lemma_diagram_open(events, s, (k - 1) as nat);
    }
}

/// Arranges the events of a document into a page with its table of contents.
pub fn arrange(events: &Vec<MdEvent>) -> (r: (Vec<MdPiece>, Vec<NavItem>))
    ensures
        piece_views(r.0@) == md_after(event_views(events@), events@.len()).out,
        nav_views(r.1@) == md_after(event_views(events@), events@.len()).nav,
        kept_within(piece_views(r.0@), events@.len() as int),
        well_nested(event_views(events@)) ==> kept(piece_views(r.0@)) == content(
            event_views(events@),
            events@.len(),
        ),
{
    let ghost all = event_views(events@);
    let mut p: Page = Page {
        out: Vec::new(),
        nav: Vec::new(),
        used: Vec::new(),
        heading: None,
        diagram: None,
    };
    let mut i: usize = 0;
    assert(piece_views(p.out@) =~= Seq::<MdPieceView>::empty());
    assert(nav_views(p.nav@) =~= Seq::<(Seq<char>, Seq<char>)>::empty());
    assert(used_views(p.used@) =~= Seq::<(Seq<char>, nat)>::empty());
    assert(counts_within(p.used@, 0));
    while i < events.len()
        invariant
            i <= events@.len(),
            all == event_views(events@),
            p.state() == md_after(all, i as nat),
            counts_within(p.used@, i as int),
        decreases events@.len() - i,
    {
        assert(counts_within(p.used@, usize::MAX - 1));
        p = take_event(p, &events[i], i);
        i = i + 1;
    }
    proof {
        lemma_kept(all, all.len());
        lemma_content(all, all.len());
    }
    (p.out, p.nav)
}

// ---------------------------------------------------------------------------
// The parser and the writer
// ---------------------------------------------------------------------------

/// The extensions of Markdown that the page uses: tables, footnotes,
/// strikethrough, task lists and GitHub's quotes.
pub const MARKDOWN_OPTIONS: u32 = 2078;

/// The events that the Markdown parser gives for a text.
pub uninterp spec fn md_events(src: Seq<char>, options: u32) -> Seq<MdEventView>;

/// `pulldown_cmark::Parser::new_ext` reads a text with some extensions and
/// gives its events one by one; they depend on the two alone. What Markdown
/// makes of a text is not stated.
#[verifier::external_body]
fn read_events(src: &str, options: u32) -> (r: Vec<MdEvent>)
    ensures
        event_views(r@) == md_events(src@, options),
{
    pulldown_cmark::Parser::new_ext(src, pulldown_cmark::Options::from_bits_truncate(options)).map(|e| match e {
        pulldown_cmark::Event::Start(pulldown_cmark::Tag::CodeBlock(pulldown_cmark::CodeBlockKind::Fenced(l))) => MdEvent::FencedStart(l.to_string()),
        pulldown_cmark::Event::End(pulldown_cmark::TagEnd::CodeBlock) => MdEvent::CodeBlockEnd,
        pulldown_cmark::Event::Text(t) => MdEvent::Text(t.to_string()),
        pulldown_cmark::Event::Code(t) => MdEvent::Code(t.to_string()),
        pulldown_cmark::Event::Start(pulldown_cmark::Tag::Heading { .. }) => MdEvent::HeadingStart,
        pulldown_cmark::Event::End(pulldown_cmark::TagEnd::Heading(l)) => MdEvent::HeadingEnd(l as u8),
        _ => MdEvent::Other,
    }).collect()
}

/// The HTML that the writer makes of some pieces, in which events of a text
/// are kept.
pub uninterp spec fn md_html(src: Seq<char>, options: u32, pieces: Seq<MdPieceView>) -> Seq<char>;

/// `pulldown_cmark::html::push_html` writes events as HTML: those of the text
/// that are kept, and pieces of HTML as they are. What it writes depends on
/// the text, the extensions and the pieces alone.
#[verifier::external_body]
fn write_html(src: &str, options: u32, pieces: &Vec<MdPiece>) -> (r: String)
    requires
        kept_within(piece_views(pieces@), md_events(src@, options).len() as int),
    ensures
        r@ == md_html(src@, options, piece_views(pieces@)),
{
    let events: Vec<pulldown_cmark::Event> = pulldown_cmark::Parser::new_ext(src, pulldown_cmark::Options::from_bits_truncate(options)).collect();
    let mut out = String::new();
    pulldown_cmark::html::push_html(&mut out, pieces.iter().map(|p| match p {
        MdPiece::Html(h) => pulldown_cmark::Event::Html(h.clone().into()),
        MdPiece::Keep(i) => events[*i].clone(),
    }));
    out
}

/// Renders a text as HTML, with its table of contents.
pub fn render_markdown(src: &str) -> (r: (String, Vec<NavItem>))
    ensures
        ({
            let events = md_events(src@, MARKDOWN_OPTIONS);
            let page = md_after(events, events.len());
            &&& r.0@ == md_html(src@, MARKDOWN_OPTIONS, page.out)
            &&& nav_views(r.1@) == page.nav
        }),
{
    let events: Vec<MdEvent> = read_events(src, MARKDOWN_OPTIONS);
    let (pieces, nav): (Vec<MdPiece>, Vec<NavItem>) = arrange(&events);
    assert(event_views(events@).len() == events@.len());
    (write_html(src, MARKDOWN_OPTIONS, &pieces), nav)
}

/// The characters of an anchor that separate nothing, with letters small.
pub open spec fn word_chars(s: Seq<char>, k: nat) -> Seq<char>
    decreases k,
{
    if k == 0 {
        Seq::<char>::empty()
    } else {
        let before = word_chars(s, (k - 1) as nat);
        let c = s[k - 1];
        if c == '-' || white(c) || punctuation(c) {
            before
        } else {
            before.push(lower_char(c))
        }
    }
}

proof fn lemma_word_chars_prefix(a: Seq<char>, b: Seq<char>, k: nat)
    requires
        k <= a.len(),
        k <= b.len(),
        forall|i: int| 0 <= i < k ==> a[i] == b[i],
    ensures
        word_chars(a, k) == word_chars(b, k),
    decreases k,
{
    if k > 0 {
        lemma_word_chars_prefix(a, b, (k - 1) as nat);
    }
}

proof fn lemma_word_chars_push(s: Seq<char>, c: char)
    ensures
        word_chars(s.push(c), s.len() + 1) == (if c == '-' || white(c) || punctuation(c) {
            word_chars(s, s.len())
        } else {
            word_chars(s, s.len()).push(lower_char(c))
        }),
{
    lemma_word_chars_prefix(s.push(c), s, s.len());
}

proof fn lemma_slug_part_keeps(s: Seq<char>, k: nat)
    requires
        k <= s.len(),
    ensures
        word_chars(slug_part(s, k), slug_part(s, k).len()) == word_chars(s, k),
    decreases k,
{
    if k > 0 {
        let before = slug_part(s, (k - 1) as nat);
        let c = s[k - 1];
        lemma_slug_part_keeps(s, (k - 1) as nat);
        assert(ascii_alnum(c) ==> !white(c) && !punctuation(c) && c != '-');
        assert(ascii_alnum(c) ==> !white(lower_char(c)) && !punctuation(lower_char(c))
            && lower_char(c) != '-' && lower_char(lower_char(c)) == lower_char(c));
        lemma_word_chars_push(before, c);
        lemma_word_chars_push(before, '-');
        lemma_word_chars_push(before, lower_char(c));
        assert(!white('_') && !punctuation('_'));
    }
}

proof fn lemma_without_hyphens_keeps(s: Seq<char>)
    ensures
        word_chars(without_hyphens(s), without_hyphens(s).len()) == word_chars(s, s.len()),
    decreases s.len(),
{
    if s.len() > 0 && s.last() == '-' {
        let rest = s.drop_last();
        lemma_without_hyphens_keeps(rest);
        lemma_word_chars_push(rest, '-');
        assert(rest.push('-') =~= s);
    }
}

/// An anchor keeps the words of its heading: what separates nothing comes in its order,
/// with letters small.
pub proof fn law_anchors_keep_the_words(s: Seq<char>)
    requires
        word_chars(s, s.len()).len() > 0,
    ensures
        word_chars(slug(s), slug(s).len()) == word_chars(s, s.len()),
{
    lemma_slug_part_keeps(s, s.len());
    lemma_without_hyphens_keeps(slug_part(s, s.len()));
    let t = without_hyphens(slug_part(s, s.len()));
    if t.len() == 0 {
        assert(word_chars(t, 0).len() == 0);
    }
}

/// An anchor that was counted is found with its last count, and another is not changed by
/// it.
pub proof fn law_anchors_are_counted_apart(used: Used, base: Seq<char>, n: nat, other: Seq<char>)
    ensures
        times_used(used.push((base, n)), base) == n,
        other != base ==> times_used(used.push((base, n)), other) == times_used(used, other),
{
    assert(used.push((base, n)).drop_last() =~= used);
}

/// The element of a heading is that of its level.
pub proof fn law_headings_have_their_element(level: u8)
    requires
        1 <= level <= 6,
    ensures
        heading_element(level) == "h"@ + dec(level as nat),
{
    reveal_strlit("h");
    reveal_strlit("h1");
    reveal_strlit("h2");
    reveal_strlit("h3");
    reveal_strlit("h4");
    reveal_strlit("h5");
    reveal_strlit("h6");
    assert(dec(level as nat) =~= seq![digit_char(level as nat)]);
    assert("h"@ + dec(level as nat) =~= heading_element(level));
}

/// Text in an element opens and closes none, and each mark has its own entity.
pub proof fn law_element_text_is_inert(s: Seq<char>, c: char)
    ensures
        !element_text(s).contains('<'),
        !element_text(s).contains('>'),
        element_char('&') == "&amp;"@,
        element_char('<') == "&lt;"@,
        element_char('>') == "&gt;"@,
        c != '&' && c != '<' && c != '>' ==> element_char(c) == seq![c],
    decreases s.len(),
{
    reveal_strlit("&amp;");
    reveal_strlit("&lt;");
    reveal_strlit("&gt;");
    if s.len() > 0 {
        law_element_text_is_inert(s.drop_last(), c);
        let head = element_text(s.drop_last());
        let tail = element_char(s.last());
        let all = element_text(s);
        assert(all == head + tail);
        assert forall|k: int| 0 <= k < all.len() implies all[k] != '<' && all[k] != '>' by {
            if k < head.len() {
                assert(head[k] == all[k]);
                assert(head.contains(all[k]));
            } else {
                assert(tail[k - head.len()] == all[k]);
            }
        }
    }
}

/// An entry of the table of contents keeps its anchor and its words apart.
pub proof fn law_contents_keep_their_anchors(v: Seq<NavItem>, i: int)
    requires
        0 <= i < v.len(),
    ensures
        nav_views(v).len() == v.len(),
        nav_views(v)[i].0 == v[i].slug@ && nav_views(v)[i].1 == v[i].text@,
{
}

} // verus!
