//! The languages of the console.
//!
//! A language is a flat table from dotted keys to texts, read from TOML. A
//! translator looks a key up in its own table, then in the English one.

use vstd::prelude::*;
use crate::text::{
    ascii_alnum, concat3, find_char, from_range, has_prefix, is_alnum, starts_with, str_eq,
    to_chars,
};

verus! {

#[derive(Debug, Clone, Copy, PartialEq, Eq, Hash, Structural)]
pub enum Locale {
    En,
    ZhTw,
}

impl Locale {
    /// The tag of the language.
    pub open spec fn tag(self) -> Seq<char> {
        match self {
            Locale::En => "en"@,
            Locale::ZhTw => "zh-TW"@,
        }
    }

    /// The language that a tag asks for: an exact match, or any kind of Chinese.
    pub open spec fn of_tag(tag: Seq<char>) -> Option<Locale> {
        if tag == "en"@ {
            Some(Locale::En)
        } else if tag == "zh-TW"@ || has_prefix(tag, "zh"@) {
            Some(Locale::ZhTw)
        } else {
            None
        }
    }

    pub fn code(&self) -> (r: &'static str)
        ensures
            r@ == self.tag(),
    {
        match self {
            Locale::En => "en",
            Locale::ZhTw => "zh-TW",
        }
    }

    pub fn from_tag(tag: &str) -> (r: Option<Self>)
        ensures
            r == Self::of_tag(tag@),
    {
        if str_eq(tag, "en") {
            Some(Locale::En)
        } else if str_eq(tag, "zh-TW") || starts_with(tag, "zh") {
            Some(Locale::ZhTw)
        } else {
            None
        }
    }
}

/// The tag of a language asks for that language.
pub proof fn law_code_round_trip(locale: Locale)
    ensures
        Locale::of_tag(locale.tag()) == Some(locale),
{
    reveal_strlit("en");
    reveal_strlit("zh-TW");
    assert("en"@.len() == 2);
    assert("zh-TW"@.len() == 5);
}

// ---------------------------------------------------------------------------
// Placeholders
// ---------------------------------------------------------------------------

/// A name and the value to put in its place.
pub type Arg = (Seq<char>, Seq<char>);

/// The arguments, as mathematics has them.
pub open spec fn arg_views(args: Seq<(&str, &str)>) -> Seq<Arg> {
    args.map_values(|a: (&str, &str)| (a.0@, a.1@))
}

/// The value of the first argument of that name.
pub open spec fn arg_value(args: Seq<Arg>, name: Seq<char>) -> Option<Seq<char>>
    decreases args.len(),
{
    if args.len() == 0 {
        None
    } else if args[0].0 == name {
        Some(args[0].1)
    } else {
        arg_value(args.drop_first(), name)
    }
}

/// A name that a placeholder can have.
pub open spec fn placeholder_name(s: Seq<char>) -> bool {
    s.len() > 0 && forall|i: int| 0 <= i < s.len() ==> ascii_alnum(#[trigger] s[i]) || s[i] == '_'
}

/// What the placeholder at the beginning of `s` stands for, if one stands there.
pub open spec fn placeholder_at_start(s: Seq<char>, args: Seq<Arg>) -> Option<Seq<char>> {
    let rest = s.drop_first();
    let k = find_char(rest, '}') as int;
    if s.len() > 0 && s[0] == '{' && k < rest.len() && placeholder_name(rest.take(k)) {
        arg_value(args, rest.take(k))
    } else {
        None
    }
}

/// `template` with each `{name}` of a known argument replaced by its value.
/// Everything else stays as it is.
pub open spec fn substituted(template: Seq<char>, args: Seq<Arg>) -> Seq<char>
    decreases template.len(),
{
    if template.len() == 0 {
        Seq::<char>::empty()
    } else {
        match placeholder_at_start(template, args) {
            Some(v) => v + substituted(
                template.skip(find_char(template.drop_first(), '}') as int + 2),
                args,
            ),
            None => seq![template[0]] + substituted(template.drop_first(), args),
        }
    }
}

fn find_arg<'a>(args: &[(&'a str, &'a str)], name: &str) -> (r: Option<&'a str>)
    ensures
        match r {
            Some(v) => arg_value(arg_views(args@), name@) == Some(v@),
            None => arg_value(arg_views(args@), name@) is None,
        },
{
    let ghost a = arg_views(args@);
    let mut i: usize = 0;
    assert(a.skip(0) =~= a);
    while i < args.len()
        invariant
            i <= args.len(),
            a == arg_views(args@),
            arg_value(a, name@) == arg_value(a.skip(i as int), name@),
        decreases args.len() - i,
    {
        assert(a.skip(i as int)[0] == (args@[i as int].0@, args@[i as int].1@));
        if str_eq(args[i].0, name) {
            return Some(args[i].1);
        }
        assert(a.skip(i as int).drop_first() =~= a.skip(i as int + 1));
        i = i + 1;
    }
    None
}

fn is_placeholder_name(s: &Vec<char>, from: usize, to: usize) -> (r: bool)
    requires
        from <= to <= s@.len(),
    ensures
        r == placeholder_name(s@.subrange(from as int, to as int)),
{
    let ghost name = s@.subrange(from as int, to as int);
    let mut i: usize = from;
    while i < to
        invariant
            from <= i <= to <= s@.len(),
            name == s@.subrange(from as int, to as int),
            forall|k: int| 0 <= k < i - from ==> ascii_alnum(#[trigger] name[k]) || name[k] == '_',
        decreases to - i,
    {
        assert(name[i - from] == s@[i as int]);
        if !is_alnum(s[i]) && s[i] != '_' {
            return false;
        }
        i = i + 1;
    }
    from < to
}

/// The first `}` at or after `from`, or the length of the text.
fn closing_brace(s: &Vec<char>, from: usize) -> (k: usize)
    requires
        from <= s@.len(),
    ensures
        from <= k <= s@.len(),
        k - from == find_char(s@.skip(from as int), '}'),
{
    let ghost rest = s@.skip(from as int);
    let mut k: usize = from;
    while k < s.len() && s[k] != '}'
        invariant
            from <= k <= s@.len(),
            rest == s@.skip(from as int),
            forall|j: int| 0 <= j < k - from ==> rest[j] != '}',
        decreases s@.len() - k,
    {
        assert(rest[k - from] == s@[k as int]);
        k = k + 1;
    }
    proof {
        if k < s@.len() {
            assert(rest[k - from] == '}');
        }
        crate::text::lemma_find_char_is(rest, '}', k - from);
    }
    k
}

/// Puts the values of `args` in the place of the placeholders of `template`.
pub fn substitute_placeholders(template: &str, args: &[(&str, &str)]) -> (r: String)
    ensures
        r@ == substituted(template@, arg_views(args@)),
{
    let s: Vec<char> = to_chars(template);
    let mut out: String = String::new();
    let mut i: usize = 0;
    assert(s@.skip(0) =~= s@);
    while i < s.len()
        invariant
            i <= s.len(),
            s@ == template@,
            substituted(template@, arg_views(args@)) == out@ + substituted(s@.skip(i as int), arg_views(args@)),
        decreases s.len() - i,
    {
        let ghost here = s@.skip(i as int);
        let ghost before = out@;
        assert(here[0] == s@[i as int]);
        assert(here.drop_first() =~= s@.skip(i as int + 1));
        let mut replaced: bool = false;
        let mut next: usize = i + 1;
        if s[i] == '{' {
            let k: usize = closing_brace(&s, i + 1);
            if k < s.len() {
                assert(here.drop_first().take(k - i - 1) =~= s@.subrange(i as int + 1, k as int));
                if is_placeholder_name(&s, i + 1, k) {
                    let name: String = from_range(&s, i + 1, k);
                    match find_arg(args, name.as_str()) {
                        Some(v) => {
                            out.append(v);
                            replaced = true;
                            next = k + 1;
                            assert(here.skip(find_char(here.drop_first(), '}') as int + 2) =~= s@.skip(
                                next as int,
                            ));
                        },
                        None => {},
                    }
                }
            }
        }
        if !replaced {
            out.push(s[i]);
            assert(placeholder_at_start(here, arg_views(args@)) is None);
            assert(out@ + substituted(s@.skip(next as int), arg_views(args@)) =~= before + (seq![here[0]]
                + substituted(here.drop_first(), arg_views(args@))));
        } else {
            assert(out@ + substituted(s@.skip(next as int), arg_views(args@)) =~= before + substituted(
                here,
                arg_views(args@),
            ));
        }
        i = next;
    }
    assert(s@.skip(i as int) =~= Seq::<char>::empty());
    assert(out@ + Seq::<char>::empty() =~= out@);
    out
}

/// A text without an opening brace has no placeholder and stays as it is.
pub proof fn law_plain_text_unchanged(template: Seq<char>, args: Seq<Arg>)
    requires
        !template.contains('{'),
    ensures
        substituted(template, args) == template,
    decreases template.len(),
{
    if template.len() > 0 {
        assert(template.contains(template[0]));
        let rest = template.drop_first();
        assert forall|c: char| rest.contains(c) implies template.contains(c) by {
            let k = choose|k: int| 0 <= k < rest.len() && rest[k] == c;
            assert(template[k + 1] == c);
        }
        law_plain_text_unchanged(rest, args);
        assert(template =~= seq![template[0]] + rest);
    } else {
        assert(template =~= Seq::<char>::empty());
    }
}

// ---------------------------------------------------------------------------
// Tables
// ---------------------------------------------------------------------------

/// A TOML document as far as a table of texts needs it.
#[derive(Debug)]
pub enum Toml {
    Table(Vec<(String, Toml)>),
    Text(String),
    Other,
}

/// A TOML document, as mathematics has it.
pub enum TomlView {
    Table(Seq<(Seq<char>, TomlView)>),
    Text(Seq<char>),
    Other,
}

impl Toml {
    pub open spec fn model(self) -> TomlView
        decreases self,
    {
        match self {
            Toml::Table(t) => TomlView::Table(
                Seq::new(
                    t@.len(),
                    |i: int|
                        if 0 <= i < t@.len() {
                            (t@[i].0@, t@[i].1.model())
                        } else {
                            arbitrary()
                        },
                ),
            ),
            Toml::Text(s) => TomlView::Text(s@),
            Toml::Other => TomlView::Other,
        }
    }
}

/// The document that the TOML parser reads from a text, if it reads one.
pub uninterp spec fn toml_document(src: Seq<char>) -> Option<TomlView>;

/// A value of the TOML crate, carried from its parser to this module's tree.
#[verifier::external_type_specification]
#[verifier::external_body]
pub struct ExTomlValue(toml::Value);

/// Turns a value of the TOML crate into this module's own tree, table by
/// table and entry by entry. A value that is neither a table nor a text
/// becomes `Other`.
#[verifier::external_body]
fn toml_node(v: toml::Value) -> (r: Toml)
{
    match v {
        toml::Value::Table(t) => Toml::Table(t.into_iter().map(|(k, v)| (k, toml_node(v))).collect()),
        toml::Value::String(s) => Toml::Text(s),
        _ => Toml::Other,
    }
}

/// `toml::from_str` reads a document from a text. What it reads depends on
/// the text alone; what the grammar of TOML makes of a text is not stated.
#[verifier::external_body]
fn read_toml(src: &str) -> (r: Option<Toml>)
    ensures
        (match r {
            Some(t) => Some(t.model()),
            None => None,
        }) == toml_document(src@),
{
    toml::from_str::<toml::Value>(src).ok().map(toml_node)
}

/// A key and the text it stands for, or `None` where the value is no text.
pub type Leaf = (Seq<char>, Option<Seq<char>>);

/// The key of an entry below `prefix`.
pub open spec fn key_below(prefix: Seq<char>, name: Seq<char>) -> Seq<char> {
    if prefix.len() == 0 {
        name
    } else {
        prefix + "."@ + name
    }
}

/// The leaves of a document in the order in which they stand there.
pub open spec fn leaves(t: TomlView, prefix: Seq<char>) -> Seq<Leaf>
    decreases t, 0nat,
{
    match t {
        TomlView::Table(entries) => leaves_of(entries, prefix, entries.len()),
        TomlView::Text(s) => seq![(prefix, Some(s))],
        TomlView::Other => seq![(prefix, None)],
    }
}

/// The leaves of the first `k` entries of a table.
pub open spec fn leaves_of(entries: Seq<(Seq<char>, TomlView)>, prefix: Seq<char>, k: nat) -> Seq<
    Leaf,
>
    decreases entries, k,
{
    if k == 0 || k > entries.len() {
        Seq::<Leaf>::empty()
    } else {
        let e = entries[k - 1];
        leaves_of(entries, prefix, (k - 1) as nat) + leaves(e.1, key_below(prefix, e.0))
    }
}

/// The keys and texts as a list of pairs of characters.
pub open spec fn leaf_views(v: Seq<(String, Option<String>)>) -> Seq<Leaf> {
    v.map_values(|l: (String, Option<String>)| (l.0@, crate::text::opt_view(l.1)))
}

/// Lists the leaves of a document below `prefix`.
fn flatten(t: &Toml, prefix: &str, out: &mut Vec<(String, Option<String>)>)
    ensures
        leaf_views(final(out)@) == leaf_views(old(out)@) + leaves(t.model(), prefix@),
    decreases *t,
{
    match t {
        Toml::Table(entries) => {
            let ghost model = t.model();
            let ghost seq_entries = model->Table_0;
            let ghost start = leaf_views(out@);
            let mut i: usize = 0;
            assert(leaf_views(out@) =~= start + leaves_of(seq_entries, prefix@, 0));
            while i < entries.len()
                invariant
                    i <= entries.len(),
                    *t == Toml::Table(*entries),
                    model == t.model(),
                    model == TomlView::Table(seq_entries),
                    seq_entries.len() == entries@.len(),
                    forall|k: int|
                        0 <= k < entries@.len() ==> #[trigger] seq_entries[k] == (
                            entries@[k].0@,
                            entries@[k].1.model(),
                        ),
                    leaf_views(out@) == start + leaves_of(seq_entries, prefix@, i as nat),
                decreases entries.len() - i,
            {
                let name: &str = entries[i].0.as_str();
                let key: String = if prefix.is_empty() {
                    name.to_owned()
                } else {
                    concat3(prefix, ".", name)
                };
                assert(seq_entries[i as int] == (entries@[i as int].0@, entries@[i as int].1.model()));
                flatten(&entries[i].1, key.as_str(), out);
                i = i + 1;
                assert(leaf_views(out@) =~= start + leaves_of(seq_entries, prefix@, i as nat));
            }
        },
        Toml::Text(s) => {
            let ghost before = out@;
            out.push((prefix.to_owned(), Some(s.clone())));
            assert(leaf_views(out@) =~= leaf_views(before) + leaves(t.model(), prefix@));
        },
        Toml::Other => {
            let ghost before = out@;
            out.push((prefix.to_owned(), None));
            assert(leaf_views(out@) =~= leaf_views(before) + leaves(t.model(), prefix@));
        },
    }
}

/// Why a text is no table of texts.
#[derive(Debug)]
pub enum BundleError {
    /// It is no TOML.
    Malformed,
    /// The value of this key is no text.
    NotText(String),
    /// This key comes twice.
    Duplicate(String),
    /// `_meta.sentinel` is missing, which every table has.
    NoSentinel,
}

/// Why a text is no table of texts, as mathematics has it.
pub enum BundleFault {
    Malformed,
    NotText(Seq<char>),
    Duplicate(Seq<char>),
    NoSentinel,
}

impl View for BundleError {
    type V = BundleFault;

    open spec fn view(&self) -> BundleFault {
        match self {
            BundleError::Malformed => BundleFault::Malformed,
            BundleError::NotText(k) => BundleFault::NotText(k@),
            BundleError::Duplicate(k) => BundleFault::Duplicate(k@),
            BundleError::NoSentinel => BundleFault::NoSentinel,
        }
    }
}

/// `key` is among the first `k` leaves.
pub open spec fn key_among(l: Seq<Leaf>, key: Seq<char>, k: int) -> bool {
    exists|j: int| 0 <= j < k && (#[trigger] l[j]).0 == key
}

/// What is wrong with the first `k` leaves, the earliest fault first.
pub open spec fn leaf_fault(l: Seq<Leaf>, k: nat) -> Option<BundleFault>
    decreases k,
{
    if k == 0 {
        None
    } else {
        let i = (k - 1) as nat;
        match leaf_fault(l, i) {
            Some(f) => Some(f),
            None => if l[i as int].1 is None {
                Some(BundleFault::NotText(l[i as int].0))
            } else if key_among(l, l[i as int].0, i as int) {
                Some(BundleFault::Duplicate(l[i as int].0))
            } else {
                None
            },
        }
    }
}

/// What is wrong with a list of leaves.
pub open spec fn bundle_fault(l: Seq<Leaf>) -> Option<BundleFault> {
    match leaf_fault(l, l.len()) {
        Some(f) => Some(f),
        None => if key_among(l, "_meta.sentinel"@, l.len() as int) {
            None
        } else {
            Some(BundleFault::NoSentinel)
        },
    }
}

/// The text of `key` in a list of keys and texts.
pub open spec fn lookup(entries: Seq<(Seq<char>, Seq<char>)>, key: Seq<char>) -> Option<Seq<char>>
    decreases entries.len(),
{
    if entries.len() == 0 {
        None
    } else if entries[0].0 == key {
        Some(entries[0].1)
    } else {
        lookup(entries.drop_first(), key)
    }
}

/// The texts of one language.
#[derive(Debug)]
pub struct Bundle {
    locale: Locale,
    table: Vec<(String, String)>,
}

impl Bundle {
    /// The language.
    pub closed spec fn language(&self) -> Locale {
        self.locale
    }

    /// The keys with their texts.
    pub closed spec fn entries(&self) -> Seq<(Seq<char>, Seq<char>)> {
        self.table@.map_values(|e: (String, String)| (e.0@, e.1@))
    }

    fn get(&self, key: &str) -> (r: Option<String>)
        ensures
            crate::text::opt_view(r) == lookup(self.entries(), key@),
    {
        let ghost e = self.entries();
        let mut i: usize = 0;
        assert(e.skip(0) =~= e);
        while i < self.table.len()
            invariant
                i <= self.table.len(),
                e == self.entries(),
                lookup(e, key@) == lookup(e.skip(i as int), key@),
            decreases self.table.len() - i,
        {
            assert(e.skip(i as int)[0] == (self.table@[i as int].0@, self.table@[i as int].1@));
            if str_eq(self.table[i].0.as_str(), key) {
                return Some(self.table[i].1.clone());
            }
            assert(e.skip(i as int).drop_first() =~= e.skip(i as int + 1));
            i = i + 1;
        }
        None
    }
}

/// The table of a document.
pub fn bundle_of(document: &Toml, locale: Locale) -> (r: Result<Bundle, BundleError>)
    ensures
        match r {
            Ok(b) => {
                &&& bundle_fault(leaves(document.model(), Seq::<char>::empty())) is None
                &&& b.language() == locale
                &&& b.entries() == leaves(document.model(), Seq::<char>::empty()).map_values(
                    |l: Leaf| (l.0, l.1->0),
                )
            },
            Err(e) => bundle_fault(leaves(document.model(), Seq::<char>::empty())) == Some(e@),
        },
{
    let mut all: Vec<(String, Option<String>)> = Vec::new();
    proof {
        reveal_strlit("");
    }
    assert(""@ =~= Seq::<char>::empty());
    flatten(document, "", &mut all);
    let ghost l = leaves(document.model(), Seq::<char>::empty());
    assert(leaf_views(all@) =~= l);
    let mut table: Vec<(String, String)> = Vec::new();
    let mut sentinel: bool = false;
    let mut i: usize = 0;
    while i < all.len()
        invariant
            i <= all.len(),
            leaf_views(all@) == l,
            l == leaves(document.model(), Seq::<char>::empty()),
            leaf_fault(l, i as nat) is None,
            table@.len() == i,
            forall|k: int|
                0 <= k < i ==> (#[trigger] table@[k]).0@ == l[k].0 && l[k].1 == Some(
                    table@[k].1@,
                ),
            sentinel == key_among(l, "_meta.sentinel"@, i as int),
        decreases all.len() - i,
    {
        let key: &str = all[i].0.as_str();
        assert(l[i as int] == (all@[i as int].0@, crate::text::opt_view(all@[i as int].1)));
        assert(leaf_fault(l, (i + 1) as nat) is Some ==> leaf_fault(l, l.len()) == leaf_fault(
            l,
            (i + 1) as nat,
        )) by {
            if leaf_fault(l, (i + 1) as nat) is Some {
                lemma_fault_stays(l, (i + 1) as nat, l.len());
            }
        }
        match &all[i].1 {
            None => {
                return Err(BundleError::NotText(key.to_owned()));
            },
            Some(text) => {
                let mut j: usize = 0;
                while j < i
                    invariant
                        j <= i < all.len(),
                        table@.len() == i,
                        key@ == l[i as int].0,
                        forall|k: int| 0 <= k < i ==> (#[trigger] table@[k]).0@ == l[k].0,
                        forall|k: int| 0 <= k < j ==> (#[trigger] l[k]).0 != key@,
                        leaf_fault(l, i as nat) is None,
                        l[i as int].1 is Some,
                        l == leaves(document.model(), Seq::<char>::empty()),
                        i < l.len(),
                        leaf_fault(l, (i + 1) as nat) is Some ==> leaf_fault(l, l.len())
                            == leaf_fault(l, (i + 1) as nat),
                    decreases i - j,
                {
                    assert(table@[j as int].0@ == l[j as int].0);
                    if str_eq(table[j].0.as_str(), key) {
                        assert(key_among(l, key@, i as int));
                        return Err(BundleError::Duplicate(key.to_owned()));
                    }
                    j = j + 1;
                }
                let is_sentinel: bool = str_eq(key, "_meta.sentinel");
                table.push((key.to_owned(), text.clone()));
                proof {
                    assert(!key_among(l, key@, i as int));
                    if is_sentinel {
                        assert(l[i as int].0 == "_meta.sentinel"@);
                    }
                    if key_among(l, "_meta.sentinel"@, i as int) {
                        let j0 = choose|j0: int|
                            0 <= j0 < i && (#[trigger] l[j0]).0 == "_meta.sentinel"@;
                        assert(l[j0].0 == "_meta.sentinel"@);
                    }
                }
                sentinel = sentinel || is_sentinel;
            },
        }
        i = i + 1;
    }
    if !sentinel {
        return Err(BundleError::NoSentinel);
    }
    let b: Bundle = Bundle { locale, table };
    assert(b.entries() =~= l.map_values(|l: Leaf| (l.0, l.1->0)));
    Ok(b)
}

proof fn lemma_fault_stays(l: Seq<Leaf>, i: nat, k: nat)
    requires
        i <= k,
        leaf_fault(l, i) is Some,
    ensures
        leaf_fault(l, k) == leaf_fault(l, i),
    decreases k,
{
    if i < k {
        lemma_fault_stays(l, i, (k - 1) as nat);
    }
}

/// Reads the table of a language from TOML.
pub fn parse_toml(src: &str, locale: Locale) -> (r: Result<Bundle, BundleError>)
    ensures
        match toml_document(src@) {
            None => r is Err && r->Err_0@ == BundleFault::Malformed,
            Some(t) => match r {
                Ok(b) => {
                    &&& bundle_fault(leaves(t, Seq::<char>::empty())) is None
                    &&& b.language() == locale
                    &&& b.entries() == leaves(t, Seq::<char>::empty()).map_values(
                        |l: Leaf| (l.0, l.1->0),
                    )
                },
                Err(e) => bundle_fault(leaves(t, Seq::<char>::empty())) == Some(e@),
            },
        },
{
    match read_toml(src) {
        None => Err(BundleError::Malformed),
        Some(t) => bundle_of(&t, locale),
    }
}

/// The tables of all languages.
#[derive(Debug)]
pub struct Bundles {
    pub en: Bundle,
    pub zh_tw: Bundle,
}

impl Bundles {
    /// The table of a language.
    pub open spec fn of(&self, locale: Locale) -> Bundle {
        match locale {
            Locale::En => self.en,
            Locale::ZhTw => self.zh_tw,
        }
    }
}

/// Reads the tables of all languages. The English one is read first.
pub fn init_bundles(en: &str, zh_tw: &str) -> (r: Result<Bundles, BundleError>)
    ensures
        match r {
            Ok(b) => {
                &&& document_fault(toml_document(en@)) is None
                &&& document_fault(toml_document(zh_tw@)) is None
                &&& toml_document(en@) matches Some(t)
                &&& b.en.language() == Locale::En
                &&& b.en.entries() == leaves(t, Seq::<char>::empty()).map_values(
                    |l: Leaf| (l.0, l.1->0),
                )
                &&& toml_document(zh_tw@) matches Some(u)
                &&& b.zh_tw.language() == Locale::ZhTw
                &&& b.zh_tw.entries() == leaves(u, Seq::<char>::empty()).map_values(
                    |l: Leaf| (l.0, l.1->0),
                )
            },
            Err(e) => {
                ||| document_fault(toml_document(en@)) == Some(e@)
                ||| document_fault(toml_document(en@)) is None && document_fault(
                    toml_document(zh_tw@),
                ) == Some(e@)
            },
        },
{
    let a: Bundle = match parse_toml(en, Locale::En) {
        Ok(b) => b,
        Err(e) => {
            return Err(e);
        },
    };
    match parse_toml(zh_tw, Locale::ZhTw) {
        Ok(b) => Ok(Bundles { en: a, zh_tw: b }),
        Err(e) => Err(e),
    }
}

/// What is wrong with a document that was or was not read.
pub open spec fn document_fault(document: Option<TomlView>) -> Option<BundleFault> {
    match document {
        None => Some(BundleFault::Malformed),
        Some(t) => bundle_fault(leaves(t, Seq::<char>::empty())),
    }
}

/// Looks texts up for one request.
#[derive(Debug)]
pub struct Translator<'a> {
    locale: Locale,
    bundle: &'a Bundle,
    fallback: &'a Bundle,
}

/// The text of a key: that of the language, else the English one, else the
/// key between exclamation marks.
pub open spec fn text_of(
    active: Seq<(Seq<char>, Seq<char>)>,
    fallback: Seq<(Seq<char>, Seq<char>)>,
    key: Seq<char>,
) -> Seq<char> {
    match lookup(active, key) {
        Some(v) => v,
        None => match lookup(fallback, key) {
            Some(v) => v,
            None => "!!"@ + key + "!!"@,
        },
    }
}

impl<'a> Translator<'a> {
    pub closed spec fn language(&self) -> Locale {
        self.locale
    }

    pub closed spec fn active(&self) -> Seq<(Seq<char>, Seq<char>)> {
        self.bundle.entries()
    }

    pub closed spec fn english(&self) -> Seq<(Seq<char>, Seq<char>)> {
        self.fallback.entries()
    }

    pub fn new(bundles: &'a Bundles, locale: Locale) -> (r: Self)
        ensures
            r.language() == locale,
            r.active() == bundles.of(locale).entries(),
            r.english() == bundles.en.entries(),
    {
        match locale {
            Locale::En => Translator { locale, bundle: &bundles.en, fallback: &bundles.en },
            Locale::ZhTw => Translator { locale, bundle: &bundles.zh_tw, fallback: &bundles.en },
        }
    }

    pub fn locale_code(&self) -> (r: &'static str)
        ensures
            r@ == self.language().tag(),
    {
        self.locale.code()
    }

    /// The text of a key.
    pub fn s(&self, key: &str) -> (r: String)
        ensures
            r@ == text_of(self.active(), self.english(), key@),
    {
        match self.bundle.get(key) {
            Some(v) => v,
            None => match self.fallback.get(key) {
                Some(v) => v,
                None => concat3("!!", key, "!!"),
            },
        }
    }

    /// The text of a key with the values of `args` in the place of its placeholders.
    pub fn fmt(&self, key: &str, args: &[(&str, &str)]) -> (r: String)
        ensures
            r@ == substituted(text_of(self.active(), self.english(), key@), arg_views(args@)),
    {
        let template: String = self.s(key);
        substitute_placeholders(template.as_str(), args)
    }
}

// ---------------------------------------------------------------------------
// What is promised of texts
// ---------------------------------------------------------------------------

/// English is asked for by its own tag alone, and Chinese by any tag of Chinese.
pub proof fn law_tags_ask_for_languages(tag: Seq<char>, rest: Seq<char>)
    ensures
        Locale::of_tag(tag) == Some(Locale::En) <==> tag == "en"@,
        Locale::of_tag("zh"@ + rest) == Some(Locale::ZhTw),
        tag != "en"@ && !has_prefix(tag, "zh"@) ==> Locale::of_tag(tag) is None,
{
    reveal_strlit("en");
    reveal_strlit("zh");
    reveal_strlit("zh-TW");
    let z = "zh"@ + rest;
    assert(z.subrange(0, 2) =~= "zh"@);
    assert(z[0] == 'z' && "en"@[0] == 'e');
    assert("zh-TW"@.subrange(0, 2) =~= "zh"@);
}

/// A placeholder of a known name gives way to its value, and what stands behind it is
/// treated in the same way.
pub proof fn law_placeholders_give_way_to_values(
    name: Seq<char>,
    rest: Seq<char>,
    args: Seq<Arg>,
    value: Seq<char>,
)
    requires
        placeholder_name(name),
        arg_value(args, name) == Some(value),
    ensures
        substituted(seq!['{'] + name + seq!['}'] + rest, args) == value + substituted(rest, args),
{
    let t = seq!['{'] + name + seq!['}'] + rest;
    let tail = t.drop_first();
    let n = name.len() as int;
    assert(tail =~= name + seq!['}'] + rest);
    assert forall|j: int| 0 <= j < n implies tail[j] != '}' by {
        assert(tail[j] == name[j]);
        assert(ascii_alnum(name[j]) || name[j] == '_');
    }
    assert(tail[n] == '}');
    crate::text::lemma_find_char_is(tail, '}', n);
    assert(tail.take(n) =~= name);
    assert(t.skip(n + 2) =~= rest);
}

/// A placeholder that nothing is given for stays as it is.
pub proof fn law_unknown_placeholders_stay(name: Seq<char>, rest: Seq<char>, args: Seq<Arg>)
    requires
        placeholder_name(name),
        arg_value(args, name) is None,
    ensures
        substituted(seq!['{'] + name + seq!['}'] + rest, args) == seq!['{'] + name + seq!['}']
            + substituted(rest, args),
{
    let t = seq!['{'] + name + seq!['}'] + rest;
    let tail = t.drop_first();
    let n = name.len() as int;
    assert(tail =~= (name + seq!['}']) + rest);
    assert forall|j: int| 0 <= j < n implies tail[j] != '}' by {
        assert(tail[j] == name[j]);
        assert(ascii_alnum(name[j]) || name[j] == '_');
    }
    assert(tail[n] == '}');
    crate::text::lemma_find_char_is(tail, '}', n);
    assert(tail.take(n) =~= name);
    assert(t[0] == '{');
    let plain = name + seq!['}'];
    assert(!plain.contains('{')) by {
        if plain.contains('{') {
            let i = choose|i: int| 0 <= i < plain.len() && plain[i] == '{';
            if i < n {
                assert(ascii_alnum(name[i]) || name[i] == '_');
            }
        }
    }
    law_plain_words_stay(plain, rest, args);
    assert(substituted(t, args) =~= seq!['{'] + (plain + substituted(rest, args)));
    assert(seq!['{'] + (plain + substituted(rest, args)) =~= seq!['{'] + name + seq!['}']
        + substituted(rest, args));
}

/// What stands before a placeholder stays as it is.
pub proof fn law_plain_words_stay(plain: Seq<char>, rest: Seq<char>, args: Seq<Arg>)
    requires
        !plain.contains('{'),
    ensures
        substituted(plain + rest, args) == plain + substituted(rest, args),
    decreases plain.len(),
{
    if plain.len() == 0 {
        assert(plain + rest =~= rest);
        assert(plain + substituted(rest, args) =~= substituted(rest, args));
    } else {
        let t = plain + rest;
        assert(plain.contains(plain[0]));
        assert(t[0] == plain[0]);
        let tail = plain.drop_first();
        assert(!tail.contains('{')) by {
            if tail.contains('{') {
                let i = choose|i: int| 0 <= i < tail.len() && tail[i] == '{';
                assert(plain[i + 1] == '{');
            }
        }
        law_plain_words_stay(tail, rest, args);
        assert(t.drop_first() =~= tail + rest);
        assert(seq![plain[0]] + (tail + substituted(rest, args)) =~= plain + substituted(rest, args));
    }
}

/// The first entry of a key is the one that is found.
pub proof fn law_first_entry_is_found(entries: Seq<(Seq<char>, Seq<char>)>, i: int)
    requires
        0 <= i < entries.len(),
        forall|j: int| 0 <= j < i ==> (#[trigger] entries[j]).0 != entries[i].0,
    ensures
        lookup(entries, entries[i].0) == Some(entries[i].1),
    decreases entries.len(),
{
    if i > 0 {
        let rest = entries.drop_first();
        assert(entries[0].0 != entries[i].0);
        assert forall|j: int| 0 <= j < i - 1 implies (#[trigger] rest[j]).0 != rest[i - 1].0 by {
            assert(rest[j] == entries[j + 1]);
        }
        law_first_entry_is_found(rest, i - 1);
    }
}

/// Nothing is found where the key has no entry.
pub proof fn law_missing_keys_are_not_found(entries: Seq<(Seq<char>, Seq<char>)>, key: Seq<char>)
    requires
        forall|i: int| 0 <= i < entries.len() ==> (#[trigger] entries[i]).0 != key,
    ensures
        lookup(entries, key) is None,
    decreases entries.len(),
{
    if entries.len() > 0 {
        let rest = entries.drop_first();
        assert forall|i: int| 0 <= i < rest.len() implies (#[trigger] rest[i]).0 != key by {
            assert(rest[i] == entries[i + 1]);
        }
        law_missing_keys_are_not_found(rest, key);
    }
}

/// The first argument of a name is the one whose value is put in its place.
pub proof fn law_first_argument_counts(args: Seq<Arg>, i: int)
    requires
        0 <= i < args.len(),
        forall|j: int| 0 <= j < i ==> (#[trigger] args[j]).0 != args[i].0,
    ensures
        arg_value(args, args[i].0) == Some(args[i].1),
    decreases args.len(),
{
    if i > 0 {
        let rest = args.drop_first();
        assert(args[0].0 != args[i].0);
        assert forall|j: int| 0 <= j < i - 1 implies (#[trigger] rest[j]).0 != rest[i - 1].0 by {
            assert(rest[j] == args[j + 1]);
        }
        law_first_argument_counts(rest, i - 1);
    }
}

/// A text comes from the table of the language; where that lacks it, from the English
/// one; and a key that neither has is shown as missing.
pub proof fn law_english_fills_in(
    active: Seq<(Seq<char>, Seq<char>)>,
    english: Seq<(Seq<char>, Seq<char>)>,
    key: Seq<char>,
)
    ensures
        lookup(active, key) is Some ==> text_of(active, english, key) == lookup(active, key)->0,
        lookup(active, key) is None && lookup(english, key) is Some ==> text_of(active, english, key)
            == lookup(english, key)->0,
        lookup(active, key) is None && lookup(english, key) is None ==> text_of(active, english, key)
            == "!!"@ + key + "!!"@,
{
}

proof fn lemma_leaf_fault(l: Seq<Leaf>, k: nat)
    requires
        k <= l.len(),
    ensures
        leaf_fault(l, k) is None <==> (forall|i: int| 0 <= i < k ==> (#[trigger] l[i]).1 is Some) && (
        forall|i: int, j: int| 0 <= i < j < k ==> (#[trigger] l[i]).0 != (#[trigger] l[j]).0),
    decreases k,
{
    if k > 0 {
        let n = (k - 1) as nat;
        lemma_leaf_fault(l, n);
        if leaf_fault(l, k) is None {
            assert forall|i: int, j: int| 0 <= i < j < k implies (#[trigger] l[i]).0 != (
            #[trigger] l[j]).0 by {
                if j == n {
                    assert(!key_among(l, l[n as int].0, n as int));
                }
            }
        }
        if (forall|i: int| 0 <= i < k ==> (#[trigger] l[i]).1 is Some) && (forall|i: int, j: int|
            0 <= i < j < k ==> (#[trigger] l[i]).0 != (#[trigger] l[j]).0) {
            assert(l[n as int].1 is Some);
            if key_among(l, l[n as int].0, n as int) {
                let j = choose|j: int| 0 <= j < n && (#[trigger] l[j]).0 == l[n as int].0;
                assert(l[j].0 != l[n as int].0);
            }
        }
    }
}

/// A document is a table of texts exactly where every value is a text, no key comes
/// twice and the sentinel is among the keys.
pub proof fn law_tables_are_whole(l: Seq<Leaf>)
    ensures
        bundle_fault(l) is None <==> {
            &&& forall|i: int| 0 <= i < l.len() ==> (#[trigger] l[i]).1 is Some
            &&& forall|i: int, j: int|
                0 <= i < j < l.len() ==> (#[trigger] l[i]).0 != (#[trigger] l[j]).0
            &&& exists|i: int| 0 <= i < l.len() && (#[trigger] l[i]).0 == "_meta.sentinel"@
        },
{
    lemma_leaf_fault(l, l.len());
}

/// Nothing of a document is lost: what stands in an entry of a table is listed with the
/// table, under the name of the entry behind that of the table and a dot.
pub proof fn law_entries_are_listed_under_their_names(
    entries: Seq<(Seq<char>, TomlView)>,
    prefix: Seq<char>,
    k: nat,
    i: int,
    leaf: Leaf,
)
    requires
        k <= entries.len(),
        0 <= i < k,
        leaves(entries[i].1, key_below(prefix, entries[i].0)).contains(leaf),
    ensures
        leaves_of(entries, prefix, k).contains(leaf),
        prefix.len() > 0 ==> key_below(prefix, entries[i].0) == prefix + "."@ + entries[i].0,
        prefix.len() == 0 ==> key_below(prefix, entries[i].0) == entries[i].0,
        entries[i].1 matches TomlView::Text(s) ==> leaf == (
            key_below(prefix, entries[i].0),
            Some(s),
        ),
    decreases k,
{
    let e = entries[k - 1];
    let before = leaves_of(entries, prefix, (k - 1) as nat);
    let own = leaves(e.1, key_below(prefix, e.0));
    let all = leaves_of(entries, prefix, k);
    assert(all == before + own);
    if i == k - 1 {
        let j = choose|j: int| 0 <= j < own.len() && own[j] == leaf;
        assert(all[before.len() + j] == leaf);
    } else {
        law_entries_are_listed_under_their_names(entries, prefix, (k - 1) as nat, i, leaf);
        let j = choose|j: int| 0 <= j < before.len() && before[j] == leaf;
        assert(all[j] == leaf);
    }
}

/// An argument keeps its name and its value, and a leaf its key and its text.
pub proof fn law_arguments_keep_their_names(
    args: Seq<(&str, &str)>,
    leaves: Seq<(String, Option<String>)>,
    i: int,
)
    ensures
        0 <= i < args.len() ==> arg_views(args)[i].0 == args[i].0@ && arg_views(args)[i].1
            == args[i].1@,
        0 <= i < leaves.len() ==> leaf_views(leaves)[i].0 == leaves[i].0@,
        0 <= i < leaves.len() && leaves[i].1 is Some ==> leaf_views(leaves)[i].1 == Some(
            (leaves[i].1->0)@,
        ),
        0 <= i < leaves.len() && leaves[i].1 is None ==> leaf_views(leaves)[i].1 is None,
{
}

/// The name of a placeholder is not empty and holds letters, digits and `_` only.
pub proof fn law_placeholders_have_plain_names(s: Seq<char>, c: char)
    ensures
        !placeholder_name(Seq::<char>::empty()),
        placeholder_name(s) ==> (placeholder_name(s.push(c)) <==> ascii_alnum(c) || c == '_'),
        placeholder_name(seq![c]) <==> ascii_alnum(c) || c == '_',
{
    if placeholder_name(s) {
        let t = s.push(c);
        assert(t[t.len() - 1] == c);
        assert forall|i: int| 0 <= i < s.len() implies t[i] == s[i] by {}
    }
    assert(seq![c][0] == c);
}

} // verus!
