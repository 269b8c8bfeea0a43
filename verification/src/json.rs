//! JSON texts.

use vstd::prelude::*;
use vstd::slice::slice_subrange;
use vstd::utf8::encode_utf8;
use crate::text::{flat, joined_with, str_eq, views};

verus! {

/// The lower-case hexadecimal digit of a number below 16.
pub open spec fn hex_char(d: nat) -> char {
    if d < 10 {
        (48 + d) as char
    } else {
        (87 + d) as char
    }
}

/// What stands for `c` in a JSON string.
pub open spec fn json_char(c: char) -> Seq<char> {
    if c == '"' {
        seq!['\\', '"']
    } else if c == '\\' {
        seq!['\\', '\\']
    } else if c == '\u{8}' {
        seq!['\\', 'b']
    } else if c == '\u{9}' {
        seq!['\\', 't']
    } else if c == '\u{a}' {
        seq!['\\', 'n']
    } else if c == '\u{c}' {
        seq!['\\', 'f']
    } else if c == '\u{d}' {
        seq!['\\', 'r']
    } else if (c as u32) < 0x20 {
        seq!['\\', 'u', '0', '0', hex_char(c as nat / 16), hex_char(c as nat % 16)]
    } else {
        seq![c]
    }
}

/// The JSON text of a string.
pub open spec fn json_string(s: Seq<char>) -> Seq<char> {
    seq!['"'] + flat(s, |c: char| json_char(c)) + seq!['"']
}

/// `serde_json::to_string` writes a string between quotes, with a backslash
/// before quotes and backslashes and with escapes for control characters.
#[verifier::external_body]
pub(crate) fn text_to_json(s: &str) -> (r: String)
    ensures
        r@ == json_string(s@),
{
    serde_json::to_string(s).expect("strings are serializable")
}

/// The JSON text of a list of strings.
pub open spec fn json_of_list(items: Seq<Seq<char>>) -> Seq<char> {
    seq!['['] + joined_with(items.map_values(|s: Seq<char>| json_string(s)), seq![',']) + seq![']']
}

/// `serde_json::to_string` writes a list of strings as a JSON array, with
/// commas and no spaces.
#[verifier::external_body]
pub(crate) fn list_to_json(items: &Vec<String>) -> (r: String)
    ensures
        r@ == json_of_list(views(items@)),
{
    serde_json::to_string(items).expect("strings are serializable")
}

/// The list of strings that a JSON text holds, if it holds one.
pub uninterp spec fn list_of_json(json: Seq<char>) -> Option<Seq<Seq<char>>>;

/// The list, as mathematics has it.
pub open spec fn opt_views(o: Option<Vec<String>>) -> Option<Seq<Seq<char>>> {
    match o {
        Some(v) => Some(views(v@)),
        None => None,
    }
}

/// `serde_json::from_str` reads a list of strings from a JSON text, or
/// nothing where the text holds no such list. From what `to_string` made of a
/// list it reads that list.
#[verifier::external_body]
pub(crate) fn list_from_json(json: &str) -> (r: Option<Vec<String>>)
    ensures
        opt_views(r) == list_of_json(json@),
        forall|items: Seq<Seq<char>>|
            json@ == #[trigger] json_of_list(items) ==> opt_views(r) == Some(items),
{
    serde_json::from_str::<Vec<String>>(json).ok()
}

// ---------------------------------------------------------------------------
// Trees
// ---------------------------------------------------------------------------

/// A JSON value. A number is held as it is written.
#[derive(Debug)]
pub enum Json {
    Null,
    Flag(bool),
    Number(String),
    Text(String),
    List(Vec<Json>),
    Object(Vec<(String, Json)>),
}

/// A JSON value, as mathematics has it.
pub enum JsonView {
    Null,
    Flag(bool),
    Number(Seq<char>),
    Text(Seq<char>),
    List(Seq<JsonView>),
    Object(Seq<(Seq<char>, JsonView)>),
}

/// The values of a list, as mathematics has them.
pub open spec fn items_model(v: Seq<Json>) -> Seq<JsonView> {
    v.map_values(|j: Json| j.model())
}

/// The fields of an object, as mathematics has them.
pub open spec fn fields_model(v: Seq<(String, Json)>) -> Seq<(Seq<char>, JsonView)> {
    v.map_values(|f: (String, Json)| (f.0@, f.1.model()))
}

impl Json {
    pub open spec fn model(self) -> JsonView
        decreases self,
    {
        match self {
            Json::Null => JsonView::Null,
            Json::Flag(b) => JsonView::Flag(b),
            Json::Number(n) => JsonView::Number(n@),
            Json::Text(t) => JsonView::Text(t@),
            Json::List(l) => JsonView::List(
                Seq::new(
                    l@.len(),
                    |i: int|
                        if 0 <= i < l@.len() {
                            l@[i].model()
                        } else {
                            arbitrary()
                        },
                ),
            ),
            Json::Object(o) => JsonView::Object(
                Seq::new(
                    o@.len(),
                    |i: int|
                        if 0 <= i < o@.len() {
                            (o@[i].0@, o@[i].1.model())
                        } else {
                            arbitrary()
                        },
                ),
            ),
        }
    }

    /// The same value once more.
    pub fn copy(&self) -> (r: Json)
        ensures
            r.model() == self.model(),
        decreases self,
    {
        match self {
            Json::Null => Json::Null,
            Json::Flag(b) => Json::Flag(*b),
            Json::Number(n) => Json::Number(n.clone()),
            Json::Text(t) => Json::Text(t.clone()),
            Json::List(l) => {
                let mut out: Vec<Json> = Vec::new();
                let mut i: usize = 0;
                while i < l.len()
                    invariant
                        i <= l@.len(),
                        *self == Json::List(*l),
                        out@.len() == i,
                        forall|k: int| 0 <= k < i ==> (#[trigger] out@[k]).model() == l@[k].model(),
                    decreases l@.len() - i,
                {
                    assert(decreases_to!(*self => self->List_0@[i as int]));
                    let c: Json = l[i].copy();
                    out.push(c);
                    i = i + 1;
                }
                let r: Json = Json::List(out);
                assert(r.model()->List_0 =~= self.model()->List_0);
                r
            },
            Json::Object(o) => {
                let mut out: Vec<(String, Json)> = Vec::new();
                let mut i: usize = 0;
                while i < o.len()
                    invariant
                        i <= o@.len(),
                        *self == Json::Object(*o),
                        out@.len() == i,
                        forall|k: int|
                            0 <= k < i ==> (#[trigger] out@[k]).0@ == o@[k].0@ && out@[k].1.model()
                                == o@[k].1.model(),
                    decreases o@.len() - i,
                {
                    assert(decreases_to!(*self => self->Object_0@[i as int].1));
                    let c: Json = o[i].1.copy();
                    out.push((o[i].0.clone(), c));
                    i = i + 1;
                }
                let r: Json = Json::Object(out);
                assert(r.model()->Object_0 =~= self.model()->Object_0);
                r
            },
        }
    }
}

/// What a list of values stands for.
pub proof fn lemma_list_model(l: Vec<Json>)
    ensures
        Json::List(l).model() == JsonView::List(items_model(l@)),
{
    assert(Json::List(l).model()->List_0 =~= items_model(l@));
}

/// What a list of fields stands for.
pub proof fn lemma_object_model(o: Vec<(String, Json)>)
    ensures
        Json::Object(o).model() == JsonView::Object(fields_model(o@)),
{
    assert(Json::Object(o).model()->Object_0 =~= fields_model(o@));
}

/// The same fields once more.
pub fn copy_fields(v: &Vec<(String, Json)>) -> (r: Vec<(String, Json)>)
    ensures
        fields_model(r@) == fields_model(v@),
{
    let mut r: Vec<(String, Json)> = Vec::new();
    let mut i: usize = 0;
    while i < v.len()
        invariant
            i <= v@.len(),
            r@.len() == i,
            forall|k: int|
                0 <= k < i ==> (#[trigger] r@[k]).0@ == v@[k].0@ && r@[k].1.model()
                    == v@[k].1.model(),
        decreases v@.len() - i,
    {
        r.push((v[i].0.clone(), v[i].1.copy()));
        i = i + 1;
    }
    assert(fields_model(r@) =~= fields_model(v@));
    r
}

/// The value of a field, the last of that name counting.
pub open spec fn field_of(fields: Seq<(Seq<char>, JsonView)>, name: Seq<char>) -> Option<JsonView>
    decreases fields.len(),
{
    if fields.len() == 0 {
        None
    } else if fields.last().0 == name {
        Some(fields.last().1)
    } else {
        field_of(fields.drop_last(), name)
    }
}

/// Finds the value of a field.
pub fn find_field<'a>(fields: &'a Vec<(String, Json)>, name: &str) -> (r: Option<&'a Json>)
    ensures
        match r {
            Some(j) => field_of(fields_model(fields@), name@) == Some(j.model()),
            None => field_of(fields_model(fields@), name@) is None,
        },
{
    let ghost all = fields_model(fields@);
    let mut n: usize = fields.len();
    assert(all.take(n as int) =~= all);
    while n > 0
        invariant
            n <= fields@.len(),
            all == fields_model(fields@),
            field_of(all, name@) == field_of(all.take(n as int), name@),
        decreases n,
    {
        assert(all.take(n as int).last() == (fields@[n - 1].0@, fields@[n - 1].1.model()));
        assert(all.take(n as int).drop_last() =~= all.take(n - 1));
        if str_eq(fields[n - 1].0.as_str(), name) {
            return Some(&fields[n - 1].1);
        }
        n = n - 1;
    }
    None
}

/// A value of the JSON crate, carried from its parser to this module's tree.
#[verifier::external_type_specification]
#[verifier::external_body]
pub struct ExJsonValue(serde_json::Value);

/// Turns a value of the JSON crate into this module's own tree, value by
/// value. A number becomes the text that the crate writes for it.
#[verifier::external_body]
fn json_node(v: serde_json::Value) -> (r: Json)
{
    match v {
        serde_json::Value::Null => Json::Null,
        serde_json::Value::Bool(b) => Json::Flag(b),
        serde_json::Value::Number(n) => Json::Number(n.to_string()),
        serde_json::Value::String(s) => Json::Text(s),
        serde_json::Value::Array(l) => Json::List(l.into_iter().map(json_node).collect()),
        serde_json::Value::Object(o) => Json::Object(o.into_iter().map(|(k, v)| (k, json_node(v))).collect()),
    }
}

/// The value that the JSON parser reads from a text, or its words about what
/// is wrong with the text.
pub uninterp spec fn json_document(text: Seq<char>) -> Result<JsonView, Seq<char>>;

/// `serde_json::from_str` reads a value from a text or fails with some words.
/// Both depend on the text alone; what the grammar of JSON makes of a text is
/// not stated.
#[verifier::external_body]
pub(crate) fn read_json(text: &str) -> (r: Result<Json, String>)
    ensures
        (match r {
            Ok(j) => Ok(j.model()),
            Err(e) => Err(e@),
        }) == json_document(text@),
{
    match serde_json::from_str::<serde_json::Value>(text) {
        Ok(v) => Ok(json_node(v)),
        Err(e) => Err(e.to_string()),
    }
}

/// The value that a text holds, if it is JSON.
pub open spec fn json_of(text: Seq<char>) -> Option<JsonView> {
    match json_document(text) {
        Ok(j) => Some(j),
        Err(_) => None,
    }
}

/// Reads the value that a text holds.
pub fn parse_json(text: &str) -> (r: Option<Json>)
    ensures
        (match r {
            Some(j) => Some(j.model()),
            None => None,
        }) == json_of(text@),
{
    match read_json(text) {
        Ok(j) => Some(j),
        Err(_) => None,
    }
}

// ---------------------------------------------------------------------------
// The names in an object
// ---------------------------------------------------------------------------

/// The value that the JSON parser reads at the front of some bytes, and behind
/// how many bytes it ends.
pub uninterp spec fn json_front(bytes: Seq<u8>) -> Option<(JsonView, int)>;

/// `serde_json::StreamDeserializer::next` reads the value at the front of some
/// bytes, behind blanks if there are any, and its `byte_offset` then says where
/// the value ended: behind its first byte and within the bytes. Both depend on
/// the bytes alone; what the grammar of JSON makes of them is not stated.
#[verifier::external_body]
fn read_front(bytes: &[u8]) -> (r: Option<(Json, usize)>)
    ensures
        (match r {
            Some(p) => Some((p.0.model(), p.1 as int)),
            None => None,
        }) == json_front(bytes@),
        r matches Some(p) ==> 0 < p.1 <= bytes@.len(),
{
    let mut values = serde_json::Deserializer::from_slice(bytes).into_iter::<serde_json::Value>();
    match values.next() {
        Some(Ok(v)) => Some((json_node(v), values.byte_offset())),
        Some(Err(_)) => None,
        None => None,
    }
}

/// A byte that may stand between the parts of a JSON text.
pub open spec fn json_blank(b: u8) -> bool {
    b == 0x20 || b == 0x09 || b == 0x0a || b == 0x0d
}

/// The first place from `i` on that is not blank, or the end.
pub open spec fn past_blanks(b: Seq<u8>, i: int) -> int
    decreases b.len() - i,
{
    if 0 <= i < b.len() && json_blank(b[i]) {
        past_blanks(b, i + 1)
    } else {
        i
    }
}

/// The names of the members from place `i` of an object to its end, each as
/// often as it is written.
pub open spec fn names_from(b: Seq<u8>, i: int) -> Option<Seq<Seq<char>>>
    decreases b.len() - i,
{
    match json_front(b.skip(i)) {
        Some((JsonView::Text(name), n)) => {
            let colon = past_blanks(b, i + n);
            if !(i < colon < b.len()) || b[colon] != 0x3a {
                None
            } else {
                match json_front(b.skip(colon + 1)) {
                    Some((_, m)) => {
                        let end = past_blanks(b, colon + 1 + m);
                        if !(colon < end < b.len()) {
                            None
                        } else if b[end] == 0x2c {
                            match names_from(b, end + 1) {
                                Some(rest) => Some(seq![name] + rest),
                                None => None,
                            }
                        } else if b[end] == 0x7d {
                            Some(seq![name])
                        } else {
                            None
                        }
                    },
                    None => None,
                }
            }
        },
        _ => None,
    }
}

/// The names of the members of the object that some bytes begin with, each as
/// often as it is written; none where no object stands there.
pub open spec fn names_of(b: Seq<u8>) -> Option<Seq<Seq<char>>> {
    let open = past_blanks(b, 0);
    if open >= b.len() || b[open] != 0x7b {
        None
    } else {
        let first = past_blanks(b, open + 1);
        if first < b.len() && b[first] == 0x7d {
            Some(Seq::<Seq<char>>::empty())
        } else {
            names_from(b, first)
        }
    }
}

fn skip_blanks(b: &[u8], from: usize) -> (r: usize)
    requires
        from <= b@.len(),
    ensures
        from <= r <= b@.len(),
        r == past_blanks(b@, from as int),
{
    let mut i: usize = from;
    while i < b.len() && (b[i] == 0x20 || b[i] == 0x09 || b[i] == 0x0a || b[i] == 0x0d)
        invariant
            from <= i <= b@.len(),
            past_blanks(b@, from as int) == past_blanks(b@, i as int),
        decreases b@.len() - i,
    {
        i = i + 1;
    }
    i
}

/// The names that were read, and behind them those that follow.
spec fn joined_names(head: Seq<Seq<char>>, rest: Option<Seq<Seq<char>>>) -> Option<Seq<Seq<char>>> {
    match rest {
        Some(r) => Some(head + r),
        None => None,
    }
}

/// Reads the names of the members of an object, each as often as it is written.
pub fn object_names(text: &str) -> (r: Option<Vec<String>>)
    ensures
        (match r {
            Some(v) => Some(views(v@)),
            None => None,
        }) == names_of(encode_utf8(text@)),
{
    let b: &[u8] = text.as_bytes();
    let open: usize = skip_blanks(b, 0);
    if open >= b.len() || b[open] != 0x7b {
        return None;
    }
    let mut i: usize = skip_blanks(b, open + 1);
    let mut names: Vec<String> = Vec::new();
    assert(views(names@) =~= Seq::<Seq<char>>::empty());
    if i < b.len() && b[i] == 0x7d {
        return Some(names);
    }
    let ghost all = names_from(b@, i as int);
    assert(all == joined_names(views(names@), all));
    loop
        invariant
            i <= b@.len(),
            b@ == encode_utf8(text@),
            all == names_of(b@),
            all == joined_names(views(names@), names_from(b@, i as int)),
        decreases b@.len() - i,
    {
        let n: usize = b.len();
        assert(b@.subrange(i as int, n as int) =~= b@.skip(i as int));
        let (name, used): (String, usize) = match read_front(slice_subrange(b, i, n)) {
            Some((Json::Text(t), k)) => (t, k),
            _ => {
                return None;
            },
        };
        let colon: usize = skip_blanks(b, i + used);
        if colon >= n || b[colon] != 0x3a {
            return None;
        }
        assert(b@.subrange(colon + 1, n as int) =~= b@.skip(colon + 1));
        let taken: usize = match read_front(slice_subrange(b, colon + 1, n)) {
            Some((_, k)) => k,
            None => {
                return None;
            },
        };
        let end: usize = skip_blanks(b, colon + 1 + taken);
        if end >= n {
            return None;
        }
        let ghost before = views(names@);
        let ghost word = name@;
        names.push(name);
        assert(views(names@) =~= before.push(word));
        if b[end] == 0x2c {
            proof {
                if let Some(rest) = names_from(b@, end + 1) {
                    assert(before + (seq![word] + rest) =~= before.push(word) + rest);
                }
            }
            i = end + 1;
        } else if b[end] == 0x7d {
            assert(before + seq![word] =~= before.push(word));
            return Some(names);
        } else {
            return None;
        }
    }
}

/// The names of an object are read one by one: each stands before a colon and a value,
/// and is followed by the others behind a comma, or by none at the closing brace.
pub proof fn law_names_are_read_in_order(b: Seq<u8>, i: int, name: Seq<char>, n: int, v: JsonView, m: int)
    requires
        0 <= i,
        0 < n,
        0 < m,
        i + n + 1 + m < b.len(),
        json_front(b.skip(i)) == Some((JsonView::Text(name), n)),
        b[i + n] == 0x3a,
        json_front(b.skip(i + n + 1)) == Some((v, m)),
    ensures
        b[i + n + 1 + m] == 0x7d ==> names_from(b, i) == Some(seq![name]),
        b[i + n + 1 + m] == 0x2c ==> (match names_from(b, i + n + 1 + m + 1) {
            Some(rest) => names_from(b, i) == Some(seq![name] + rest),
            None => names_from(b, i) is None,
        }),
        i == 1 && b[0] == 0x7b && !json_blank(b[1]) && b[1] != 0x7d ==> names_of(b) == names_from(
            b,
            1,
        ),
{
    let colon = i + n;
    let end = colon + 1 + m;
    assert(past_blanks(b, colon) == colon);
    if b[end] == 0x7d || b[end] == 0x2c {
        assert(past_blanks(b, end) == end);
    }
    if i == 1 && b[0] == 0x7b && !json_blank(b[1]) && b[1] != 0x7d {
        assert(past_blanks(b, 0) == 0);
        assert(past_blanks(b, 1) == 1);
    }
}

/// Blanks before a name or a mark are skipped, and nothing else is.
pub proof fn law_only_blanks_are_skipped(b: Seq<u8>, i: int)
    requires
        0 <= i <= b.len(),
    ensures
        i <= past_blanks(b, i) <= b.len(),
        forall|k: int|
            i <= k < past_blanks(b, i) ==> #[trigger] b[k] == 0x20 || b[k] == 0x09 || b[k] == 0x0a
                || b[k] == 0x0d,
        past_blanks(b, i) < b.len() ==> {
            let c = b[past_blanks(b, i)];
            c != 0x20 && c != 0x09 && c != 0x0a && c != 0x0d
        },
    decreases b.len() - i,
{
    if i < b.len() && json_blank(b[i]) {
        law_only_blanks_are_skipped(b, i + 1);
    }
}

} // verus!
