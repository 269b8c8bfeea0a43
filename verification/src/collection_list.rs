//! Listing the rows of a collection with filters, an order and pages.

use vstd::arithmetic::div_mod::lemma_fundamental_div_mod_converse;
use vstd::prelude::*;
use crate::audit_note::{
    about, done, failed, field_views, note_about, note_done, note_failed, AuditNote, Field,
    FieldView,
};
use crate::browse::{mask_sensitive_columns, secret_column, shown_cell, CollectionLookup};
use crate::i18n::{text_of, Translator};
use crate::json::{items_model, lemma_list_model, Json, JsonView};
use crate::paging::{page_count, total_pages};
use crate::reply::{refusal, refuse, refuse_with, Refusal};
use crate::rounding::{
    half_even, law_rounding_is_nearest, push_two_places, round_half_even, two_places,
};
use crate::text::{
    concat2, concat3, dec, dec_int, dec_of, digit_char, ends_with, has_prefix, has_suffix, holds,
    join, joined_with, push_dec, push_dec_int, quoted, replace, replaced, starts_with, str_eq,
    views, write_quoted,
};

verus! {

// ---------------------------------------------------------------------------
// Requests
// ---------------------------------------------------------------------------

#[derive(Debug)]
pub struct ListRequest {
    pub filters: Vec<FilterTriple>,
    pub sort: Option<SortSpec>,
    pub page: u32,
    pub per_page: u32,
}

/// The page where none is asked for.
pub fn default_page() -> (r: u32)
    ensures
        r == 1,
{
    1
}

/// The number of rows where none is asked for.
pub fn default_per_page() -> (r: u32)
    ensures
        r == 50,
{
    50
}

#[derive(Debug)]
pub struct FilterTriple {
    pub field: String,
    pub op: String,
    pub value: Json,
}

#[derive(Debug)]
pub struct SortSpec {
    pub field: String,
    pub dir: SortDir,
}

#[derive(Clone, Copy, Debug, PartialEq, Eq, Structural)]
pub enum SortDir {
    Asc,
    Desc,
}

// ---------------------------------------------------------------------------
// Filters
// ---------------------------------------------------------------------------

/// A condition on a row: that all of some conditions hold, or that a field
/// has some relation to a value.
#[derive(Debug)]
pub enum FilterAst {
    And(Vec<FilterAst>),
    Leaf { field: String, op: String, value: Json },
}

/// A condition on a row, as mathematics has it.
pub enum FilterView {
    And(Seq<FilterView>),
    Leaf { field: Seq<char>, op: Seq<char>, value: JsonView },
}

impl FilterAst {
    pub open spec fn model(self) -> FilterView
        decreases self,
    {
        match self {
            FilterAst::And(l) => FilterView::And(
                Seq::new(
                    l@.len(),
                    |i: int|
                        if 0 <= i < l@.len() {
                            l@[i].model()
                        } else {
                            arbitrary()
                        },
                ),
            ),
            FilterAst::Leaf { field, op, value } => FilterView::Leaf {
                field: field@,
                op: op@,
                value: value.model(),
            },
        }
    }
}

/// The conditions of a list, as mathematics has them.
pub open spec fn nodes_model(l: Seq<FilterAst>) -> Seq<FilterView> {
    l.map_values(|f: FilterAst| f.model())
}

proof fn lemma_and_model(l: Vec<FilterAst>)
    ensures
        FilterAst::And(l).model() == FilterView::And(nodes_model(l@)),
{
    assert(FilterAst::And(l).model()->And_0 =~= nodes_model(l@));
}

/// The relation passes through as it is.
pub open spec fn direct_op(op: Seq<char>) -> bool {
    ||| op == "eq"@
    ||| op == "ne"@
    ||| op == "gt"@
    ||| op == "gte"@
    ||| op == "lt"@
    ||| op == "lte"@
    ||| op == "in"@
    ||| op == "nin"@
    ||| op == "like"@
    ||| op == "is_null"@
    ||| op == "is_not_null"@
}

/// A condition on one field.
pub open spec fn leaf(field: Seq<char>, op: Seq<char>, value: JsonView) -> FilterView {
    FilterView::Leaf { field, op, value }
}

/// The condition that a triple stands for, or why it stands for none.
pub open spec fn node_of(field: Seq<char>, op: Seq<char>, value: JsonView) -> Result<
    FilterView,
    Seq<char>,
> {
    if direct_op(op) {
        Ok(leaf(field, op, value))
    } else if op == "contains"@ {
        match value {
            JsonView::Text(s) => Ok(leaf(field, "like"@, JsonView::Text("%"@ + s + "%"@))),
            _ => Err("contains requires string"@),
        }
    } else if op == "starts_with"@ {
        match value {
            JsonView::Text(s) => Ok(leaf(field, "like"@, JsonView::Text(s + "%"@))),
            _ => Err("starts_with requires string"@),
        }
    } else if op == "ends_with"@ {
        match value {
            JsonView::Text(s) => Ok(leaf(field, "like"@, JsonView::Text("%"@ + s))),
            _ => Err("ends_with requires string"@),
        }
    } else if op == "between"@ {
        match value {
            JsonView::List(l) => if l.len() == 2 {
                Ok(
                    FilterView::And(
                        seq![leaf(field, "gte"@, l[0]), leaf(field, "lte"@, l[1])],
                    ),
                )
            } else {
                Err("between requires exactly 2 elements"@)
            },
            _ => Err("between requires 2-element array"@),
        }
    } else if op == "is_true"@ {
        Ok(leaf(field, "eq"@, JsonView::Number("1"@)))
    } else if op == "is_false"@ {
        Ok(leaf(field, "eq"@, JsonView::Number("0"@)))
    } else {
        Err("unknown op "@ + quoted(op))
    }
}

/// The outcome, as mathematics has it.
pub open spec fn node_outcome(r: Result<FilterAst, String>) -> Result<FilterView, Seq<char>> {
    match r {
        Ok(f) => Ok(f.model()),
        Err(e) => Err(e@),
    }
}

fn is_direct_op(op: &str) -> (r: bool)
    ensures
        r == direct_op(op@),
{
    str_eq(op, "eq") || str_eq(op, "ne") || str_eq(op, "gt") || str_eq(op, "gte") || str_eq(
        op,
        "lt",
    ) || str_eq(op, "lte") || str_eq(op, "in") || str_eq(op, "nin") || str_eq(op, "like")
        || str_eq(op, "is_null") || str_eq(op, "is_not_null")
}

fn make_leaf(field: &str, op: &str, value: Json) -> (r: FilterAst)
    ensures
        r.model() == leaf(field@, op@, value.model()),
{
    FilterAst::Leaf { field: field.to_owned(), op: op.to_owned(), value }
}

/// Turns a triple into a condition.
pub fn triple_to_node(t: &FilterTriple) -> (r: Result<FilterAst, String>)
    ensures
        node_outcome(r) == node_of(t.field@, t.op@, t.value.model()),
{
    let field: &str = t.field.as_str();
    let op: &str = t.op.as_str();
    if is_direct_op(op) {
        return Ok(make_leaf(field, op, t.value.copy()));
    }
    if str_eq(op, "contains") {
        return match &t.value {
            Json::Text(s) => Ok(
                make_leaf(field, "like", Json::Text(concat3("%", s.as_str(), "%"))),
            ),
            _ => Err("contains requires string".to_owned()),
        };
    }
    if str_eq(op, "starts_with") {
        return match &t.value {
            Json::Text(s) => Ok(make_leaf(field, "like", Json::Text(concat2(s.as_str(), "%")))),
            _ => Err("starts_with requires string".to_owned()),
        };
    }
    if str_eq(op, "ends_with") {
        return match &t.value {
            Json::Text(s) => Ok(make_leaf(field, "like", Json::Text(concat2("%", s.as_str())))),
            _ => Err("ends_with requires string".to_owned()),
        };
    }
    if str_eq(op, "between") {
        return match &t.value {
            Json::List(l) => {
                proof {
                    lemma_list_model(*l);
                }
                if l.len() == 2 {
                    let mut both: Vec<FilterAst> = Vec::new();
                    both.push(make_leaf(field, "gte", l[0].copy()));
                    both.push(make_leaf(field, "lte", l[1].copy()));
                    proof {
                        lemma_and_model(both);
                        assert(nodes_model(both@) =~= seq![
                            leaf(field@, "gte"@, items_model(l@)[0]),
                            leaf(field@, "lte"@, items_model(l@)[1]),
                        ]);
                    }
                    Ok(FilterAst::And(both))
                } else {
                    Err("between requires exactly 2 elements".to_owned())
                }
            },
            _ => Err("between requires 2-element array".to_owned()),
        };
    }
    if str_eq(op, "is_true") {
        return Ok(make_leaf(field, "eq", Json::Number("1".to_owned())));
    }
    if str_eq(op, "is_false") {
        return Ok(make_leaf(field, "eq", Json::Number("0".to_owned())));
    }
    Err(concat2("unknown op ", write_quoted(op).as_str()))
}

/// The conditions of the first `k` triples, or what is wrong with the first
/// that stands for none.
pub open spec fn nodes_of(triples: Seq<FilterTriple>, k: nat) -> Result<Seq<FilterView>, Seq<char>>
    decreases k,
{
    if k == 0 {
        Ok(Seq::<FilterView>::empty())
    } else {
        match nodes_of(triples, (k - 1) as nat) {
            Err(e) => Err(e),
            Ok(before) => match node_of(
                triples[k - 1].field@,
                triples[k - 1].op@,
                triples[k - 1].value.model(),
            ) {
                Ok(f) => Ok(before.push(f)),
                Err(e) => Err(e),
            },
        }
    }
}

proof fn lemma_nodes_fault(triples: Seq<FilterTriple>, j: nat, k: nat)
    requires
        j <= k <= triples.len(),
        nodes_of(triples, j) is Err,
    ensures
        nodes_of(triples, k) == nodes_of(triples, j),
    decreases k,
{
    if j < k {
        lemma_nodes_fault(triples, j, (k - 1) as nat);
    }
}

/// Turns a list of triples into one condition, that all of them hold. An
/// empty list holds of every row.
pub fn filter_triples_to_ast(triples: &Vec<FilterTriple>) -> (r: Result<FilterAst, String>)
    ensures
        node_outcome(r) == (match nodes_of(triples@, triples@.len()) {
            Ok(nodes) => Ok(FilterView::And(nodes)),
            Err(e) => Err(e),
        }),
{
    let mut nodes: Vec<FilterAst> = Vec::new();
    let mut i: usize = 0;
    assert(nodes_model(nodes@) =~= Seq::<FilterView>::empty());
    while i < triples.len()
        invariant
            i <= triples@.len(),
            nodes_of(triples@, i as nat) == Ok::<Seq<FilterView>, Seq<char>>(nodes_model(nodes@)),
        decreases triples@.len() - i,
    {
        let ghost before = nodes_model(nodes@);
        match triple_to_node(&triples[i]) {
            Ok(f) => {
                let ghost m = f.model();
                nodes.push(f);
                assert(nodes_model(nodes@) =~= before.push(m));
            },
            Err(e) => {
                proof {
                    lemma_nodes_fault(triples@, (i + 1) as nat, triples@.len());
                }
                return Err(e);
            },
        }
        i = i + 1;
    }
    proof {
        lemma_and_model(nodes);
    }
    Ok(FilterAst::And(nodes))
}

// ---------------------------------------------------------------------------
// Queries
// ---------------------------------------------------------------------------

/// A name as SQL has it: between quotes, with quotes doubled.
pub open spec fn sql_name(name: Seq<char>) -> Seq<char> {
    "\""@ + replaced(name, "\""@, "\"\""@) + "\""@
}

/// Writes a name for SQL.
pub fn write_sql_name(name: &str) -> (r: String)
    ensures
        r@ == sql_name(name@),
{
    proof {
        reveal_strlit("\"");
    }
    let inner: String = replace(name, "\"", "\"\"");
    concat3("\"", inner.as_str(), "\"")
}

/// What SQL reads between the quotes is the name again.
pub proof fn law_sql_name_is_read_back(name: Seq<char>)
    ensures
        replaced(
            sql_name(name).subrange(1, sql_name(name).len() - 1),
            "\"\""@,
            "\""@,
        ) == name,
{
    reveal_strlit("\"");
    reveal_strlit("\"\"");
    let inner = replaced(name, "\""@, "\"\""@);
    assert(sql_name(name).subrange(1, sql_name(name).len() - 1) =~= inner);
    lemma_unquote(name);
}

proof fn lemma_unquote(name: Seq<char>)
    ensures
        replaced(replaced(name, "\""@, "\"\""@), "\"\""@, "\""@) == name,
    decreases name.len(),
{
    reveal_strlit("\"");
    reveal_strlit("\"\"");
    let one = "\""@;
    let two = "\"\""@;
    assert(one =~= seq!['"']);
    assert(two =~= seq!['"', '"']);
    let inner = replaced(name, one, two);
    if name.len() == 0 {
        assert(inner =~= Seq::<char>::empty());
        assert(replaced(inner, two, one) =~= name);
    } else if has_prefix(name, one) {
        assert(name.subrange(0, 1)[0] == name[0]);
        let rest = replaced(name.skip(1), one, two);
        assert(inner =~= two + rest);
        assert(inner.subrange(0, 2) =~= two);
        assert(inner.skip(2) =~= rest);
        lemma_unquote(name.skip(1));
        assert(replaced(inner, two, one) =~= one + name.skip(1));
        assert(name =~= one + name.skip(1));
    } else {
        let rest = replaced(name.drop_first(), one, two);
        assert(inner =~= seq![name[0]] + rest);
        assert(name[0] != '"') by {
            if name[0] == '"' {
                assert(name.subrange(0, 1) =~= one);
            }
        }
        lemma_unquote(name.drop_first());
        if has_prefix(inner, two) {
            assert(inner.subrange(0, 2)[0] == inner[0]);
        }
        assert(inner.drop_first() =~= rest);
        if inner.len() < 2 {
            assert(rest =~= Seq::<char>::empty());
            lemma_replaced_short(inner, two, one);
            lemma_replaced_short(rest, two, one);
            assert(name.drop_first() =~= rest);
        }
        assert(replaced(inner, two, one) =~= seq![name[0]] + name.drop_first());
        assert(name =~= seq![name[0]] + name.drop_first());
    }
}

proof fn lemma_replaced_short(s: Seq<char>, p: Seq<char>, w: Seq<char>)
    requires
        s.len() < p.len(),
    ensures
        replaced(s, p, w) == s,
    decreases s.len(),
{
}

/// The two queries of a list, with the page they are for.
#[derive(Debug)]
pub struct ListQueries {
    pub list_sql: String,
    pub count_sql: String,
    pub page: u32,
    pub per_page: u32,
}

/// The page that is shown.
pub open spec fn shown_page(req: ListRequest) -> int {
    if req.page < 1 {
        1
    } else {
        req.page as int
    }
}

/// The number of rows on a page: at least 1 and at most 500.
pub open spec fn shown_per_page(req: ListRequest) -> int {
    if req.per_page < 1 {
        1
    } else if req.per_page > 500 {
        500
    } else {
        req.per_page as int
    }
}

/// The field that orders the rows, and the direction.
pub open spec fn order_of_list(sort: Option<SortSpec>) -> (Seq<char>, Seq<char>) {
    match sort {
        Some(s) => (
            s.field@,
            match s.dir {
                SortDir::Asc => "ASC"@,
                SortDir::Desc => "DESC"@,
            },
        ),
        None => ("id"@, "DESC"@),
    }
}

/// The query for a page of rows.
pub open spec fn list_sql(coll: Seq<char>, where_sql: Seq<char>, req: ListRequest) -> Seq<char> {
    let per = shown_per_page(req);
    "SELECT * FROM "@ + sql_name(coll) + " WHERE "@ + where_sql + " ORDER BY "@ + sql_name(
        order_of_list(req.sort).0,
    ) + " "@ + order_of_list(req.sort).1 + " LIMIT "@ + dec(per as nat) + " OFFSET "@ + dec(
        ((shown_page(req) - 1) * per) as nat,
    )
}

/// The query for the number of rows.
pub open spec fn count_sql(coll: Seq<char>, where_sql: Seq<char>) -> Seq<char> {
    "SELECT COUNT(*) FROM "@ + sql_name(coll) + " WHERE "@ + where_sql
}

/// Checks that the collection of a list is there.
pub fn check_target(tenant_active: bool, opened: Result<(), String>, lookup: CollectionLookup) -> (r: Result<
    (),
    Refusal,
>)
    ensures
        if !tenant_active {
            r is Err && r->Err_0@ == refusal(404, "TENANT_NOT_FOUND"@, "no such tenant"@)
        } else {
            match (opened, lookup) {
                (Err(e), _) => r is Err && r->Err_0@ == refusal(500, "INTERNAL"@, e@),
                (Ok(_), CollectionLookup::Missing) => r is Err && r->Err_0@ == refusal(
                    404,
                    "COLLECTION_NOT_FOUND"@,
                    "no such collection"@,
                ),
                (Ok(_), CollectionLookup::Failed(e)) => r is Err && r->Err_0@ == refusal(
                    500,
                    "INTERNAL"@,
                    e@,
                ),
                (Ok(_), CollectionLookup::Found) => r is Ok,
            }
        },
{
    if !tenant_active {
        return Err(refuse(404, "TENANT_NOT_FOUND", "no such tenant"));
    }
    if let Err(e) = opened {
        return Err(refuse_with(500, "INTERNAL", e));
    }
    match lookup {
        CollectionLookup::Missing => Err(
            refuse(404, "COLLECTION_NOT_FOUND", "no such collection"),
        ),
        CollectionLookup::Failed(e) => Err(refuse_with(500, "INTERNAL", e)),
        CollectionLookup::Found => Ok(()),
    }
}

/// Turns the filters of a request into a condition.
pub fn request_filter(req: &ListRequest) -> (r: Result<FilterAst, Refusal>)
    ensures
        match nodes_of(req.filters@, req.filters@.len()) {
            Ok(nodes) => r is Ok && r->Ok_0.model() == FilterView::And(nodes),
            Err(e) => r is Err && r->Err_0@ == refusal(400, "INVALID_FILTER"@, e),
        },
{
    match filter_triples_to_ast(&req.filters) {
        Ok(f) => Ok(f),
        Err(e) => Err(refuse_with(400, "INVALID_FILTER", e)),
    }
}

/// Writes the queries of a list. `compiled` is the condition in SQL, or why
/// there is none; `fields` are the names of the fields of the collection.
pub fn list_queries(
    coll: &str,
    compiled: Result<String, String>,
    fields: &Vec<String>,
    req: &ListRequest,
) -> (r: Result<ListQueries, Refusal>)
    ensures
        match compiled {
            Err(e) => r is Err && r->Err_0@ == refusal(400, "INVALID_FILTER"@, e@),
            Ok(w) => if req.sort matches Some(s) && !views(fields@).contains(s.field@) {
                r is Err && r->Err_0@ == refusal(
                    400,
                    "UNKNOWN_SORT_FIELD"@,
                    "sort field "@ + quoted((req.sort->0).field@) + " not in schema"@,
                )
            } else {
                &&& r matches Ok(q)
                &&& q.list_sql@ == list_sql(coll@, w@, *req)
                &&& q.count_sql@ == count_sql(coll@, w@)
                &&& q.page == shown_page(*req)
                &&& q.per_page == shown_per_page(*req)
            },
        },
{
    let where_sql: String = match compiled {
        Ok(w) => w,
        Err(e) => {
            return Err(refuse_with(400, "INVALID_FILTER", e));
        },
    };
    let (field, dir): (String, &'static str) = match &req.sort {
        Some(s) => {
            if !holds(fields, s.field.as_str()) {
                let q: String = write_quoted(s.field.as_str());
                return Err(
                    refuse_with(
                        400,
                        "UNKNOWN_SORT_FIELD",
                        concat3("sort field ", q.as_str(), " not in schema"),
                    ),
                );
            }
            let dir: &'static str = match s.dir {
                SortDir::Asc => "ASC",
                SortDir::Desc => "DESC",
            };
            (s.field.clone(), dir)
        },
        None => ("id".to_owned(), "DESC"),
    };
    let page: u32 = if req.page < 1 {
        1
    } else {
        req.page
    };
    let per_page: u32 = if req.per_page < 1 {
        1
    } else if req.per_page > 500 {
        500
    } else {
        req.per_page
    };
    assert((page - 1) * per_page <= 0xffff_ffff * 500) by (nonlinear_arith)
        requires
            1 <= page <= 0xffff_ffff,
            1 <= per_page <= 500,
    ;
    assert(0 <= (page - 1) * per_page) by (nonlinear_arith)
        requires
            1 <= page,
            1 <= per_page,
    ;
    let offset: u64 = (page as u64 - 1) * (per_page as u64);
    let table: String = write_sql_name(coll);
    let column: String = write_sql_name(field.as_str());
    let mut list: String = "SELECT * FROM ".to_owned();
    list.append(table.as_str());
    list.append(" WHERE ");
    list.append(where_sql.as_str());
    list.append(" ORDER BY ");
    list.append(column.as_str());
    list.append(" ");
    list.append(dir);
    list.append(" LIMIT ");
    list.append(dec_of(per_page as u64).as_str());
    list.append(" OFFSET ");
    list.append(dec_of(offset).as_str());
    let mut count: String = "SELECT COUNT(*) FROM ".to_owned();
    count.append(table.as_str());
    count.append(" WHERE ");
    count.append(where_sql.as_str());
    Ok(ListQueries { list_sql: list, count_sql: count, page, per_page })
}

// ---------------------------------------------------------------------------
// Cells
// ---------------------------------------------------------------------------

/// 2 to the power of `n`.
pub open spec fn two_to(n: nat) -> nat
    decreases n,
{
    if n == 0 {
        1
    } else {
        2 * two_to((n - 1) as nat)
    }
}

proof fn lemma_two_to_sum(a: nat, b: nat)
    ensures
        two_to(a + b) == two_to(a) * two_to(b),
    decreases b,
{
    if b > 0 {
        lemma_two_to_sum(a, (b - 1) as nat);
        let x = two_to(a) as int;
        let y = two_to((b - 1) as nat) as int;
        assert(2 * (x * y) == x * (2 * y)) by (nonlinear_arith);
    } else {
        assert(two_to(a) * 1 == two_to(a)) by (nonlinear_arith);
    }
}

proof fn lemma_two_to_rises(a: nat, b: nat)
    requires
        a <= b,
    ensures
        1 <= two_to(a) <= two_to(b),
    decreases b,
{
    if a < b {
        lemma_two_to_rises(a, (b - 1) as nat);
    } else if a > 0 {
        lemma_two_to_rises((a - 1) as nat, (a - 1) as nat);
    }
}

proof fn lemma_two_to_values()
    ensures
        two_to(32) == 0x1_0000_0000,
        two_to(64) == 0x1_0000_0000_0000_0000,
        two_to(104) == 0x100_0000_0000_0000_0000_0000_0000,
{
    reveal_with_fuel(two_to, 9);
    assert(two_to(8) == 256);
    lemma_two_to_sum(8, 8);
    assert(two_to(16) == 65536) by (nonlinear_arith)
        requires
            two_to(16) == two_to(8) * two_to(8),
            two_to(8) == 256,
    ;
    lemma_two_to_sum(16, 16);
    assert(two_to(32) == 0x1_0000_0000) by (nonlinear_arith)
        requires
            two_to(32) == two_to(16) * two_to(16),
            two_to(16) == 65536,
    ;
    lemma_two_to_sum(32, 32);
    assert(two_to(64) == 0x1_0000_0000_0000_0000) by (nonlinear_arith)
        requires
            two_to(64) == two_to(32) * two_to(32),
            two_to(32) == 0x1_0000_0000,
    ;
    lemma_two_to_sum(64, 32);
    assert(two_to(96) == 0x1_0000_0000_0000_0000_0000_0000) by (nonlinear_arith)
        requires
            two_to(96) == two_to(64) * two_to(32),
            two_to(64) == 0x1_0000_0000_0000_0000,
            two_to(32) == 0x1_0000_0000,
    ;
    lemma_two_to_sum(96, 8);
    assert(two_to(104) == 0x100_0000_0000_0000_0000_0000_0000) by (nonlinear_arith)
        requires
            two_to(104) == two_to(96) * two_to(8),
            two_to(96) == 0x1_0000_0000_0000_0000_0000_0000,
            two_to(8) == 256,
    ;
}

/// The fraction of a single-precision number, with the leading bit.
pub open spec fn single_mantissa(bits: u32) -> nat {
    let m = bits as nat % 0x80_0000;
    if bits as nat / 0x80_0000 % 256 == 0 {
        m
    } else {
        m + 0x80_0000
    }
}

/// The exponent of a single-precision number to the base of 2, for the
/// fraction as an integer.
pub open spec fn single_exponent(bits: u32) -> int {
    let e = bits as int / 0x80_0000 % 256;
    if e == 0 {
        1 - 150
    } else {
        e - 150
    }
}

/// The size of a finite single-precision number with two decimals, rounded to
/// the nearest and to the even neighbour in the middle.
pub open spec fn single_size(bits: u32) -> Seq<char> {
    let m = single_mantissa(bits);
    let e = single_exponent(bits);
    if e >= 0 {
        dec(m * two_to(e as nat)) + ".00"@
    } else {
        two_places(half_even(m * 100, two_to((-e) as nat)))
    }
}

/// A single-precision number with two decimals.
pub open spec fn single_text(bits: u32) -> Seq<char> {
    let negative = bits >= 0x8000_0000u32;
    if bits as nat / 0x80_0000 % 256 == 255 {
        if bits as nat % 0x80_0000 != 0 {
            "NaN"@
        } else if negative {
            "-inf"@
        } else {
            "inf"@
        }
    } else if negative {
        "-"@ + single_size(bits)
    } else {
        single_size(bits)
    }
}

fn push_dec_big(s: &mut String, n: u128)
    ensures
        final(s)@ == old(s)@ + dec(n as nat),
    decreases n,
{
    if n <= 0xffff_ffff_ffff_ffff {
        push_dec(s, n as u64);
    } else {
        push_dec_big(s, n / 10);
        let d: u64 = (n % 10) as u64;
        push_dec(s, d);
        assert(dec(d as nat) =~= seq![digit_char(d as nat)]);
        assert(s@ =~= old(s)@ + dec(n as nat));
    }
}

fn power_of_two(n: u32) -> (r: u128)
    requires
        n <= 104,
    ensures
        r == two_to(n as nat),
{
    let mut r: u128 = 1;
    let mut i: u32 = 0;
    proof {
        lemma_two_to_values();
    }
    while i < n
        invariant
            i <= n <= 104,
            r == two_to(i as nat),
            two_to(104) == 0x100_0000_0000_0000_0000_0000_0000,
        decreases n - i,
    {
        proof {
            lemma_two_to_rises(i as nat, 104);
        }
        r = 2 * r;
        i = i + 1;
    }
    r
}

/// Writes a single-precision number with two decimals.
pub fn write_single(bits: u32) -> (r: String)
    ensures
        r@ == single_text(bits),
{
    let e: u32 = bits / 0x80_0000 % 256;
    let m: u32 = bits % 0x80_0000;
    let negative: bool = bits >= 0x8000_0000;
    if e == 255 {
        return if m != 0 {
            "NaN".to_owned()
        } else if negative {
            "-inf".to_owned()
        } else {
            "inf".to_owned()
        };
    }
    let mut s: String = String::new();
    if negative {
        s.append("-");
    }
    let ghost sign = s@;
    let mantissa: u128 = if e == 0 {
        m as u128
    } else {
        m as u128 + 0x80_0000
    };
    let up: u32 = if e == 0 {
        1
    } else {
        e
    };
    if up >= 150 {
        let p: u128 = power_of_two(up - 150);
        proof {
            lemma_two_to_values();
            lemma_two_to_rises((up - 150) as nat, 104);
            assert(mantissa * p <= 0xff_ffff * 0x100_0000_0000_0000_0000_0000_0000) by (nonlinear_arith)
                requires
                    mantissa <= 0xff_ffff,
                    p <= 0x100_0000_0000_0000_0000_0000_0000,
            ;
        }
        push_dec_big(&mut s, mantissa * p);
        s.append(".00");
        assert(s@ =~= sign + single_size(bits));
    } else {
        let down: u32 = 150 - up;
        let hundredths: u128 = if down <= 64 {
            let p: u128 = power_of_two(down);
            proof {
                lemma_two_to_rises(down as nat, 64);
            }
            round_half_even(mantissa * 100, p)
        } else {
            proof {
                lemma_two_to_values();
                lemma_two_to_rises(64, down as nat);
                let n = (mantissa * 100) as nat;
                let d = two_to(down as nat);
                assert(n / d == 0 && n % d == n) by (nonlinear_arith)
                    requires
                        0 <= n < d,
                ;
            }
            0
        };
        push_two_places(&mut s, hundredths as u64);
        assert(s@ =~= sign + single_size(bits));
    }
    assert(s@ =~= single_text(bits));
    s
}

/// The columns that hold vectors, each with the number of its components.
pub open spec fn dim_views(dims: Seq<(String, u32)>) -> Seq<(Seq<char>, u32)> {
    dims.map_values(|d: (String, u32)| (d.0@, d.1))
}

/// The number of components of a column, the last of that name counting.
pub open spec fn dim_of(dims: Seq<(Seq<char>, u32)>, column: Seq<char>) -> Option<u32>
    decreases dims.len(),
{
    if dims.len() == 0 {
        None
    } else if dims.last().0 == column {
        Some(dims.last().1)
    } else {
        dim_of(dims.drop_last(), column)
    }
}

fn find_dim(dims: &Vec<(String, u32)>, column: &str) -> (r: Option<u32>)
    ensures
        r == dim_of(dim_views(dims@), column@),
{
    let ghost all = dim_views(dims@);
    let mut n: usize = dims.len();
    assert(all.take(n as int) =~= all);
    while n > 0
        invariant
            n <= dims@.len(),
            all == dim_views(dims@),
            dim_of(all, column@) == dim_of(all.take(n as int), column@),
        decreases n,
    {
        assert(all.take(n as int).last() == (dims@[n - 1].0@, dims@[n - 1].1));
        assert(all.take(n as int).drop_last() =~= all.take(n - 1));
        if str_eq(dims[n - 1].0.as_str(), column) {
            return Some(dims[n - 1].1);
        }
        n = n - 1;
    }
    None
}

/// The four bytes from a place on, the lowest first.
pub open spec fn bits_at(bytes: Seq<u8>, at: int) -> u32 {
    (bytes[at] + 256 * bytes[at + 1] + 65536 * bytes[at + 2] + 16777216 * bytes[at + 3]) as u32
}

/// The first components of a vector.
pub open spec fn first_components(bytes: Seq<u8>, n: nat) -> Seq<Seq<char>> {
    Seq::new(n, |i: int| single_text(bits_at(bytes, 4 * i)))
}

/// A cell of bytes for a reader: the beginning of a vector where the column
/// holds vectors and the bytes are one, and else how many bytes there are.
pub open spec fn blob_text(bytes: Seq<u8>, dim: Option<u32>) -> Seq<char> {
    let other = "[blob bytes="@ + dec(bytes.len()) + "]"@;
    match dim {
        None => other,
        Some(d) => if bytes.len() % 4 != 0 || bytes.len() as u32 / 4 != d {
            other
        } else {
            let take: nat = if d < 3 {
                d as nat
            } else {
                3
            };
            "[vec dim="@ + dec(d as nat) + " · "@ + joined_with(
                first_components(bytes, take),
                ", "@,
            ) + (if d > 3 {
                ", …"@
            } else {
                ""@
            }) + "]"@
        },
    }
}

/// Writes a cell of bytes for a reader.
pub fn format_blob_cell(column: &str, bytes: &Vec<u8>, dims: &Vec<(String, u32)>) -> (r: String)
    ensures
        r@ == blob_text(bytes@, dim_of(dim_views(dims@), column@)),
{
    let n: String = dec_of(bytes.len() as u64);
    let other: String = concat3("[blob bytes=", n.as_str(), "]");
    let dim: u32 = match find_dim(dims, column) {
        Some(d) => d,
        None => {
            return other;
        },
    };
    if bytes.len() % 4 != 0 || bytes.len() as u32 / 4 != dim {
        return other;
    }
    let take: usize = if dim < 3 {
        dim as usize
    } else {
        3
    };
    proof {
        assert(take == 0 || bytes@.len() >= 4 * take) by {
            lemma_truncated(bytes@.len());
        }
    }
    let mut head: Vec<String> = Vec::new();
    let mut i: usize = 0;
    while i < take
        invariant
            i <= take <= 3,
            take == 0 || bytes@.len() >= 4 * take,
            head@.len() == i,
            forall|k: int|
                0 <= k < i ==> (#[trigger] head@[k])@ == single_text(bits_at(bytes@, 4 * k)),
        decreases take - i,
    {
        let at: usize = 4 * i;
        let bits: u32 = bytes[at] as u32 + 256 * (bytes[at + 1] as u32) + 65536 * (bytes[at
            + 2] as u32) + 16777216 * (bytes[at + 3] as u32);
        head.push(write_single(bits));
        i = i + 1;
    }
    assert(views(head@) =~= first_components(bytes@, take as nat));
    let numbers: String = join(&head, ", ");
    let mut s: String = "[vec dim=".to_owned();
    s.append(dec_of(dim as u64).as_str());
    s.append(" · ");
    s.append(numbers.as_str());
    if dim > 3 {
        s.append(", …");
    } else {
        s.append("");
    }
    s.append("]");
    s
}

/// A number below 2 to the 32nd power is what is left of a larger one.
proof fn lemma_truncated(n: nat)
    requires
        n <= usize::MAX,
    ensures
        (n as usize as u32) <= n,
{
    let x = n as usize;
    assert(x as u32 <= x) by (bit_vector);
}

/// A value of the database. A number with a fraction is held as JSON has it,
/// and as nothing where it is not finite.
#[derive(Debug)]
pub enum SqlValue {
    Null,
    Integer(i64),
    Real(Option<String>),
    Text(String),
    Blob(Vec<u8>),
}

/// A value for a reader.
pub open spec fn value_text(v: SqlValue, column: Seq<char>, dims: Seq<(Seq<char>, u32)>) -> Seq<char> {
    match v {
        SqlValue::Null => "NULL"@,
        SqlValue::Integer(n) => dec_int(n as int),
        SqlValue::Real(Some(t)) => t@,
        SqlValue::Real(None) => "NULL"@,
        SqlValue::Text(s) => s@,
        SqlValue::Blob(b) => blob_text(b@, dim_of(dims, column)),
    }
}

fn write_value(v: &SqlValue, column: &str, dims: &Vec<(String, u32)>) -> (r: String)
    ensures
        r@ == value_text(*v, column@, dim_views(dims@)),
{
    match v {
        SqlValue::Null => "NULL".to_owned(),
        SqlValue::Integer(n) => {
            let mut s: String = String::new();
            push_dec_int(&mut s, *n);
            assert(s@ =~= dec_int(*n as int));
            s
        },
        SqlValue::Real(Some(t)) => t.clone(),
        SqlValue::Real(None) => "NULL".to_owned(),
        SqlValue::Text(s) => s.clone(),
        SqlValue::Blob(b) => format_blob_cell(column, b, dims),
    }
}

/// A row for a reader.
pub open spec fn row_text(row: Seq<SqlValue>, columns: Seq<Seq<char>>, dims: Seq<(Seq<char>, u32)>) -> Seq<Seq<char>> {
    Seq::new(row.len(), |i: int| value_text(row[i], columns[i], dims))
}

fn write_row(row: &Vec<SqlValue>, columns: &Vec<String>, dims: &Vec<(String, u32)>) -> (r: Vec<String>)
    requires
        row@.len() == columns@.len(),
    ensures
        views(r@) == row_text(row@, views(columns@), dim_views(dims@)),
{
    let mut r: Vec<String> = Vec::new();
    let mut i: usize = 0;
    while i < row.len()
        invariant
            i <= row@.len(),
            row@.len() == columns@.len(),
            r@.len() == i,
            forall|k: int|
                0 <= k < i ==> (#[trigger] r@[k])@ == value_text(
                    row@[k],
                    columns@[k]@,
                    dim_views(dims@),
                ),
        decreases row@.len() - i,
    {
        r.push(write_value(&row[i], columns[i].as_str(), dims));
        i = i + 1;
    }
    assert(views(r@) =~= row_text(row@, views(columns@), dim_views(dims@)));
    r
}

// ---------------------------------------------------------------------------
// Replies
// ---------------------------------------------------------------------------

/// The label of a column: its text, or its name where there is none.
pub open spec fn label_of(t: &Translator, column: Seq<char>) -> Seq<char> {
    let text = text_of(t.active(), t.english(), "system_users.col."@ + column);
    if has_prefix(text, "!!"@) && has_suffix(text, "!!"@) {
        column
    } else {
        text
    }
}

/// Finds the labels of the columns of a collection of the system. Others show
/// the names that their author chose.
pub fn system_column_labels(coll: &str, columns: &Vec<String>, t: &Translator) -> (r: Option<
    Vec<String>,
>)
    ensures
        if coll@ == "_system_users"@ {
            &&& r matches Some(l)
            &&& l@.len() == columns@.len()
            &&& forall|i: int| 0 <= i < l@.len() ==> (#[trigger] l@[i])@ == label_of(t, columns@[i]@)
        } else {
            r is None
        },
{
    if !str_eq(coll, "_system_users") {
        return None;
    }
    let mut l: Vec<String> = Vec::new();
    let mut i: usize = 0;
    while i < columns.len()
        invariant
            i <= columns@.len(),
            l@.len() == i,
            forall|k: int| 0 <= k < i ==> (#[trigger] l@[k])@ == label_of(t, columns@[k]@),
        decreases columns@.len() - i,
    {
        let key: String = concat2("system_users.col.", columns[i].as_str());
        let text: String = t.s(key.as_str());
        if starts_with(text.as_str(), "!!") && ends_with(text.as_str(), "!!") {
            l.push(columns[i].clone());
        } else {
            l.push(text);
        }
        i = i + 1;
    }
    Some(l)
}

/// A page of rows.
#[derive(Debug)]
pub struct ListResponse {
    pub columns: Vec<String>,
    pub column_labels: Option<Vec<String>>,
    pub rows: Vec<Vec<String>>,
    pub total: i64,
    pub page: u32,
    pub per_page: u32,
    pub total_pages: u32,
}

/// What the database gave for a list.
#[derive(Debug)]
pub struct ListRows {
    pub columns: Vec<String>,
    pub rows: Vec<Vec<SqlValue>>,
    /// The columns that hold vectors.
    pub dims: Vec<(String, u32)>,
}

/// Every row has a value for every column.
pub open spec fn rectangular(d: ListRows) -> bool {
    forall|i: int| 0 <= i < d.rows@.len() ==> (#[trigger] d.rows@[i])@.len() == d.columns@.len()
}

/// The rows of a list, as texts and with the secrets masked.
pub open spec fn listed(coll: Seq<char>, d: ListRows, shown: Seq<Vec<String>>) -> bool {
    let columns = views(d.columns@);
    &&& shown.len() == d.rows@.len()
    &&& forall|i: int|
        0 <= i < shown.len() ==> {
            let texts = row_text(d.rows@[i]@, columns, dim_views(d.dims@));
            &&& (#[trigger] shown[i])@.len() == texts.len()
            &&& forall|j: int|
                0 <= j < texts.len() ==> (#[trigger] shown[i]@[j])@
                    == shown_cell(coll, columns, texts, j)
        }
}

/// A list tells nothing of the secrets in it: where two answers of the database
/// differ in the columns that hold secrets only, the same rows are shown.
pub proof fn law_lists_hide_secrets(
    coll: Seq<char>,
    a: ListRows,
    b: ListRows,
    shown_a: Seq<Vec<String>>,
    shown_b: Seq<Vec<String>>,
)
    requires
        rectangular(a),
        rectangular(b),
        views(a.columns@) == views(b.columns@),
        dim_views(a.dims@) == dim_views(b.dims@),
        a.rows@.len() == b.rows@.len(),
        forall|i: int, j: int|
            0 <= i < a.rows@.len() && 0 <= j < a.columns@.len() && !secret_column(
                coll,
                a.columns@[j]@,
            ) ==> #[trigger] a.rows@[i]@[j] == b.rows@[i]@[j],
        listed(coll, a, shown_a),
        listed(coll, b, shown_b),
    ensures
        shown_a.len() == shown_b.len(),
        forall|i: int| 0 <= i < shown_a.len() ==> views((#[trigger] shown_a[i])@) == views(shown_b[i]@),
{
    let columns = views(a.columns@);
    let dims = dim_views(a.dims@);
    assert(columns.len() == a.columns@.len() && columns.len() == b.columns@.len());
    assert forall|i: int| 0 <= i < shown_a.len() implies views((#[trigger] shown_a[i])@) == views(
        shown_b[i]@,
    ) by {
        let ta = row_text(a.rows@[i]@, columns, dims);
        let tb = row_text(b.rows@[i]@, columns, dims);
        assert(a.rows@[i]@.len() == columns.len());
        assert(b.rows@[i]@.len() == columns.len());
        assert(shown_b[i]@.len() == tb.len());
        assert forall|j: int| 0 <= j < ta.len() implies (#[trigger] shown_a[i]@[j])@ == shown_b[i]@[j]@ by {
            assert(columns[j] == a.columns@[j]@);
            assert(shown_a[i]@[j]@ == shown_cell(coll, columns, ta, j));
            assert(shown_b[i]@[j]@ == shown_cell(coll, columns, tb, j));
            if !secret_column(coll, columns[j]) {
                assert(a.rows@[i]@[j] == b.rows@[i]@[j]);
            }
        }
        assert(views(shown_a[i]@) =~= views(shown_b[i]@));
    }
}

/// Puts the page of a list together.
pub fn admin_list(
    coll: &str,
    queries: &ListQueries,
    fetched: Result<ListRows, String>,
    counted: Result<i64, String>,
    t: &Translator,
) -> (r: Result<ListResponse, Refusal>)
    requires
        queries.per_page >= 1,
        fetched matches Ok(d) ==> rectangular(d),
        counted matches Ok(n) ==> n >= 0,
    ensures
        match (fetched, counted) {
            (Err(e), _) => r is Err && r->Err_0@ == refusal(400, "SQL_ERROR"@, e@),
            (Ok(_), Err(e)) => r is Err && r->Err_0@ == refusal(500, "INTERNAL"@, e@),
            (Ok(d), Ok(n)) => {
                &&& r matches Ok(l)
                &&& l.columns == d.columns
                &&& listed(coll@, d, l.rows@)
                &&& l.total == n
                &&& l.page == queries.page
                &&& l.per_page == queries.per_page
                &&& l.total_pages == page_count(n as int, queries.per_page as int) as u32
                &&& if coll@ == "_system_users"@ {
                    &&& l.column_labels matches Some(labels)
                    &&& labels@.len() == d.columns@.len()
                    &&& forall|i: int|
                        0 <= i < labels@.len() ==> (#[trigger] labels@[i])@ == label_of(
                            t,
                            d.columns@[i]@,
                        )
                } else {
                    l.column_labels is None
                }
            },
        },
{
    let d: ListRows = match fetched {
        Ok(d) => d,
        Err(e) => {
            return Err(refuse_with(400, "SQL_ERROR", e));
        },
    };
    let total: i64 = match counted {
        Ok(n) => n,
        Err(e) => {
            return Err(refuse_with(500, "INTERNAL", e));
        },
    };
    let mut texts: Vec<Vec<String>> = Vec::new();
    let mut i: usize = 0;
    while i < d.rows.len()
        invariant
            i <= d.rows@.len(),
            rectangular(d),
            texts@.len() == i,
            forall|k: int|
                0 <= k < i ==> views((#[trigger] texts@[k])@) == row_text(
                    d.rows@[k]@,
                    views(d.columns@),
                    dim_views(d.dims@),
                ),
        decreases d.rows@.len() - i,
    {
        let row: Vec<String> = write_row(&d.rows[i], &d.columns, &d.dims);
        texts.push(row);
        i = i + 1;
    }
    let ghost all = texts@;
    let column_labels: Option<Vec<String>> = system_column_labels(coll, &d.columns, t);
    let (columns, rows): (Vec<String>, Vec<Vec<String>>) = mask_sensitive_columns(
        coll,
        d.columns,
        texts,
    );
    proof {
        assert forall|k: int| 0 <= k < rows@.len() implies {
            let tx = row_text(d.rows@[k]@, views(d.columns@), dim_views(d.dims@));
            &&& (#[trigger] rows@[k])@.len() == tx.len()
            &&& forall|j: int|
                0 <= j < tx.len() ==> (#[trigger] rows@[k]@[j])@ == shown_cell(
                    coll@,
                    views(d.columns@),
                    tx,
                    j,
                )
        } by {
            assert(views(all[k]@) == row_text(
                d.rows@[k]@,
                views(d.columns@),
                dim_views(d.dims@),
            ));
            assert(views(all[k]@).len() == all[k]@.len());
        }
    }
    let pages: u64 = total_pages(total as u64, queries.per_page);
    Ok(
        ListResponse {
            columns,
            column_labels,
            rows,
            total,
            page: queries.page,
            per_page: queries.per_page,
            total_pages: pages as u32,
        },
    )
}

/// The note about a list.
pub fn list_note(tenant_id: &str, outcome: &Result<ListResponse, Refusal>) -> (r: AuditNote)
    ensures
        r@ == about(
            match outcome {
                Ok(_) => done(
                    "admin.collection.list"@,
                    Seq::<(Seq<char>, FieldView)>::empty(),
                ),
                Err(e) => failed(
                    "admin.collection.list"@,
                    "HTTP_"@ + dec(e.status as nat),
                    e.message@,
                    Seq::<(Seq<char>, FieldView)>::empty(),
                ),
            },
            tenant_id@,
            "-"@,
        ),
{
    let none: Vec<(String, Field)> = Vec::new();
    assert(field_views(none@) =~= Seq::<(Seq<char>, FieldView)>::empty());
    match outcome {
        Ok(_) => note_about(note_done("admin.collection.list", none), tenant_id, "-"),
        Err(e) => {
            let code: String = concat2("HTTP_", dec_of(e.status as u64).as_str());
            note_about(
                note_failed(
                    "admin.collection.list",
                    code.as_str(),
                    e.message.as_str(),
                    none,
                ),
                tenant_id,
                "-",
            )
        },
    }
}

// ---------------------------------------------------------------------------
// What is promised of lists
// ---------------------------------------------------------------------------

/// A text fits a pattern of SQL in which `%` stands for any text and every other
/// character for itself.
pub open spec fn like(t: Seq<char>, p: Seq<char>) -> bool
    decreases p.len() + t.len(),
{
    if p.len() == 0 {
        t.len() == 0
    } else if p[0] == '%' {
        like(t, p.drop_first()) || (t.len() > 0 && like(t.drop_first(), p))
    } else {
        t.len() > 0 && t[0] == p[0] && like(t.drop_first(), p.drop_first())
    }
}

proof fn lemma_like_plain(t: Seq<char>, s: Seq<char>, q: Seq<char>)
    requires
        !s.contains('%'),
    ensures
        like(t, s + q) <==> has_prefix(t, s) && like(t.skip(s.len() as int), q),
    decreases s.len(),
{
    if s.len() == 0 {
        assert(s + q =~= q);
        assert(t.skip(0) =~= t);
        assert(t.subrange(0, 0) =~= s);
    } else {
        let p = s + q;
        assert(s[0] != '%') by {
            if s[0] == '%' {
                assert(s.contains('%'));
            }
        }
        let rest = s.drop_first();
        assert(p.drop_first() =~= rest + q);
        assert(!rest.contains('%')) by {
            if rest.contains('%') {
                let i = choose|i: int| 0 <= i < rest.len() && rest[i] == '%';
                assert(s[i + 1] == '%');
            }
        }
        if t.len() > 0 {
            lemma_like_plain(t.drop_first(), rest, q);
            if t.len() >= s.len() {
                assert(t.drop_first().skip(rest.len() as int) =~= t.skip(s.len() as int));
            }
            if has_prefix(t, s) {
                assert(t.subrange(0, s.len() as int)[0] == t[0]);
                assert(t.drop_first().subrange(0, rest.len() as int) =~= t.subrange(
                    0,
                    s.len() as int,
                ).drop_first());
            }
            if t[0] == s[0] && has_prefix(t.drop_first(), rest) {
                assert(t.subrange(0, s.len() as int) =~= seq![t[0]] + t.drop_first().subrange(
                    0,
                    rest.len() as int,
                ));
                assert(seq![s[0]] + rest =~= s);
            }
        }
    }
}

proof fn lemma_like_all(t: Seq<char>)
    ensures
        like(t, "%"@),
    decreases t.len(),
{
    reveal_strlit("%");
    reveal_with_fuel(like, 2);
    assert("%"@.drop_first() =~= Seq::<char>::empty());
    if t.len() > 0 {
        lemma_like_all(t.drop_first());
    }
}

proof fn lemma_like_any(t: Seq<char>, q: Seq<char>)
    ensures
        like(t, "%"@ + q) <==> exists|k: int| 0 <= k <= t.len() && like(#[trigger] t.skip(k), q),
    decreases t.len(),
{
    reveal_strlit("%");
    let p = "%"@ + q;
    assert(p[0] == '%');
    assert(p.drop_first() =~= q);
    assert(t.skip(0) =~= t);
    if t.len() > 0 {
        let rest = t.drop_first();
        lemma_like_any(rest, q);
        if like(rest, p) {
            let k = choose|k: int| 0 <= k <= rest.len() && like(#[trigger] rest.skip(k), q);
            assert(rest.skip(k) =~= t.skip(k + 1));
        }
        if exists|k: int| 0 <= k <= t.len() && like(#[trigger] t.skip(k), q) {
            let k = choose|k: int| 0 <= k <= t.len() && like(#[trigger] t.skip(k), q);
            if k > 0 {
                assert(rest.skip(k - 1) =~= t.skip(k));
            }
        }
    } else {
        if exists|k: int| 0 <= k <= t.len() && like(#[trigger] t.skip(k), q) {
            let k = choose|k: int| 0 <= k <= t.len() && like(#[trigger] t.skip(k), q);
            assert(k == 0);
        }
    }
}

/// A condition that a field fits a pattern.
pub open spec fn pattern_on(n: Result<FilterView, Seq<char>>, field: Seq<char>) -> Option<Seq<char>> {
    match n {
        Ok(FilterView::Leaf { field: f, op, value: JsonView::Text(p) }) => if f == field && op
            == "like"@ {
            Some(p)
        } else {
            None
        },
        _ => None,
    }
}

proof fn lemma_filter_names()
    ensures
        !direct_op("contains"@) && !direct_op("starts_with"@) && !direct_op("ends_with"@),
        !direct_op("between"@) && !direct_op("is_true"@) && !direct_op("is_false"@),
        "contains"@ != "starts_with"@ && "contains"@ != "ends_with"@ && "starts_with"@
            != "ends_with"@,
        "between"@ != "contains"@ && "between"@ != "starts_with"@ && "between"@ != "ends_with"@,
        "is_true"@ != "contains"@ && "is_true"@ != "starts_with"@ && "is_true"@ != "ends_with"@
            && "is_true"@ != "between"@,
        "is_false"@ != "contains"@ && "is_false"@ != "starts_with"@ && "is_false"@ != "ends_with"@
            && "is_false"@ != "between"@ && "is_false"@ != "is_true"@,
{
    reveal_strlit("eq");
    reveal_strlit("ne");
    reveal_strlit("gt");
    reveal_strlit("gte");
    reveal_strlit("lt");
    reveal_strlit("lte");
    reveal_strlit("in");
    reveal_strlit("nin");
    reveal_strlit("like");
    reveal_strlit("is_null");
    reveal_strlit("is_not_null");
    reveal_strlit("contains");
    reveal_strlit("starts_with");
    reveal_strlit("ends_with");
    reveal_strlit("between");
    reveal_strlit("is_true");
    reveal_strlit("is_false");
    assert("eq"@.len() == 2);
    assert("ne"@.len() == 2);
    assert("gt"@.len() == 2);
    assert("gte"@.len() == 3);
    assert("lt"@.len() == 2);
    assert("lte"@.len() == 3);
    assert("in"@.len() == 2);
    assert("nin"@.len() == 3);
    assert("like"@.len() == 4);
    assert("is_null"@.len() == 7);
    assert("is_not_null"@.len() == 11);
    assert("contains"@.len() == 8);
    assert("starts_with"@.len() == 11);
    assert("ends_with"@.len() == 9);
    assert("between"@.len() == 7);
    assert("is_true"@.len() == 7);
    assert("is_false"@.len() == 8);
    assert("is_null"@[3] == 'n' && "is_true"@[3] == 't' && "between"@[0] == 'b');
    assert("is_null"@[0] == 'i');
    assert("is_not_null"@[0] == 'i' && "starts_with"@[0] == 's');
    assert("contains"@[0] == 'c' && "is_false"@[0] == 'i');
}

/// The filters on texts let through exactly the rows whose field holds the text, begins
/// with it or ends with it, for a text without `%`.
pub proof fn law_text_filters_mean_what_they_say(field: Seq<char>, s: Seq<char>, t: Seq<char>)
    requires
        !s.contains('%'),
    ensures
        pattern_on(node_of(field, "contains"@, JsonView::Text(s)), field) matches Some(p) && (like(
            t,
            p,
        ) <==> exists|k: int| 0 <= k <= t.len() && has_prefix(#[trigger] t.skip(k), s)),
        pattern_on(node_of(field, "starts_with"@, JsonView::Text(s)), field) matches Some(p) && (
        like(t, p) <==> has_prefix(t, s)),
        pattern_on(node_of(field, "ends_with"@, JsonView::Text(s)), field) matches Some(p) && (like(
            t,
            p,
        ) <==> exists|k: int| 0 <= k <= t.len() && #[trigger] t.skip(k) == s),
{
    lemma_filter_names();
    let any = "%"@;
    lemma_like_plain(t, s, any);
    lemma_like_all(t.skip(s.len() as int));
    lemma_like_any(t, s);
    lemma_like_any(t, s + any);
    assert(any + s + any =~= any + (s + any));
    assert forall|k: int| 0 <= k <= t.len() implies (like(#[trigger] t.skip(k), s + any)
        <==> has_prefix(t.skip(k), s)) by {
        lemma_like_plain(t.skip(k), s, any);
        lemma_like_all(t.skip(k).skip(s.len() as int));
    }
    assert forall|k: int| 0 <= k <= t.len() implies (like(#[trigger] t.skip(k), s) <==> t.skip(k)
        == s) by {
        let u = t.skip(k);
        let none = Seq::<char>::empty();
        lemma_like_plain(u, s, none);
        assert(s + none =~= s);
        if u == s {
            assert(u.subrange(0, s.len() as int) =~= s);
            assert(u.skip(s.len() as int) =~= none);
        }
        if like(u, s) {
            assert(u.skip(s.len() as int).len() == 0);
            assert(u.subrange(0, s.len() as int) =~= u);
        }
    }
    if exists|k: int| 0 <= k <= t.len() && like(#[trigger] t.skip(k), s + any) {
        let k = choose|k: int| 0 <= k <= t.len() && like(#[trigger] t.skip(k), s + any);
        assert(has_prefix(t.skip(k), s));
    }
    if exists|k: int| 0 <= k <= t.len() && has_prefix(#[trigger] t.skip(k), s) {
        let k = choose|k: int| 0 <= k <= t.len() && has_prefix(#[trigger] t.skip(k), s);
        assert(like(t.skip(k), s + any));
    }
    if exists|k: int| 0 <= k <= t.len() && like(#[trigger] t.skip(k), s) {
        let k = choose|k: int| 0 <= k <= t.len() && like(#[trigger] t.skip(k), s);
        assert(t.skip(k) == s);
    }
    if exists|k: int| 0 <= k <= t.len() && #[trigger] t.skip(k) == s {
        let k = choose|k: int| 0 <= k <= t.len() && #[trigger] t.skip(k) == s;
        assert(like(t.skip(k), s));
    }
}

/// A filter between two values lets through what is neither below the first nor above
/// the second, and the filters on truth compare with one and zero.
pub proof fn law_range_and_truth_filters(field: Seq<char>, lo: JsonView, hi: JsonView, other: JsonView)
    ensures
        node_of(field, "between"@, JsonView::List(seq![lo, hi])) == Ok::<FilterView, Seq<char>>(
            FilterView::And(
                seq![
                    (FilterView::Leaf { field, op: "gte"@, value: lo }),
                    (FilterView::Leaf { field, op: "lte"@, value: hi }),
                ],
            ),
        ),
        node_of(field, "is_true"@, other) == Ok::<FilterView, Seq<char>>(
            FilterView::Leaf { field, op: "eq"@, value: JsonView::Number("1"@) },
        ),
        node_of(field, "is_false"@, other) == Ok::<FilterView, Seq<char>>(
            FilterView::Leaf { field, op: "eq"@, value: JsonView::Number("0"@) },
        ),
{
    lemma_filter_names();
}

/// The relations that the database knows under the same name.
pub open spec fn known_relations() -> Seq<Seq<char>> {
    seq![
        "eq"@,
        "ne"@,
        "gt"@,
        "gte"@,
        "lt"@,
        "lte"@,
        "in"@,
        "nin"@,
        "like"@,
        "is_null"@,
        "is_not_null"@,
    ]
}

/// A relation that the database knows is asked for as it is, with its own value.
pub proof fn law_known_relations_pass(field: Seq<char>, value: JsonView, i: int)
    requires
        0 <= i < known_relations().len(),
    ensures
        node_of(field, known_relations()[i], value) == Ok::<FilterView, Seq<char>>(
            FilterView::Leaf { field, op: known_relations()[i], value },
        ),
{
}

/// All filters of a request are asked for, each in its place; and one that means nothing
/// refuses the request in its own words.
pub proof fn law_every_filter_counts(triples: Seq<FilterTriple>, k: nat)
    requires
        k <= triples.len(),
    ensures
        nodes_of(triples, k) matches Ok(nodes) ==> nodes.len() == k && forall|i: int|
            0 <= i < k ==> #[trigger] node_of(
                triples[i].field@,
                triples[i].op@,
                triples[i].value.model(),
            ) == Ok::<FilterView, Seq<char>>(nodes[i]),
        nodes_of(triples, k) matches Err(e) ==> exists|i: int|
            0 <= i < k && #[trigger] node_of(
                triples[i].field@,
                triples[i].op@,
                triples[i].value.model(),
            ) == Err::<FilterView, Seq<char>>(e),
    decreases k,
{
    if k > 0 {
        law_every_filter_counts(triples, (k - 1) as nat);
        let last = node_of(
            triples[k - 1].field@,
            triples[k - 1].op@,
            triples[k - 1].value.model(),
        );
        match nodes_of(triples, (k - 1) as nat) {
            Ok(before) => {
                match last {
                    Ok(f) => {
                        let nodes = before.push(f);
                        assert forall|i: int| 0 <= i < k implies #[trigger] node_of(
                            triples[i].field@,
                            triples[i].op@,
                            triples[i].value.model(),
                        ) == Ok::<FilterView, Seq<char>>(nodes[i]) by {
                            if i < k - 1 {
                                assert(nodes[i] == before[i]);
                            }
                        }
                    },
                    Err(e) => {},
                }
            },
            Err(e) => {
                let i = choose|i: int|
                    0 <= i < k - 1 && #[trigger] node_of(
                        triples[i].field@,
                        triples[i].op@,
                        triples[i].value.model(),
                    ) == Err::<FilterView, Seq<char>>(e);
                assert(node_of(triples[i].field@, triples[i].op@, triples[i].value.model()) == Err::<
                    FilterView,
                    Seq<char>,
                >(e));
            },
        }
    }
}

/// The rows that are counted are those that are listed: both queries read the same
/// collection under the same condition. The rows come in the order that was asked for,
/// and a page begins where the one before it ends.
pub proof fn law_lists_count_what_they_show(
    coll: Seq<char>,
    where_sql: Seq<char>,
    req: ListRequest,
    next: ListRequest,
)
    requires
        next.page == req.page + 1,
        next.per_page == req.per_page,
        req.page >= 1,
    ensures
        exists|from: Seq<char>|
            {
                &&& #[trigger] (sql_name(coll) + " WHERE "@ + where_sql) == from
                &&& count_sql(coll, where_sql) == "SELECT COUNT(*) FROM "@ + from
                &&& has_prefix(list_sql(coll, where_sql, req), "SELECT * FROM "@ + from)
            },
        req.sort matches Some(s) ==> (s.dir == SortDir::Desc ==> has_suffix(
            list_sql(coll, where_sql, req),
            " ORDER BY "@ + sql_name(s.field@) + " "@ + "DESC"@ + " LIMIT "@ + dec(
                shown_per_page(req) as nat,
            ) + " OFFSET "@ + dec(((req.page - 1) * shown_per_page(req)) as nat),
        )),
        req.sort matches Some(s) ==> (s.dir == SortDir::Asc ==> has_suffix(
            list_sql(coll, where_sql, req),
            " ORDER BY "@ + sql_name(s.field@) + " "@ + "ASC"@ + " LIMIT "@ + dec(
                shown_per_page(req) as nat,
            ) + " OFFSET "@ + dec(((req.page - 1) * shown_per_page(req)) as nat),
        )),
        req.sort is None ==> has_suffix(
            list_sql(coll, where_sql, req),
            " ORDER BY "@ + sql_name("id"@) + " "@ + "DESC"@ + " LIMIT "@ + dec(
                shown_per_page(req) as nat,
            ) + " OFFSET "@ + dec(((req.page - 1) * shown_per_page(req)) as nat),
        ),
        1 <= shown_per_page(req) <= 500,
        1 <= req.per_page <= 500 ==> shown_per_page(req) == req.per_page,
        (next.page - 1) * shown_per_page(next) == (req.page - 1) * shown_per_page(req)
            + shown_per_page(req),
{
    let from = sql_name(coll) + " WHERE "@ + where_sql;
    let per = shown_per_page(req);
    let order = order_of_list(req.sort);
    let off = dec(((shown_page(req) - 1) * per) as nat);
    let tail = " ORDER BY "@ + sql_name(order.0) + " "@ + order.1 + " LIMIT "@ + dec(per as nat)
        + " OFFSET "@ + off;
    let head = "SELECT * FROM "@ + from;
    let whole = list_sql(coll, where_sql, req);
    assert(whole =~= head + tail);
    assert(whole.subrange(0, head.len() as int) =~= head);
    assert(whole.skip(whole.len() - tail.len()) =~= tail);
    assert(whole.subrange(whole.len() - tail.len(), whole.len() as int) =~= tail);
    assert(count_sql(coll, where_sql) =~= "SELECT COUNT(*) FROM "@ + from);
    assert(next.page * per == (req.page + 1) * per);
    assert(req.page * per == (req.page - 1) * per + per) by (nonlinear_arith);
    assert(shown_per_page(next) == per);
    assert(next.page - 1 == req.page);
}

/// A cell shows a number in full, a text as it is, and what is not there as `NULL`.
pub proof fn law_cells_are_shown_as_they_are(
    v: SqlValue,
    column: Seq<char>,
    dims: Seq<(Seq<char>, u32)>,
)
    ensures
        v is Null ==> value_text(v, column, dims) == "NULL"@,
        v matches SqlValue::Text(s) ==> value_text(v, column, dims) == s@,
        v matches SqlValue::Integer(n) ==> (n >= 0 ==> value_text(v, column, dims) == dec(n as nat)),
        v matches SqlValue::Real(t) ==> (t is Some ==> value_text(v, column, dims) == (t->0)@),
        v matches SqlValue::Blob(b) ==> (dim_of(dims, column) is None ==> value_text(
            v,
            column,
            dims,
        ) == "[blob bytes="@ + dec(b@.len()) + "]"@),
{
}

/// A number and the same number below zero differ in the sign that is written.
pub proof fn law_sign_is_written(bits: u32)
    requires
        bits < 0x7f80_0000,
    ensures
        single_text((bits + 0x8000_0000) as u32) == "-"@ + single_text(bits),
{
    let n = (bits + 0x8000_0000) as u32;
    assert(n as nat % 0x80_0000 == bits as nat % 0x80_0000);
    assert(n as nat / 0x80_0000 % 256 == bits as nat / 0x80_0000 % 256);
    assert(bits as nat / 0x80_0000 % 256 != 255);
}

/// The bytes of a component stand with the lowest first.
pub proof fn law_lowest_byte_comes_first(bytes: Seq<u8>, at: int)
    requires
        0 <= at,
        at + 4 <= bytes.len(),
    ensures
        bits_at(bytes, at) % 256 == bytes[at],
        bits_at(bytes, at) / 256 % 256 == bytes[at + 1],
        bits_at(bytes, at) / 65536 % 256 == bytes[at + 2],
        bits_at(bytes, at) / 16777216 == bytes[at + 3],
{
    let a = bytes[at] as int;
    let b = bytes[at + 1] as int;
    let c = bytes[at + 2] as int;
    let d = bytes[at + 3] as int;
    lemma_four_digits(a, b, c, d);
    assert(bits_at(bytes, at) == a + 256 * b + 65536 * c + 16777216 * d);
}

#[verifier::spinoff_prover]
proof fn lemma_four_digits(a: int, b: int, c: int, d: int)
    requires
        0 <= a < 256,
        0 <= b < 256,
        0 <= c < 256,
        0 <= d < 256,
    ensures
        (a + 256 * b + 65536 * c + 16777216 * d) % 256 == a,
        (a + 256 * b + 65536 * c + 16777216 * d) / 256 % 256 == b,
        (a + 256 * b + 65536 * c + 16777216 * d) / 65536 % 256 == c,
        (a + 256 * b + 65536 * c + 16777216 * d) / 16777216 == d,
{
    let n = a + 256 * b + 65536 * c + 16777216 * d;
    let n1 = b + 256 * c + 65536 * d;
    let n2 = c + 256 * d;
    lemma_fundamental_div_mod_converse(n, 256, n1, a);
    lemma_fundamental_div_mod_converse(n1, 256, n2, b);
    lemma_fundamental_div_mod_converse(n, 65536, n2, a + 256 * b);
    lemma_fundamental_div_mod_converse(n2, 256, d, c);
    lemma_fundamental_div_mod_converse(n, 16777216, d, a + 256 * b + 65536 * c);
}

/// A number smaller than a whole is written as the nearest hundredth: its size is its
/// fraction times a power of two.
pub proof fn law_numbers_are_written_to_the_hundredth(bits: u32)
    requires
        0x80_0000 <= bits,
        bits / 0x80_0000 < 150,
    ensures
        exists|h: nat|
            {
                let m = bits as nat % 0x80_0000 + 0x80_0000;
                let d = two_to((150 - bits as int / 0x80_0000) as nat);
                &&& single_text(bits) == #[trigger] two_places(h)
                &&& 2 * (h * d - m * 100) <= d
                &&& 2 * (m * 100 - h * d) <= d
            },
{
    let m = bits as nat % 0x80_0000 + 0x80_0000;
    let d = two_to((150 - bits as int / 0x80_0000) as nat);
    lemma_two_to_rises(0, (150 - bits as int / 0x80_0000) as nat);
    law_rounding_is_nearest(m * 100, d);
    assert(bits as nat / 0x80_0000 % 256 == bits as nat / 0x80_0000);
    assert(single_text(bits) == two_places(half_even(m * 100, d)));
}

/// A vector is shown with its number of components and the first of them; bytes that are
/// no vector are shown as so many bytes.
pub proof fn law_vectors_are_told_from_bytes(bytes: Seq<u8>, d: u32)
    requires
        bytes.len() == 4 * d,
        bytes.len() < 0x1_0000_0000,
    ensures
        has_prefix(blob_text(bytes, Some(d)), "[vec dim="@ + dec(d as nat)),
        blob_text(bytes, None) == "[blob bytes="@ + dec(bytes.len()) + "]"@,
        d > 0 ==> blob_text(bytes, Some((d - 1) as u32)) == blob_text(
            bytes,
            None,
        ),
        forall|i: int|
            0 <= i < d && i < 3 ==> #[trigger] first_components(bytes, 3)[i] == single_text(
                bits_at(bytes, 4 * i),
            ),
{
    assert(bytes.len() as u32 / 4 == d);
    let b = blob_text(bytes, Some(d));
    let head = "[vec dim="@ + dec(d as nat);
    assert(b.subrange(0, head.len() as int) =~= head);
}

/// A column is labelled by its text; one that has none, by its name.
pub proof fn law_columns_without_a_text_keep_their_name(t: &Translator, column: Seq<char>)
    ensures
        text_of(t.active(), t.english(), "system_users.col."@ + column) == "!!"@ + (
        "system_users.col."@ + column) + "!!"@ ==> label_of(t, column) == column,
        !has_prefix(text_of(t.active(), t.english(), "system_users.col."@ + column), "!!"@)
            ==> label_of(t, column) == text_of(
            t.active(),
            t.english(),
            "system_users.col."@ + column,
        ),
{
    let k = "system_users.col."@ + column;
    let s = "!!"@ + k + "!!"@;
    assert(s.subrange(0, "!!"@.len() as int) =~= "!!"@);
    assert(s.subrange(s.len() - "!!"@.len(), s.len() as int) =~= "!!"@);
}

} // verus!
