//! Sorting by text.
//!
//! What is sorted is the list of positions, so that rows of any kind can be
//! put in order by a text that belongs to each of them. Rows with equal texts
//! keep the order in which they came.

use vstd::prelude::*;
use vstd::relations::{sorted_by, total_ordering};
use crate::text::{is_le, lemma_text_antisym, lemma_text_total, lemma_text_trans, text_le, views};

verus! {

/// `a` may stand before `b`.
pub open spec fn may_precede(a: Seq<char>, b: Seq<char>, descending: bool) -> bool {
    if descending {
        text_le(b, a)
    } else {
        text_le(a, b)
    }
}

/// The order of the positions: that of their texts, and among equal texts
/// their own.
pub open spec fn before(keys: Seq<Seq<char>>, descending: bool) -> spec_fn(int, int) -> bool {
    |i: int, j: int|
        if keys[i] == keys[j] {
            i <= j
        } else {
            may_precede(keys[i], keys[j], descending)
        }
}

/// The positions from `from` up to `to`.
pub open spec fn range(from: int, to: int) -> Seq<int> {
    Seq::new((to - from) as nat, |i: int| from + i)
}

/// All positions in the order of their texts.
pub open spec fn sorted_order(keys: Seq<Seq<char>>, descending: bool) -> Seq<int> {
    range(0, keys.len() as int).sort_by(before(keys, descending))
}

proof fn lemma_before_is_total(keys: Seq<Seq<char>>, descending: bool)
    ensures
        total_ordering(before(keys, descending)),
{
    let leq = before(keys, descending);
    assert forall|i: int, j: int| #[trigger] leq(i, j) && #[trigger] leq(j, i) implies i == j by {
        if keys[i] != keys[j] {
            lemma_text_antisym(keys[i], keys[j]);
        }
    }
    assert forall|i: int, j: int, k: int| #[trigger] leq(i, j) && #[trigger] leq(j, k) implies leq(
        i,
        k,
    ) by {
        if keys[i] != keys[j] && keys[j] != keys[k] {
            if descending {
                lemma_text_trans(keys[k], keys[j], keys[i]);
            } else {
                lemma_text_trans(keys[i], keys[j], keys[k]);
            }
            if keys[i] == keys[k] {
                lemma_text_antisym(keys[i], keys[j]);
            }
        }
    }
    assert forall|i: int, j: int| #[trigger] leq(i, j) || #[trigger] leq(j, i) by {
        lemma_text_total(keys[i], keys[j]);
    }
}

/// Sorting puts the texts in order, keeps every position, each once, and
/// keeps the order of the positions whose texts are equal.
pub proof fn law_sorted_order(keys: Seq<Seq<char>>, descending: bool)
    ensures
        sorted_order(keys, descending).len() == keys.len(),
        forall|v: int| #[trigger]
            sorted_order(keys, descending).contains(v) <==> 0 <= v < keys.len(),
        forall|i: int, j: int|
            0 <= i < j < keys.len() ==> {
                let a = #[trigger] sorted_order(keys, descending)[i];
                let b = #[trigger] sorted_order(keys, descending)[j];
                &&& may_precede(keys[a], keys[b], descending)
                &&& keys[a] == keys[b] ==> a < b
            },
{
    let leq = before(keys, descending);
    let all = range(0, keys.len() as int);
    let list = sorted_order(keys, descending);
    lemma_before_is_total(keys, descending);
    all.lemma_sort_by_ensures(leq);
    all.to_multiset_ensures();
    list.to_multiset_ensures();
    assert(list.len() == keys.len());
    assert forall|v: int| #[trigger] list.contains(v) <==> 0 <= v < keys.len() by {
        assert(list.contains(v) <==> list.to_multiset().count(v) > 0);
        assert(all.contains(v) <==> all.to_multiset().count(v) > 0);
        if 0 <= v < keys.len() {
            assert(all[v] == v);
        }
    }
    assert(all.no_duplicates());
    all.lemma_multiset_has_no_duplicates();
    list.lemma_multiset_has_no_duplicates_conv();
    assert forall|i: int, j: int| 0 <= i < j < keys.len() implies {
        let a = #[trigger] list[i];
        let b = #[trigger] list[j];
        &&& may_precede(keys[a], keys[b], descending)
        &&& keys[a] == keys[b] ==> a < b
    } by {
        assert(leq(list[i], list[j]));
        lemma_text_total(keys[list[i]], keys[list[i]]);
    }
}

/// Sequences of the same positions give the same items.
proof fn lemma_same_items<T>(p: Seq<int>, q: Seq<int>, f: spec_fn(int) -> T)
    requires
        p.to_multiset() == q.to_multiset(),
    ensures
        p.map_values(f).to_multiset() == q.map_values(f).to_multiset(),
    decreases p.len(),
{
    broadcast use vstd::seq_lib::group_to_multiset_ensures;

    p.to_multiset_ensures();
    q.to_multiset_ensures();
    if p.len() == 0 {
        assert(p.map_values(f) =~= q.map_values(f));
    } else {
        let n = p.len() - 1;
        assert(p.contains(p[n]));
        assert(q.to_multiset().count(p[n]) > 0);
        let k = choose|k: int| 0 <= k < q.len() && q[k] == p[n];
        lemma_same_items(p.remove(n), q.remove(k), f);
        let (a, b) = (p.map_values(f), q.map_values(f));
        assert(a.remove(n) =~= p.remove(n).map_values(f));
        assert(b.remove(k) =~= q.remove(k).map_values(f));
        assert(a.contains(a[n]) && b.contains(b[k]));
        assert(a.to_multiset() =~= a.to_multiset().remove(a[n]).insert(a[n]));
        assert(b.to_multiset() =~= b.to_multiset().remove(b[k]).insert(b[k]));
    }
}

/// Rows put in the order of their texts are the same rows.
pub proof fn law_sorting_keeps_rows<T>(rows: Seq<T>, keys: Seq<Seq<char>>, descending: bool)
    requires
        rows.len() == keys.len(),
    ensures
        sorted_order(keys, descending).map_values(|i: int| rows[i]).to_multiset()
            == rows.to_multiset(),
{
    let all = range(0, keys.len() as int);
    let f = |i: int| rows[i];
    lemma_before_is_total(keys, descending);
    all.lemma_sort_by_ensures(before(keys, descending));
    lemma_same_items(sorted_order(keys, descending), all, f);
    assert(all.map_values(f) =~= rows);
}

/// The positions, as mathematics has them.
pub open spec fn positions(v: Seq<usize>) -> Seq<int> {
    v.map_values(|i: usize| i as int)
}

fn precedes(a: &str, b: &str, descending: bool) -> (r: bool)
    ensures
        r == may_precede(a@, b@, descending),
{
    if descending {
        is_le(b, a)
    } else {
        is_le(a, b)
    }
}

/// All of the positions lie in a range.
spec fn within(v: Seq<usize>, from: int, to: int) -> bool {
    forall|i: int| 0 <= i < v.len() ==> from <= (#[trigger] v[i]) < to
}

/// Merges two lists of positions, those of the first being the smaller.
fn merge(keys: &Vec<String>, a: &Vec<usize>, b: &Vec<usize>, from: usize, mid: usize, to: usize, descending: bool) -> (r:
    Vec<usize>)
    requires
        from <= mid <= to <= keys@.len(),
        within(a@, from as int, mid as int),
        within(b@, mid as int, to as int),
        sorted_by(positions(a@), before(views(keys@), descending)),
        sorted_by(positions(b@), before(views(keys@), descending)),
    ensures
        within(r@, from as int, to as int),
        sorted_by(positions(r@), before(views(keys@), descending)),
        positions(r@).to_multiset() == positions(a@).to_multiset().add(
            positions(b@).to_multiset(),
        ),
{
    let ghost k = views(keys@);
    let ghost leq = before(k, descending);
    let ghost pa = positions(a@);
    let ghost pb = positions(b@);
    let mut r: Vec<usize> = Vec::new();
    let mut i: usize = 0;
    let mut j: usize = 0;
    proof {
        lemma_before_is_total(k, descending);
        assert(positions(r@) =~= Seq::<int>::empty());
        assert(pa.take(0) =~= Seq::<int>::empty());
        assert(pb.take(0) =~= Seq::<int>::empty());
        Seq::<int>::empty().to_multiset_ensures();
        assert(positions(r@).to_multiset() =~= pa.take(0).to_multiset().add(
            pb.take(0).to_multiset(),
        ));
    }
    while i < a.len() || j < b.len()
        invariant
            i <= a@.len(),
            j <= b@.len(),
            from <= mid <= to <= keys@.len(),
            within(a@, from as int, mid as int),
            within(b@, mid as int, to as int),
            within(r@, from as int, to as int),
            k == views(keys@),
            leq == before(k, descending),
            total_ordering(leq),
            pa == positions(a@),
            pb == positions(b@),
            sorted_by(pa, leq),
            sorted_by(pb, leq),
            sorted_by(positions(r@), leq),
            forall|x: int, y: int|
                0 <= x < r@.len() && i <= y < a@.len() ==> leq(
                    #[trigger] positions(r@)[x],
                    #[trigger] pa[y],
                ),
            forall|x: int, y: int|
                0 <= x < r@.len() && j <= y < b@.len() ==> leq(
                    #[trigger] positions(r@)[x],
                    #[trigger] pb[y],
                ),
            positions(r@).to_multiset() == pa.take(i as int).to_multiset().add(
                pb.take(j as int).to_multiset(),
            ),
        decreases a@.len() - i + b@.len() - j,
    {
        let left: bool = if i >= a.len() {
            false
        } else if j >= b.len() {
            true
        } else {
            precedes(keys[a[i]].as_str(), keys[b[j]].as_str(), descending)
        };
        let ghost old_r = positions(r@);
        proof {
            if i < a@.len() && j < b@.len() {
                lemma_text_total(k[pa[i as int]], k[pb[j as int]]);
                assert(left ==> leq(pa[i as int], pb[j as int]));
                assert(!left ==> leq(pb[j as int], pa[i as int]));
            }
            old_r.to_multiset_ensures();
        }
        if left {
            let ghost e = pa[i as int];
            r.push(a[i]);
            proof {
                pa.take(i as int).to_multiset_ensures();
                assert(positions(r@) =~= old_r.push(e));
                assert(pa.take(i + 1) =~= pa.take(i as int).push(e));
                assert(positions(r@).to_multiset() =~= pa.take(i + 1).to_multiset().add(
                    pb.take(j as int).to_multiset(),
                ));
                assert forall|y: int| j <= y < b@.len() implies leq(e, #[trigger] pb[y]) by {
                    if y > j {
                        assert(leq(pb[j as int], pb[y]));
                    }
                }
            }
            i = i + 1;
        } else {
            let ghost e = pb[j as int];
            r.push(b[j]);
            proof {
                pb.take(j as int).to_multiset_ensures();
                assert(positions(r@) =~= old_r.push(e));
                assert(pb.take(j + 1) =~= pb.take(j as int).push(e));
                assert(positions(r@).to_multiset() =~= pa.take(i as int).to_multiset().add(
                    pb.take(j + 1).to_multiset(),
                ));
                assert forall|y: int| i <= y < a@.len() implies leq(e, #[trigger] pa[y]) by {
                    if y > i {
                        assert(leq(pa[i as int], pa[y]));
                    }
                }
            }
            j = j + 1;
        }
    }
    assert(pa.take(i as int) =~= pa);
    assert(pb.take(j as int) =~= pb);
    r
}

/// Sorts the positions from `from` up to `to`.
fn sort_range(keys: &Vec<String>, from: usize, to: usize, descending: bool) -> (r: Vec<usize>)
    requires
        from <= to <= keys@.len(),
    ensures
        within(r@, from as int, to as int),
        sorted_by(positions(r@), before(views(keys@), descending)),
        positions(r@).to_multiset() == range(from as int, to as int).to_multiset(),
    decreases to - from,
{
    if to - from <= 1 {
        let mut r: Vec<usize> = Vec::new();
        if from < to {
            r.push(from);
        }
        assert(positions(r@) =~= range(from as int, to as int));
        return r;
    }
    let mid: usize = from + (to - from) / 2;
    let a: Vec<usize> = sort_range(keys, from, mid, descending);
    let b: Vec<usize> = sort_range(keys, mid, to, descending);
    proof {
        let (f, m, t) = (from as int, mid as int, to as int);
        assert(range(f, t) =~= range(f, m) + range(m, t));
        vstd::seq_lib::lemma_multiset_commutative(range(f, m), range(m, t));
    }
    merge(keys, &a, &b, from, mid, to, descending)
}

/// Sorts the positions of some texts.
pub fn sort_positions(keys: &Vec<String>, descending: bool) -> (r: Vec<usize>)
    ensures
        positions(r@) == sorted_order(views(keys@), descending),
        r@.len() == keys@.len(),
        forall|i: int| 0 <= i < r@.len() ==> (#[trigger] r@[i]) < keys@.len(),
{
    let r: Vec<usize> = sort_range(keys, 0, keys.len(), descending);
    proof {
        let k = views(keys@);
        let leq = before(k, descending);
        let all = range(0, k.len() as int);
        lemma_before_is_total(k, descending);
        all.lemma_sort_by_ensures(leq);
        vstd::seq_lib::lemma_sorted_unique(positions(r@), all.sort_by(leq), leq);
        all.to_multiset_ensures();
        positions(r@).to_multiset_ensures();
    }
    r
}

/// The texts in order.
pub open spec fn arranged(keys: Seq<Seq<char>>, descending: bool) -> Seq<Seq<char>> {
    sorted_order(keys, descending).map_values(|i: int| keys[i])
}

/// Sorts texts.
pub fn sort_texts(keys: &Vec<String>, descending: bool) -> (r: Vec<String>)
    ensures
        views(r@) == arranged(views(keys@), descending),
{
    let order: Vec<usize> = sort_positions(keys, descending);
    let ghost k = views(keys@);
    let mut r: Vec<String> = Vec::new();
    let mut i: usize = 0;
    while i < order.len()
        invariant
            i <= order@.len(),
            k == views(keys@),
            positions(order@) == sorted_order(k, descending),
            forall|j: int| 0 <= j < order@.len() ==> (#[trigger] order@[j]) < keys@.len(),
            r@.len() == i,
            forall|j: int| 0 <= j < i ==> (#[trigger] r@[j])@ == k[order@[j] as int],
        decreases order@.len() - i,
    {
        r.push(keys[order[i]].clone());
        i = i + 1;
    }
    assert(views(r@) =~= arranged(k, descending)) by {
        assert forall|j: int| 0 <= j < r@.len() implies views(r@)[j] == arranged(k, descending)[j] by {
            assert(positions(order@)[j] == order@[j] as int);
            assert(r@[j]@ == k[order@[j] as int]);
        }
    }
    r
}

// ---------------------------------------------------------------------------
// Numbers
// ---------------------------------------------------------------------------

/// Numbers in ascending order.
pub open spec fn ascending(s: Seq<u64>) -> Seq<u64> {
    s.sort_by(|a: u64, b: u64| a <= b)
}

/// `slice::sort_unstable` puts numbers in ascending order and keeps each as
/// often as it was there.
#[verifier::external_body]
fn sort_in_place(v: &mut Vec<u64>)
    ensures
        final(v)@.to_multiset() == old(v)@.to_multiset(),
        forall|i: int, j: int| 0 <= i <= j < final(v)@.len() ==> final(v)@[i] <= final(v)@[j],
{
    v.sort_unstable()
}

/// Sorts numbers.
pub fn sort_numbers(v: Vec<u64>) -> (r: Vec<u64>)
    ensures
        r@ == ascending(v@),
        r@.len() == v@.len(),
{
    let ghost before = v@;
    let mut r: Vec<u64> = v;
    sort_in_place(&mut r);
    proof {
        let leq = |a: u64, b: u64| a <= b;
        assert(vstd::relations::total_ordering(leq));
        before.lemma_sort_by_ensures(leq);
        assert(vstd::relations::sorted_by(r@, leq));
        vstd::seq_lib::lemma_sorted_unique(r@, before.sort_by(leq), leq);
        before.to_multiset_ensures();
        r@.to_multiset_ensures();
    }
    r
}

/// Sorted numbers are those that were given, and none stands before a smaller one.
pub proof fn law_numbers_are_sorted(s: Seq<u64>, i: int, j: int)
    ensures
        ascending(s).to_multiset() == s.to_multiset(),
        0 <= i <= j < ascending(s).len() ==> ascending(s)[i] <= ascending(s)[j],
{
    let leq = |a: u64, b: u64| a <= b;
    assert(total_ordering(leq));
    s.lemma_sort_by_ensures(leq);
    assert(ascending(s) == s.sort_by(leq));
    if 0 <= i < j < ascending(s).len() {
        assert(sorted_by(ascending(s), leq));
        assert(leq(ascending(s)[i], ascending(s)[j]));
    }
}

} // verus!
