//! Inline SVG charts of the audit log dashboard.
//!
//! The view box is fixed so that a style sheet can scale the chart, and the
//! colours are custom properties with a fallback so that a theme can change
//! them.

use vstd::prelude::*;
use crate::rounding::{
    Binary, BinaryView, P53, divide, fixed2, half_even, law_rounding_is_nearest,
    law_small_numbers_are_exact, lemma_half_even_whole, less, multiply, one_place, push_one_place,
    push_two_places, quotient, quotient_from, round53, round_half_even, subtract_from, times, to53,
    to53_from, two_places,
};
use crate::text::{
    ascii_digit, dec, flat, has_part, has_prefix, has_suffix, lemma_dec_digits, lemma_flat_step,
    push_dec, stands_at, to_chars,
};

verus! {

pub const VIEWBOX_W: i32 = 800;

pub const VIEWBOX_H: i32 = 240;

pub const COLOR_2XX: &'static str = "var(--ok, #2ea043)";

pub const COLOR_4XX: &'static str = "var(--warn, #d29922)";

pub const COLOR_5XX: &'static str = "var(--err, #f85149)";

pub const COLOR_MUTED: &'static str = "var(--muted, #7d8590)";

pub const COLOR_ACCENT: &'static str = "var(--accent, #58a6ff)";

/// The requests of one span of time, by the class of their status.
#[derive(Clone, Copy, Debug, PartialEq, Eq, Structural)]
pub struct TimeBucket {
    pub ts_unix: i64,
    pub count_2xx: u32,
    pub count_4xx: u32,
    pub count_5xx: u32,
}

// ---------------------------------------------------------------------------
// Escaping
// ---------------------------------------------------------------------------

/// What stands for `c` in the text of an XML element.
pub open spec fn xml_char(c: char) -> Seq<char> {
    if c == '&' {
        "&amp;"@
    } else if c == '<' {
        "&lt;"@
    } else if c == '>' {
        "&gt;"@
    } else if c == '"' {
        "&quot;"@
    } else if c == '\'' {
        "&apos;"@
    } else {
        seq![c]
    }
}

/// `s` as the text of an XML element.
pub open spec fn xml_text(s: Seq<char>) -> Seq<char> {
    flat(s, |c: char| xml_char(c))
}

/// Escapes a label, so that it cannot break the markup.
pub fn xml_escape(s: &str) -> (r: String)
    ensures
        r@ == xml_text(s@),
{
    let a: Vec<char> = to_chars(s);
    let ghost f = |c: char| xml_char(c);
    let mut r: String = String::new();
    let mut i: usize = 0;
    assert(a@.take(0) =~= Seq::<char>::empty());
    while i < a.len()
        invariant
            i <= a.len(),
            f == (|c: char| xml_char(c)),
            r@ == flat(a@.take(i as int), f),
        decreases a.len() - i,
    {
        proof {
            lemma_flat_step(a@, f, i as int);
        }
        let c: char = a[i];
        let ghost before = r@;
        if c == '&' {
            r.append("&amp;");
        } else if c == '<' {
            r.append("&lt;");
        } else if c == '>' {
            r.append("&gt;");
        } else if c == '"' {
            r.append("&quot;");
        } else if c == '\'' {
            r.append("&apos;");
        } else {
            r.push(c);
            assert(r@ =~= before + seq![c]);
        }
        i = i + 1;
    }
    assert(a@.take(i as int) =~= s@);
    r
}

/// Escaped text holds no character that opens markup or ends an attribute value.
pub proof fn law_xml_text_is_inert(s: Seq<char>)
    ensures
        !xml_text(s).contains('<'),
        !xml_text(s).contains('>'),
        !xml_text(s).contains('"'),
        !xml_text(s).contains('\''),
    decreases s.len(),
{
    reveal_strlit("&amp;");
    reveal_strlit("&lt;");
    reveal_strlit("&gt;");
    reveal_strlit("&quot;");
    reveal_strlit("&apos;");
    if s.len() > 0 {
        law_xml_text_is_inert(s.drop_last());
        let head = xml_text(s.drop_last());
        let tail = xml_char(s.last());
        let all = xml_text(s);
        assert(all == head + tail);
        assert forall|k: int| 0 <= k < all.len() implies all[k] != '<' && all[k] != '>' && all[k]
            != '"' && all[k] != '\'' by {
            if k < head.len() {
                assert(head[k] == all[k]);
                assert(head.contains(all[k]));
            } else {
                assert(tail[k - head.len()] == all[k]);
            }
        }
    }
}

// ---------------------------------------------------------------------------
// No data
// ---------------------------------------------------------------------------

/// The head of every chart.
pub open spec fn svg_open() -> Seq<char> {
    "<svg viewBox=\"0 0 800 240\" xmlns=\"http://www.w3.org/2000/svg\" class=\"chart\">"@
}

/// The chart that stands for an empty window.
pub open spec fn no_data() -> Seq<char> {
    svg_open()
        + "<text x=\"400\" y=\"120\" text-anchor=\"middle\" dominant-baseline=\"middle\" fill=\"var(--muted, #7d8590)\" font-family=\"sans-serif\" font-size=\"14\">no data in this window</text></svg>"@
}

/// The placeholder that every chart gives where there is nothing to draw.
pub fn no_data_svg() -> (r: String)
    ensures
        r@ == no_data(),
{
    let mut s: String =
        "<svg viewBox=\"0 0 800 240\" xmlns=\"http://www.w3.org/2000/svg\" class=\"chart\">".to_owned();
    s.append(
        "<text x=\"400\" y=\"120\" text-anchor=\"middle\" dominant-baseline=\"middle\" fill=\"var(--muted, #7d8590)\" font-family=\"sans-serif\" font-size=\"14\">no data in this window</text></svg>",
    );
    s
}

// ---------------------------------------------------------------------------
// Stacked areas
// ---------------------------------------------------------------------------

/// The layers of the stacked chart, from the baseline up.
#[derive(Clone, Copy, Debug, PartialEq, Eq, Structural)]
pub enum Layer {
    Success,
    Client,
    Server,
}

/// The requests of a bucket up to and with a layer.
pub open spec fn layer_top(b: TimeBucket, layer: Layer) -> nat {
    match layer {
        Layer::Success => b.count_2xx as nat,
        Layer::Client => (b.count_2xx + b.count_4xx) as nat,
        Layer::Server => (b.count_2xx + b.count_4xx + b.count_5xx) as nat,
    }
}

/// The largest total of any bucket.
pub open spec fn peak(buckets: Seq<TimeBucket>) -> nat
    decreases buckets.len(),
{
    if buckets.len() == 0 {
        0
    } else {
        let m = peak(buckets.drop_last());
        let t = layer_top(buckets.last(), Layer::Server);
        if t > m {
            t
        } else {
            m
        }
    }
}

/// The horizontal place of bucket `i` of `n`.
pub open spec fn x_at(i: nat, n: nat) -> BinaryView {
    quotient(to53(i * 800), if n > 1 { (n - 1) as nat } else { 1 })
}

/// The vertical place of `count` where `max` takes four fifths of the height.
pub open spec fn y_at(count: nat, max: nat) -> BinaryView {
    less(240, quotient(count * 192, max))
}

/// The line through the tops of the first `k` buckets.
pub open spec fn outline(buckets: Seq<TimeBucket>, layer: Layer, k: nat) -> Seq<char>
    decreases k,
{
    if k == 0 {
        "M0,240 "@
    } else {
        let i = (k - 1) as nat;
        outline(buckets, layer, i) + "L"@ + fixed2(x_at(i, buckets.len())) + ","@ + fixed2(
            y_at(layer_top(buckets[i as int], layer), peak(buckets)),
        ) + " "@
    }
}

/// The filled area of one layer.
pub open spec fn area(buckets: Seq<TimeBucket>, layer: Layer, color: Seq<char>) -> Seq<char> {
    "<path d=\""@ + (outline(buckets, layer, buckets.len()) + "L"@ + fixed2(
        x_at((buckets.len() - 1) as nat, buckets.len()),
    ) + ",240 Z"@) + "\" fill=\""@ + color + "\" />"@
}

/// The chart of the given buckets. Later areas cover earlier ones, so the
/// layer that reaches highest comes first.
pub open spec fn stacked(buckets: Seq<TimeBucket>) -> Seq<char> {
    if peak(buckets) == 0 {
        no_data()
    } else {
        svg_open() + area(buckets, Layer::Server, COLOR_5XX@) + area(
            buckets,
            Layer::Client,
            COLOR_4XX@,
        ) + area(buckets, Layer::Success, COLOR_2XX@) + "</svg>"@
    }
}

/// The totals of all buckets fit their type.
pub open spec fn totals_fit(buckets: Seq<TimeBucket>) -> bool {
    forall|i: int|
        0 <= i < buckets.len() ==> layer_top(#[trigger] buckets[i], Layer::Server) <= u32::MAX
}

proof fn lemma_peak(buckets: Seq<TimeBucket>)
    requires
        totals_fit(buckets),
    ensures
        peak(buckets) <= u32::MAX,
        forall|i: int|
            0 <= i < buckets.len() ==> layer_top(#[trigger] buckets[i], Layer::Server) <= peak(
                buckets,
            ),
    decreases buckets.len(),
{
    if buckets.len() > 0 {
        let init = buckets.drop_last();
        assert forall|i: int| 0 <= i < init.len() implies layer_top(#[trigger] init[i], Layer::Server)
            <= u32::MAX by {
            assert(init[i] == buckets[i]);
        }
        lemma_peak(init);
        assert forall|i: int| 0 <= i < buckets.len() implies layer_top(
            #[trigger] buckets[i],
            Layer::Server,
        ) <= peak(buckets) by {
            if i < init.len() {
                assert(init[i] == buckets[i]);
            }
        }
    }
}

fn largest_total(buckets: &[TimeBucket]) -> (m: u32)
    requires
        totals_fit(buckets@),
    ensures
        m == peak(buckets@),
{
    let mut m: u32 = 0;
    let mut i: usize = 0;
    assert(buckets@.take(0) =~= Seq::<TimeBucket>::empty());
    while i < buckets.len()
        invariant
            i <= buckets.len(),
            totals_fit(buckets@),
            m == peak(buckets@.take(i as int)),
        decreases buckets.len() - i,
    {
        let b: TimeBucket = buckets[i];
        assert(layer_top(buckets@[i as int], Layer::Server) <= u32::MAX);
        let t: u32 = b.count_2xx + b.count_4xx + b.count_5xx;
        proof {
            let s = buckets@.take(i as int + 1);
            assert(s.drop_last() =~= buckets@.take(i as int));
            assert(s.last() == b);
        }
        if t > m {
            m = t;
        }
        i = i + 1;
    }
    assert(buckets@.take(i as int) =~= buckets@);
    m
}

proof fn lemma_half_even_near(n: nat, d: nat)
    requires
        d > 0,
    ensures
        half_even(n, d) * d <= n + d,
        n > 0 && d == 1 ==> half_even(n, d) == n,
{
    let q = n / d;
    assert(q * d <= n) by (nonlinear_arith)
        requires
            q == n / d,
            d > 0,
    ;
    assert(half_even(n, d) * d <= (q + 1) * d) by (nonlinear_arith)
        requires
            half_even(n, d) <= q + 1,
            d > 0,
    ;
    assert((q + 1) * d == q * d + d) by (nonlinear_arith);
}

/// Rounding to 53 bits adds at most the number itself.
proof fn lemma_to53_from_bound(n: nat, d: nat)
    requires
        d > 0,
        d <= n,
    ensures
        to53_from(n, d) <= 2 * n,
    decreases n - d,
{
    if n < 0x20_0000_0000_0000 * d {
        lemma_half_even_near(n, d);
    } else {
        lemma_to53_from_bound(n, 2 * d);
    }
}

proof fn lemma_to53_bound(n: nat)
    ensures
        to53(n) <= 2 * n,
{
    if n > 0 {
        lemma_to53_from_bound(n, 1);
    } else {
        lemma_half_even_near(0, 1);
    }
}

/// The quotient of two numbers rounds to no more than one step above it.
proof fn lemma_quotient_bound(n: nat, d: nat, p: nat, k: nat)
    requires
        0 < d,
        0 < p,
        n <= k * d * p,
    ensures
        quotient_from(n, d, p).p > 0,
        quotient_from(n, d, p).m <= k * quotient_from(n, d, p).p + 1,
    decreases (if n < 0x10_0000_0000_0000 * d { 0x10_0000_0000_0000 * d - n } else { 0 }),
{
    if n == 0 || n >= 0x10_0000_0000_0000 * d {
        let q = n / d;
        assert(q <= k * p) by (nonlinear_arith)
            requires
                q == n / d,
                n <= k * d * p,
                d > 0,
        ;
    } else {
        assert(2 * n <= k * d * (2 * p)) by (nonlinear_arith)
            requires
                n <= k * d * p,
        ;
        lemma_quotient_bound(2 * n, d, 2 * p, k);
    }
}

/// Writes a number with two decimals.
fn push_fixed2(s: &mut String, b: &Binary)
    requires
        0 < b.p,
        b.m <= 0x1_0000_0000_0000_0000_0000_0000,
        b.m <= 0x1_0000_0000 * b.p,
    ensures
        final(s)@ == old(s)@ + fixed2(b@),
{
    let t: u128 = round_half_even(b.m * 100, b.p);
    proof {
        let q = (b.m * 100) as int / b.p as int;
        assert(q <= 0x64_0000_0000) by (nonlinear_arith)
            requires
                q == (b.m * 100) as int / b.p as int,
                b.m <= 0x1_0000_0000 * b.p,
                b.p > 0,
        ;
    }
    push_two_places(s, t as u64);
}

/// Writes the horizontal place of bucket `i` of `n`.
fn push_x(s: &mut String, i: u64, n: u64)
    requires
        i < n <= P53,
    ensures
        final(s)@ == old(s)@ + fixed2(x_at(i as nat, n as nat)),
{
    let last: u64 = if n > 1 { n - 1 } else { 1 };
    let num: u128 = round53(i as u128 * 800);
    proof {
        lemma_to53_bound(i as nat * 800);
        lemma_quotient_bound(num as nat, last as nat, 1, 1600);
    }
    let x: Binary = divide(num, last);
    push_fixed2(s, &x);
}

/// Writes the vertical place of `count` where `max` is the peak.
fn push_y(s: &mut String, count: u32, max: u32)
    requires
        count <= max,
        0 < max,
    ensures
        final(s)@ == old(s)@ + fixed2(y_at(count as nat, max as nat)),
{
    proof {
        lemma_quotient_bound(count as nat * 192, max as nat, 1, 192);
    }
    let h: Binary = divide(count as u128 * 192, max as u64);
    let y: Binary = subtract_from(240, &h);
    proof {
        lemma_to53_bound((240 * h.p - h.m) as nat);
    }
    push_fixed2(s, &y);
}

fn count_to(b: &TimeBucket, layer: Layer) -> (c: u32)
    requires
        layer_top(*b, Layer::Server) <= u32::MAX,
    ensures
        c == layer_top(*b, layer),
        c <= layer_top(*b, Layer::Server),
{
    match layer {
        Layer::Success => b.count_2xx,
        Layer::Client => b.count_2xx + b.count_4xx,
        Layer::Server => b.count_2xx + b.count_4xx + b.count_5xx,
    }
}

/// Draws the filled area of one layer.
fn area_path(buckets: &[TimeBucket], layer: Layer, color: &str, max: u32) -> (r: String)
    requires
        0 < buckets@.len() <= P53,
        totals_fit(buckets@),
        max == peak(buckets@),
        0 < max,
    ensures
        r@ == area(buckets@, layer, color@),
{
    let n: u64 = buckets.len() as u64;
    let mut d: String = "M0,240 ".to_owned();
    let mut i: u64 = 0;
    proof {
        lemma_peak(buckets@);
    }
    while i < n
        invariant
            i <= n,
            n == buckets@.len(),
            n <= P53,
            totals_fit(buckets@),
            max == peak(buckets@),
            0 < max,
            forall|k: int|
                0 <= k < buckets@.len() ==> layer_top(#[trigger] buckets@[k], Layer::Server)
                    <= max,
            d@ == outline(buckets@, layer, i as nat),
        decreases n - i,
    {
        let b: TimeBucket = buckets[i as usize];
        assert(layer_top(buckets@[i as int], Layer::Server) <= max);
        d.append("L");
        push_x(&mut d, i, n);
        d.append(",");
        let top: u32 = count_to(&b, layer);
        push_y(&mut d, top, max);
        d.append(" ");
        i = i + 1;
    }
    d.append("L");
    push_x(&mut d, n - 1, n);
    d.append(",240 Z");
    let mut r: String = "<path d=\"".to_owned();
    r.append(d.as_str());
    r.append("\" fill=\"");
    r.append(color);
    r.append("\" />");
    r
}

/// Draws successes, client errors and server errors on top of each other.
/// The totals of the buckets have to fit their type, and their number the
/// address space of a machine.
pub fn stacked_area_chart(buckets: &[TimeBucket]) -> (r: String)
    requires
        totals_fit(buckets@),
        buckets@.len() <= P53,
    ensures
        r@ == stacked(buckets@),
{
    let max: u32 = largest_total(buckets);
    if max == 0 {
        return no_data_svg();
    }
    let p2: String = area_path(buckets, Layer::Success, COLOR_2XX, max);
    let p4: String = area_path(buckets, Layer::Client, COLOR_4XX, max);
    let p5: String = area_path(buckets, Layer::Server, COLOR_5XX, max);
    let mut s: String =
        "<svg viewBox=\"0 0 800 240\" xmlns=\"http://www.w3.org/2000/svg\" class=\"chart\">".to_owned();
    s.append(p5.as_str());
    s.append(p4.as_str());
    s.append(p2.as_str());
    s.append("</svg>");
    s
}

// ---------------------------------------------------------------------------
// Horizontal bars
// ---------------------------------------------------------------------------

/// How many rows of a list are drawn.
pub open spec fn shown(len: nat) -> nat {
    if len > 10 {
        10
    } else {
        len
    }
}

/// How many rows the chart has, with the one that counts what is left out.
pub open spec fn row_count(len: nat) -> nat {
    if len > 10 {
        11
    } else {
        len
    }
}

/// The largest count, and at least 1.
pub open spec fn largest(items: Seq<(String, u32)>) -> nat
    decreases items.len(),
{
    if items.len() == 0 {
        1
    } else {
        let m = largest(items.drop_last());
        let t = items.last().1 as nat;
        if t > m {
            t
        } else {
            m
        }
    }
}

/// The middle of row `i` of `rows`, in tenths of a unit.
pub open spec fn row_middle(i: nat, rows: nat) -> nat {
    half_even(1200 * (2 * i + 1), rows)
}

/// The upper edge of the bar of row `i` of `rows`, in tenths of a unit.
pub open spec fn bar_top(i: nat, rows: nat) -> nat {
    half_even(480 * (5 * i + 1), rows)
}

/// The height of a bar, six tenths of a row, in tenths of a unit.
pub open spec fn bar_height(rows: nat) -> nat {
    half_even(1440, rows)
}

/// The width of a bar of `count` where `max` takes the whole width.
pub open spec fn bar_width(count: nat, max: nat) -> BinaryView {
    times(quotient(count, max), 470)
}

/// One row: the label, the bar and the count.
pub open spec fn bar_row(label: Seq<char>, count: nat, i: nat, rows: nat, max: nat) -> Seq<char> {
    "<text x=\"8\" y=\""@ + one_place(row_middle(i, rows))
        + "\" dominant-baseline=\"middle\" fill=\"var(--muted, #7d8590)\" font-family=\"sans-serif\" font-size=\"13\">"@
        + xml_text(label) + "</text><rect x=\"250\" y=\""@ + one_place(bar_top(i, rows))
        + "\" width=\""@ + fixed2(bar_width(count, max)) + "\" height=\""@ + one_place(
        bar_height(rows),
    ) + "\" fill=\"var(--accent, #58a6ff)\" rx=\"2\" /><text x=\"792\" y=\""@ + one_place(
        row_middle(i, rows),
    )
        + "\" text-anchor=\"end\" dominant-baseline=\"middle\" fill=\"var(--muted, #7d8590)\" font-family=\"sans-serif\" font-size=\"13\">"@
        + dec(count) + "</text>"@
}

/// The first `k` rows.
pub open spec fn bar_rows(items: Seq<(String, u32)>, k: nat) -> Seq<char>
    decreases k,
{
    if k == 0 {
        Seq::<char>::empty()
    } else {
        let i = (k - 1) as nat;
        bar_rows(items, i) + bar_row(
            items[i as int].0@,
            items[i as int].1 as nat,
            i,
            row_count(items.len()),
            largest(items.take(shown(items.len()) as int)),
        )
    }
}

/// The row that counts what is left out.
pub open spec fn more_row(left_out: nat) -> Seq<char> {
    "<text x=\"8\" y=\""@ + one_place(row_middle(10, 11))
        + "\" dominant-baseline=\"middle\" fill=\"var(--muted, #7d8590)\" font-family=\"sans-serif\" font-size=\"12\" font-style=\"italic\">+"@
        + dec(left_out) + " more not shown</text>"@
}

/// The bar chart of the given items.
pub open spec fn bars(items: Seq<(String, u32)>) -> Seq<char> {
    if items.len() == 0 {
        no_data()
    } else {
        svg_open() + bar_rows(items, shown(items.len())) + (if items.len() > 10 {
            more_row((items.len() - 10) as nat)
        } else {
            Seq::<char>::empty()
        }) + "</svg>"@
    }
}

fn largest_count(items: &[(String, u32)], k: usize) -> (m: u32)
    requires
        k <= items@.len(),
    ensures
        m == largest(items@.take(k as int)),
        m >= 1,
        forall|j: int| 0 <= j < k ==> (#[trigger] items@[j]).1 <= m,
{
    let mut m: u32 = 1;
    let mut i: usize = 0;
    assert(items@.take(0) =~= Seq::<(String, u32)>::empty());
    while i < k
        invariant
            i <= k <= items@.len(),
            m == largest(items@.take(i as int)),
            m >= 1,
            forall|j: int| 0 <= j < i ==> (#[trigger] items@[j]).1 <= m,
        decreases k - i,
    {
        let t: u32 = items[i].1;
        proof {
            let s = items@.take(i as int + 1);
            assert(s.drop_last() =~= items@.take(i as int));
            assert(s.last() == items@[i as int]);
        }
        if t > m {
            m = t;
        }
        i = i + 1;
    }
    m
}

fn push_tenths(s: &mut String, n: u64, rows: u64)
    requires
        0 < rows,
        n <= 0xffff_ffff,
    ensures
        final(s)@ == old(s)@ + one_place(half_even(n as nat, rows as nat)),
{
    let t: u128 = round_half_even(n as u128, rows as u128);
    push_one_place(s, t as u64);
}

fn bar_row_text(label: &str, count: u32, i: u64, rows: u64, max: u32) -> (r: String)
    requires
        i <= 10,
        0 < rows,
        0 < max,
        count <= max,
    ensures
        r@ == bar_row(label@, count as nat, i as nat, rows as nat, max as nat),
{
    let mut r: String = "<text x=\"8\" y=\"".to_owned();
    push_tenths(&mut r, 1200 * (2 * i + 1), rows);
    r.append(
        "\" dominant-baseline=\"middle\" fill=\"var(--muted, #7d8590)\" font-family=\"sans-serif\" font-size=\"13\">",
    );
    let escaped: String = xml_escape(label);
    r.append(escaped.as_str());
    r.append("</text><rect x=\"250\" y=\"");
    push_tenths(&mut r, 480 * (5 * i + 1), rows);
    r.append("\" width=\"");
    proof {
        lemma_quotient_bound(count as nat, max as nat, 1, 1);
    }
    let share: Binary = divide(count as u128, max as u64);
    let w: Binary = multiply(&share, 470);
    proof {
        lemma_to53_bound(share.m as nat * 470);
    }
    push_fixed2(&mut r, &w);
    r.append("\" height=\"");
    push_tenths(&mut r, 1440, rows);
    r.append("\" fill=\"var(--accent, #58a6ff)\" rx=\"2\" /><text x=\"792\" y=\"");
    push_tenths(&mut r, 1200 * (2 * i + 1), rows);
    r.append(
        "\" text-anchor=\"end\" dominant-baseline=\"middle\" fill=\"var(--muted, #7d8590)\" font-family=\"sans-serif\" font-size=\"13\">",
    );
    push_dec(&mut r, count as u64);
    r.append("</text>");
    r
}

/// Draws one row for each item: its label, a bar and its count. Of more than
/// ten items the first ten are drawn, and a last row says how many are not.
pub fn horizontal_bars(items: &[(String, u32)]) -> (r: String)
    ensures
        r@ == bars(items@),
{
    if items.len() == 0 {
        return no_data_svg();
    }
    let k: usize = if items.len() > 10 { 10 } else { items.len() };
    let rows: u64 = if items.len() > 10 { 11 } else { items.len() as u64 };
    let max: u32 = largest_count(items, k);
    let mut body: String = String::new();
    let mut i: usize = 0;
    while i < k
        invariant
            i <= k <= 10,
            k == shown(items@.len()),
            k <= items@.len(),
            rows == row_count(items@.len()),
            0 < rows,
            max == largest(items@.take(k as int)),
            0 < max,
            forall|j: int| 0 <= j < k ==> (#[trigger] items@[j]).1 <= max,
            body@ == bar_rows(items@, i as nat),
        decreases k - i,
    {
        let row: String = bar_row_text(items[i].0.as_str(), items[i].1, i as u64, rows, max);
        body.append(row.as_str());
        i = i + 1;
    }
    let mut s: String =
        "<svg viewBox=\"0 0 800 240\" xmlns=\"http://www.w3.org/2000/svg\" class=\"chart\">".to_owned();
    s.append(body.as_str());
    if items.len() > 10 {
        let mut more: String = "<text x=\"8\" y=\"".to_owned();
        push_tenths(&mut more, 1200 * 21, 11);
        more.append(
            "\" dominant-baseline=\"middle\" fill=\"var(--muted, #7d8590)\" font-family=\"sans-serif\" font-size=\"12\" font-style=\"italic\">+",
        );
        push_dec(&mut more, (items.len() - 10) as u64);
        more.append(" more not shown</text>");
        s.append(more.as_str());
    }
    s.append("</svg>");
    assert(s@ =~= bars(items@));
    s
}

// ---------------------------------------------------------------------------
// What a bar chart holds
// ---------------------------------------------------------------------------

/// An element of that name, four letters long, begins at place `i`.
pub open spec fn begins(s: Seq<char>, name: Seq<char>, i: int) -> bool {
    &&& 0 <= i && i + 5 <= s.len()
    &&& s[i] == '<'
    &&& s[i + 1] == name[0]
    &&& s[i + 2] == name[1]
    &&& s[i + 3] == name[2]
    &&& s[i + 4] == name[3]
}

/// How many elements of that name begin at the first `k` places.
pub open spec fn elements_in(s: Seq<char>, name: Seq<char>, k: nat) -> nat
    decreases k,
{
    if k == 0 {
        0
    } else {
        elements_in(s, name, (k - 1) as nat) + if begins(s, name, k - 1) {
            1nat
        } else {
            0nat
        }
    }
}

/// How many elements of that name a text holds.
pub open spec fn elements(s: Seq<char>, name: Seq<char>) -> nat {
    elements_in(s, name, s.len())
}

/// No element of that name begins in the last four characters.
spec fn settled(s: Seq<char>, name: Seq<char>) -> bool {
    let n = s.len() as int;
    &&& !(n >= 1 && s[n - 1] == '<')
    &&& !(n >= 2 && s[n - 2] == '<' && s[n - 1] == name[0])
    &&& !(n >= 3 && s[n - 3] == '<' && s[n - 2] == name[0] && s[n - 1] == name[1])
    &&& !(n >= 4 && s[n - 4] == '<' && s[n - 3] == name[0] && s[n - 2] == name[1] && s[n - 1]
        == name[2])
}

/// The text is settled and holds `count` elements of that name.
spec fn holding(s: Seq<char>, name: Seq<char>, count: nat) -> bool {
    settled(s, name) && elements(s, name) == count
}

proof fn lemma_elements_start(a: Seq<char>, b: Seq<char>, name: Seq<char>, k: nat)
    requires
        settled(a, name),
        k <= a.len(),
    ensures
        elements_in(a + b, name, k) == elements_in(a, name, k),
    decreases k,
{
    if k > 0 {
        lemma_elements_start(a, b, name, (k - 1) as nat);
        let i = k - 1;
        let s = a + b;
        assert(s[i] == a[i]);
        if begins(s, name, i) && i + 5 > a.len() {
            assert forall|j: int| 0 <= j < a.len() implies s[j] == a[j] by {}
            assert(i == a.len() - 1 || i == a.len() - 2 || i == a.len() - 3 || i == a.len() - 4);
            assert(false);
        }
        if i + 5 <= a.len() {
            assert(s[i + 1] == a[i + 1] && s[i + 2] == a[i + 2] && s[i + 3] == a[i + 3] && s[i + 4]
                == a[i + 4]);
        }
    }
}

proof fn lemma_elements_rest(a: Seq<char>, b: Seq<char>, name: Seq<char>, k: nat)
    requires
        settled(a, name),
        k <= b.len(),
    ensures
        elements_in(a + b, name, a.len() + k) == elements(a, name) + elements_in(b, name, k),
    decreases k,
{
    if k == 0 {
        lemma_elements_start(a, b, name, a.len());
    } else {
        lemma_elements_rest(a, b, name, (k - 1) as nat);
        let s = a + b;
        let i = k - 1;
        let n = a.len() as int;
        if i + 5 <= b.len() {
            assert(s[n + i] == b[i] && s[n + i + 1] == b[i + 1] && s[n + i + 2] == b[i + 2] && s[n + i
                + 3] == b[i + 3] && s[n + i + 4] == b[i + 4]);
        }
        assert(begins(s, name, n + i) == begins(b, name, i));
        assert((a.len() + k - 1) as nat == a.len() + (k - 1) as nat);
    }
}

/// Texts that are put together hold the elements of both.
proof fn lemma_holding_joined(a: Seq<char>, b: Seq<char>, name: Seq<char>, x: nat, y: nat)
    requires
        name.len() == 4,
        forall|i: int| 0 <= i < 4 ==> #[trigger] name[i] != '<',
        holding(a, name, x),
        holding(b, name, y),
    ensures
        holding(a + b, name, x + y),
{
    lemma_elements_rest(a, b, name, b.len());
    let s = a + b;
    let (n, m) = (s.len() as int, b.len() as int);
    assert forall|j: int| 0 <= j < a.len() implies s[j] == a[j] by {}
    assert forall|j: int| a.len() <= j < n implies s[j] == b[j - a.len()] by {}
    assert(name[0] != '<' && name[1] != '<' && name[2] != '<');
    assert(settled(s, name));
}

/// A text without `<` holds no element.
proof fn lemma_plain(s: Seq<char>, name: Seq<char>, k: nat)
    requires
        name.len() == 4,
        !s.contains('<'),
        k <= s.len(),
    ensures
        elements_in(s, name, k) == 0,
        settled(s, name),
    decreases k,
{
    assert forall|i: int| 0 <= i < s.len() implies s[i] != '<' by {
        assert(s.contains(s[i]));
    }
    if k > 0 {
        lemma_plain(s, name, (k - 1) as nat);
    }
}

proof fn lemma_numbers_are_plain(n: nat)
    ensures
        !dec(n).contains('<'),
        !one_place(n).contains('<'),
        !two_places(n).contains('<'),
{
    lemma_dec_digits(n);
    lemma_dec_digits(n / 10);
    lemma_dec_digits(n / 100);
    reveal_strlit(".");
    assert forall|i: int| 0 <= i < one_place(n).len() implies one_place(n)[i] != '<' by {
        if i < dec(n / 10).len() {
            assert(ascii_digit(dec(n / 10)[i]));
        }
    }
    assert forall|i: int| 0 <= i < two_places(n).len() implies two_places(n)[i] != '<' by {
        if i < dec(n / 100).len() {
            assert(ascii_digit(dec(n / 100)[i]));
        }
    }
}

#[verifier::rlimit(60)]
#[verifier::spinoff_prover]
proof fn lemma_text_start_holds()
    ensures
        holding("<text x=\"8\" y=\""@, "rect"@, 0),
        holding("<text x=\"8\" y=\""@, "text"@, 1),
{
    reveal_strlit("<text x=\"8\" y=\"");
    reveal_strlit("rect");
    reveal_strlit("text");
    reveal_with_fuel(elements_in, 16);
}

proof fn lemma_label_style_holds()
    ensures
        holding("\" dominant-baseline=\"middle\" fill=\"var(--muted, #7d8590)\" font-family=\"sans-serif\" font-size=\"13\">"@, "rect"@, 0),
        holding("\" dominant-baseline=\"middle\" fill=\"var(--muted, #7d8590)\" font-family=\"sans-serif\" font-size=\"13\">"@, "text"@, 0),
{
    reveal_strlit("\" dominant-baseline=\"middle\" fill=\"var(--muted, #7d8590)\" font-family=\"sans-serif\" font-size=\"13\">");
    reveal_strlit("rect");
    reveal_strlit("text");
    let s = "\" dominant-baseline=\"middle\" fill=\"var(--muted, #7d8590)\" font-family=\"sans-serif\" font-size=\"13\">"@;
    assert(elements_in(s, "rect"@, 49) == 0 && elements_in(s, "text"@, 49) == 0) by {
        reveal_with_fuel(elements_in, 50);
    }
    assert(elements_in(s, "rect"@, 98) == 0 && elements_in(s, "text"@, 98) == 0) by {
        reveal_with_fuel(elements_in, 50);
    }
}

proof fn lemma_bar_start_holds()
    ensures
        holding("</text><rect x=\"250\" y=\""@, "rect"@, 1),
        holding("</text><rect x=\"250\" y=\""@, "text"@, 0),
{
    reveal_strlit("</text><rect x=\"250\" y=\"");
    reveal_strlit("rect");
    reveal_strlit("text");
    reveal_with_fuel(elements_in, 25);
}

proof fn lemma_width_mark_holds()
    ensures
        holding("\" width=\""@, "rect"@, 0),
        holding("\" width=\""@, "text"@, 0),
{
    reveal_strlit("\" width=\"");
    reveal_strlit("rect");
    reveal_strlit("text");
    reveal_with_fuel(elements_in, 10);
}

proof fn lemma_height_mark_holds()
    ensures
        holding("\" height=\""@, "rect"@, 0),
        holding("\" height=\""@, "text"@, 0),
{
    reveal_strlit("\" height=\"");
    reveal_strlit("rect");
    reveal_strlit("text");
    reveal_with_fuel(elements_in, 11);
}

proof fn lemma_count_start_holds()
    ensures
        holding("\" fill=\"var(--accent, #58a6ff)\" rx=\"2\" /><text x=\"792\" y=\""@, "rect"@, 0),
        holding("\" fill=\"var(--accent, #58a6ff)\" rx=\"2\" /><text x=\"792\" y=\""@, "text"@, 1),
{
    reveal_strlit("\" fill=\"var(--accent, #58a6ff)\" rx=\"2\" /><text x=\"792\" y=\"");
    reveal_strlit("rect");
    reveal_strlit("text");
    reveal_with_fuel(elements_in, 59);
}

#[verifier::rlimit(60)]
#[verifier::spinoff_prover]
proof fn lemma_count_style_holds()
    ensures
        holding("\" text-anchor=\"end\" dominant-baseline=\"middle\" fill=\"var(--muted, #7d8590)\" font-family=\"sans-serif\" font-size=\"13\">"@, "rect"@, 0),
        holding("\" text-anchor=\"end\" dominant-baseline=\"middle\" fill=\"var(--muted, #7d8590)\" font-family=\"sans-serif\" font-size=\"13\">"@, "text"@, 0),
{
    reveal_strlit("\" text-anchor=\"end\" dominant-baseline=\"middle\" fill=\"var(--muted, #7d8590)\" font-family=\"sans-serif\" font-size=\"13\">");
    reveal_strlit("rect");
    reveal_strlit("text");
    let s = "\" text-anchor=\"end\" dominant-baseline=\"middle\" fill=\"var(--muted, #7d8590)\" font-family=\"sans-serif\" font-size=\"13\">"@;
    assert(elements_in(s, "rect"@, 58) == 0 && elements_in(s, "text"@, 58) == 0) by {
        reveal_with_fuel(elements_in, 59);
    }
    assert(elements_in(s, "rect"@, 116) == 0 && elements_in(s, "text"@, 116) == 0) by {
        reveal_with_fuel(elements_in, 59);
    }
}

proof fn lemma_text_end_holds()
    ensures
        holding("</text>"@, "rect"@, 0),
        holding("</text>"@, "text"@, 0),
{
    reveal_strlit("</text>");
    reveal_strlit("rect");
    reveal_strlit("text");
    reveal_with_fuel(elements_in, 8);
}

#[verifier::rlimit(60)]
#[verifier::spinoff_prover]
proof fn lemma_more_style_holds()
    ensures
        holding("\" dominant-baseline=\"middle\" fill=\"var(--muted, #7d8590)\" font-family=\"sans-serif\" font-size=\"12\" font-style=\"italic\">+"@, "rect"@, 0),
        holding("\" dominant-baseline=\"middle\" fill=\"var(--muted, #7d8590)\" font-family=\"sans-serif\" font-size=\"12\" font-style=\"italic\">+"@, "text"@, 0),
{
    reveal_strlit("\" dominant-baseline=\"middle\" fill=\"var(--muted, #7d8590)\" font-family=\"sans-serif\" font-size=\"12\" font-style=\"italic\">+");
    reveal_strlit("rect");
    reveal_strlit("text");
    let s = "\" dominant-baseline=\"middle\" fill=\"var(--muted, #7d8590)\" font-family=\"sans-serif\" font-size=\"12\" font-style=\"italic\">+"@;
    assert(elements_in(s, "rect"@, 59) == 0 && elements_in(s, "text"@, 59) == 0) by {
        reveal_with_fuel(elements_in, 60);
    }
    assert(elements_in(s, "rect"@, 119) == 0 && elements_in(s, "text"@, 119) == 0) by {
        reveal_with_fuel(elements_in, 61);
    }
}

proof fn lemma_more_end_holds()
    ensures
        holding(" more not shown</text>"@, "rect"@, 0),
        holding(" more not shown</text>"@, "text"@, 0),
{
    reveal_strlit(" more not shown</text>");
    reveal_strlit("rect");
    reveal_strlit("text");
    reveal_with_fuel(elements_in, 23);
}

proof fn lemma_chart_start_holds()
    ensures
        holding("<svg viewBox=\"0 0 800 240\" xmlns=\"http://www.w3.org/2000/svg\" class=\"chart\">"@, "rect"@, 0),
        holding("<svg viewBox=\"0 0 800 240\" xmlns=\"http://www.w3.org/2000/svg\" class=\"chart\">"@, "text"@, 0),
{
    reveal_strlit("<svg viewBox=\"0 0 800 240\" xmlns=\"http://www.w3.org/2000/svg\" class=\"chart\">");
    reveal_strlit("rect");
    reveal_strlit("text");
    reveal_with_fuel(elements_in, 77);
}

proof fn lemma_chart_end_holds()
    ensures
        holding("</svg>"@, "rect"@, 0),
        holding("</svg>"@, "text"@, 0),
{
    reveal_strlit("</svg>");
    reveal_strlit("rect");
    reveal_strlit("text");
    reveal_with_fuel(elements_in, 7);
}

/// The numbers and the label of a row hold no element.
proof fn lemma_row_pieces(label: Seq<char>, count: nat, i: nat, rows: nat, max: nat, name: Seq<char>)
    requires
        name.len() == 4,
    ensures
        holding(one_place(row_middle(i, rows)), name, 0),
        holding(xml_text(label), name, 0),
        holding(one_place(bar_top(i, rows)), name, 0),
        holding(fixed2(bar_width(count, max)), name, 0),
        holding(one_place(bar_height(rows)), name, 0),
        holding(dec(count), name, 0),
{
    let w = bar_width(count, max);
    law_xml_text_is_inert(label);
    lemma_numbers_are_plain(row_middle(i, rows));
    lemma_numbers_are_plain(bar_top(i, rows));
    lemma_numbers_are_plain(half_even(w.m * 100, w.p));
    lemma_numbers_are_plain(bar_height(rows));
    lemma_numbers_are_plain(count);
    lemma_plain(one_place(row_middle(i, rows)), name, one_place(row_middle(i, rows)).len());
    lemma_plain(xml_text(label), name, xml_text(label).len());
    lemma_plain(one_place(bar_top(i, rows)), name, one_place(bar_top(i, rows)).len());
    lemma_plain(fixed2(w), name, fixed2(w).len());
    lemma_plain(one_place(bar_height(rows)), name, one_place(bar_height(rows)).len());
    lemma_plain(dec(count), name, dec(count).len());
}

proof fn lemma_row_rects(label: Seq<char>, count: nat, i: nat, rows: nat, max: nat)
    ensures
        holding(bar_row(label, count, i, rows, max), "rect"@, 1),
{
    let name = "rect"@;
    reveal_strlit("rect");
    lemma_row_pieces(label, count, i, rows, max, name);
    lemma_text_start_holds();
    lemma_label_style_holds();
    lemma_bar_start_holds();
    lemma_width_mark_holds();
    lemma_height_mark_holds();
    lemma_count_start_holds();
    lemma_count_style_holds();
    lemma_text_end_holds();
    let t0 = "<text x=\"8\" y=\""@;
    lemma_holding_joined(t0, one_place(row_middle(i, rows)), name, 0, 0);
    let t1 = t0 + one_place(row_middle(i, rows));
    lemma_holding_joined(t1, "\" dominant-baseline=\"middle\" fill=\"var(--muted, #7d8590)\" font-family=\"sans-serif\" font-size=\"13\">"@, name, 0, 0);
    let t2 = t1 + "\" dominant-baseline=\"middle\" fill=\"var(--muted, #7d8590)\" font-family=\"sans-serif\" font-size=\"13\">"@;
    lemma_holding_joined(t2, xml_text(label), name, 0, 0);
    let t3 = t2 + xml_text(label);
    lemma_holding_joined(t3, "</text><rect x=\"250\" y=\""@, name, 0, 1);
    let t4 = t3 + "</text><rect x=\"250\" y=\""@;
    lemma_holding_joined(t4, one_place(bar_top(i, rows)), name, 1, 0);
    let t5 = t4 + one_place(bar_top(i, rows));
    lemma_holding_joined(t5, "\" width=\""@, name, 1, 0);
    let t6 = t5 + "\" width=\""@;
    lemma_holding_joined(t6, fixed2(bar_width(count, max)), name, 1, 0);
    let t7 = t6 + fixed2(bar_width(count, max));
    lemma_holding_joined(t7, "\" height=\""@, name, 1, 0);
    let t8 = t7 + "\" height=\""@;
    lemma_holding_joined(t8, one_place(bar_height(rows)), name, 1, 0);
    let t9 = t8 + one_place(bar_height(rows));
    lemma_holding_joined(t9, "\" fill=\"var(--accent, #58a6ff)\" rx=\"2\" /><text x=\"792\" y=\""@, name, 1, 0);
    let t10 = t9 + "\" fill=\"var(--accent, #58a6ff)\" rx=\"2\" /><text x=\"792\" y=\""@;
    lemma_holding_joined(t10, one_place(row_middle(i, rows)), name, 1, 0);
    let t11 = t10 + one_place(row_middle(i, rows));
    lemma_holding_joined(t11, "\" text-anchor=\"end\" dominant-baseline=\"middle\" fill=\"var(--muted, #7d8590)\" font-family=\"sans-serif\" font-size=\"13\">"@, name, 1, 0);
    let t12 = t11 + "\" text-anchor=\"end\" dominant-baseline=\"middle\" fill=\"var(--muted, #7d8590)\" font-family=\"sans-serif\" font-size=\"13\">"@;
    lemma_holding_joined(t12, dec(count), name, 1, 0);
    let t13 = t12 + dec(count);
    lemma_holding_joined(t13, "</text>"@, name, 1, 0);
    let t14 = t13 + "</text>"@;
    assert(t14 == bar_row(label, count, i, rows, max));
}

proof fn lemma_more_rects(left_out: nat)
    ensures
        holding(more_row(left_out), "rect"@, 0),
{
    let name = "rect"@;
    reveal_strlit("rect");
    lemma_numbers_are_plain(row_middle(10, 11));
    lemma_numbers_are_plain(left_out);
    lemma_plain(one_place(row_middle(10, 11)), name, one_place(row_middle(10, 11)).len());
    lemma_plain(dec(left_out), name, dec(left_out).len());
    lemma_text_start_holds();
    lemma_more_style_holds();
    lemma_more_end_holds();
    let t0 = "<text x=\"8\" y=\""@;
    lemma_holding_joined(t0, one_place(row_middle(10, 11)), name, 0, 0);
    let t1 = t0 + one_place(row_middle(10, 11));
    lemma_holding_joined(t1, "\" dominant-baseline=\"middle\" fill=\"var(--muted, #7d8590)\" font-family=\"sans-serif\" font-size=\"12\" font-style=\"italic\">+"@, name, 0, 0);
    let t2 = t1 + "\" dominant-baseline=\"middle\" fill=\"var(--muted, #7d8590)\" font-family=\"sans-serif\" font-size=\"12\" font-style=\"italic\">+"@;
    lemma_holding_joined(t2, dec(left_out), name, 0, 0);
    let t3 = t2 + dec(left_out);
    lemma_holding_joined(t3, " more not shown</text>"@, name, 0, 0);
    let t4 = t3 + " more not shown</text>"@;
    assert(t4 == more_row(left_out));
}

proof fn lemma_row_texts(label: Seq<char>, count: nat, i: nat, rows: nat, max: nat)
    ensures
        holding(bar_row(label, count, i, rows, max), "text"@, 2),
{
    let name = "text"@;
    reveal_strlit("text");
    lemma_row_pieces(label, count, i, rows, max, name);
    lemma_text_start_holds();
    lemma_label_style_holds();
    lemma_bar_start_holds();
    lemma_width_mark_holds();
    lemma_height_mark_holds();
    lemma_count_start_holds();
    lemma_count_style_holds();
    lemma_text_end_holds();
    let t0 = "<text x=\"8\" y=\""@;
    lemma_holding_joined(t0, one_place(row_middle(i, rows)), name, 1, 0);
    let t1 = t0 + one_place(row_middle(i, rows));
    lemma_holding_joined(t1, "\" dominant-baseline=\"middle\" fill=\"var(--muted, #7d8590)\" font-family=\"sans-serif\" font-size=\"13\">"@, name, 1, 0);
    let t2 = t1 + "\" dominant-baseline=\"middle\" fill=\"var(--muted, #7d8590)\" font-family=\"sans-serif\" font-size=\"13\">"@;
    lemma_holding_joined(t2, xml_text(label), name, 1, 0);
    let t3 = t2 + xml_text(label);
    lemma_holding_joined(t3, "</text><rect x=\"250\" y=\""@, name, 1, 0);
    let t4 = t3 + "</text><rect x=\"250\" y=\""@;
    lemma_holding_joined(t4, one_place(bar_top(i, rows)), name, 1, 0);
    let t5 = t4 + one_place(bar_top(i, rows));
    lemma_holding_joined(t5, "\" width=\""@, name, 1, 0);
    let t6 = t5 + "\" width=\""@;
    lemma_holding_joined(t6, fixed2(bar_width(count, max)), name, 1, 0);
    let t7 = t6 + fixed2(bar_width(count, max));
    lemma_holding_joined(t7, "\" height=\""@, name, 1, 0);
    let t8 = t7 + "\" height=\""@;
    lemma_holding_joined(t8, one_place(bar_height(rows)), name, 1, 0);
    let t9 = t8 + one_place(bar_height(rows));
    lemma_holding_joined(t9, "\" fill=\"var(--accent, #58a6ff)\" rx=\"2\" /><text x=\"792\" y=\""@, name, 1, 1);
    let t10 = t9 + "\" fill=\"var(--accent, #58a6ff)\" rx=\"2\" /><text x=\"792\" y=\""@;
    lemma_holding_joined(t10, one_place(row_middle(i, rows)), name, 2, 0);
    let t11 = t10 + one_place(row_middle(i, rows));
    lemma_holding_joined(t11, "\" text-anchor=\"end\" dominant-baseline=\"middle\" fill=\"var(--muted, #7d8590)\" font-family=\"sans-serif\" font-size=\"13\">"@, name, 2, 0);
    let t12 = t11 + "\" text-anchor=\"end\" dominant-baseline=\"middle\" fill=\"var(--muted, #7d8590)\" font-family=\"sans-serif\" font-size=\"13\">"@;
    lemma_holding_joined(t12, dec(count), name, 2, 0);
    let t13 = t12 + dec(count);
    lemma_holding_joined(t13, "</text>"@, name, 2, 0);
    let t14 = t13 + "</text>"@;
    assert(t14 == bar_row(label, count, i, rows, max));
}

proof fn lemma_more_texts(left_out: nat)
    ensures
        holding(more_row(left_out), "text"@, 1),
{
    let name = "text"@;
    reveal_strlit("text");
    lemma_numbers_are_plain(row_middle(10, 11));
    lemma_numbers_are_plain(left_out);
    lemma_plain(one_place(row_middle(10, 11)), name, one_place(row_middle(10, 11)).len());
    lemma_plain(dec(left_out), name, dec(left_out).len());
    lemma_text_start_holds();
    lemma_more_style_holds();
    lemma_more_end_holds();
    let t0 = "<text x=\"8\" y=\""@;
    lemma_holding_joined(t0, one_place(row_middle(10, 11)), name, 1, 0);
    let t1 = t0 + one_place(row_middle(10, 11));
    lemma_holding_joined(t1, "\" dominant-baseline=\"middle\" fill=\"var(--muted, #7d8590)\" font-family=\"sans-serif\" font-size=\"12\" font-style=\"italic\">+"@, name, 1, 0);
    let t2 = t1 + "\" dominant-baseline=\"middle\" fill=\"var(--muted, #7d8590)\" font-family=\"sans-serif\" font-size=\"12\" font-style=\"italic\">+"@;
    lemma_holding_joined(t2, dec(left_out), name, 1, 0);
    let t3 = t2 + dec(left_out);
    lemma_holding_joined(t3, " more not shown</text>"@, name, 1, 0);
    let t4 = t3 + " more not shown</text>"@;
    assert(t4 == more_row(left_out));
}

proof fn lemma_rows_hold(items: Seq<(String, u32)>, k: nat)
    ensures
        holding(bar_rows(items, k), "rect"@, k),
        holding(bar_rows(items, k), "text"@, 2 * k),
    decreases k,
{
    reveal_strlit("rect");
    reveal_strlit("text");
    if k > 0 {
        let i = (k - 1) as nat;
        lemma_rows_hold(items, i);
        let rows = row_count(items.len());
        let max = largest(items.take(shown(items.len()) as int));
        let (label, count) = (items[i as int].0@, items[i as int].1 as nat);
        lemma_row_rects(label, count, i, rows, max);
        lemma_row_texts(label, count, i, rows, max);
        let row = bar_row(label, count, i, rows, max);
        lemma_holding_joined(bar_rows(items, i), row, "rect"@, i, 1);
        lemma_holding_joined(bar_rows(items, i), row, "text"@, 2 * i, 2);
    }
}

/// A bar chart holds one bar for each of the first ten items, with a label and a
/// count, and one more text exactly where there are more items than ten: the
/// row that says how many are not shown.
pub proof fn law_bars_are_the_first_ten(items: Seq<(String, u32)>)
    requires
        items.len() > 0,
    ensures
        elements(bars(items), "rect"@) == (if items.len() > 10 {
            10
        } else {
            items.len()
        }),
        items.len() <= 10 ==> elements(bars(items), "text"@) == 2 * items.len() && bars(items)
            == svg_open() + bar_rows(items, items.len()) + "</svg>"@,
        items.len() > 10 ==> elements(bars(items), "text"@) == 21 && bars(items) == svg_open()
            + bar_rows(items, 10) + more_row((items.len() - 10) as nat) + "</svg>"@,
{
    reveal_strlit("rect");
    reveal_strlit("text");
    let n = shown(items.len());
    let rows = bar_rows(items, n);
    lemma_rows_hold(items, n);
    lemma_chart_start_holds();
    lemma_chart_end_holds();
    lemma_holding_joined(svg_open(), rows, "rect"@, 0, n);
    lemma_holding_joined(svg_open(), rows, "text"@, 0, 2 * n);
    let body = svg_open() + rows;
    if items.len() > 10 {
        let more = more_row((items.len() - 10) as nat);
        lemma_more_rects((items.len() - 10) as nat);
        lemma_more_texts((items.len() - 10) as nat);
        lemma_holding_joined(body, more, "rect"@, n, 0);
        lemma_holding_joined(body, more, "text"@, 2 * n, 1);
        lemma_holding_joined(body + more, "</svg>"@, "rect"@, n, 0);
        lemma_holding_joined(body + more, "</svg>"@, "text"@, 2 * n + 1, 0);
    } else {
        lemma_holding_joined(body, "</svg>"@, "rect"@, n, 0);
        lemma_holding_joined(body, "</svg>"@, "text"@, 2 * n, 0);
        assert(body + Seq::<char>::empty() =~= body);
    }
}

proof fn lemma_same_largest(a: Seq<(String, u32)>, b: Seq<(String, u32)>)
    requires
        a.len() == b.len(),
        forall|i: int| 0 <= i < a.len() ==> (#[trigger] a[i]).1 == b[i].1,
    ensures
        largest(a) == largest(b),
    decreases a.len(),
{
    if a.len() > 0 {
        lemma_same_largest(a.drop_last(), b.drop_last());
        assert(a[a.len() - 1].1 == b[a.len() - 1].1);
    }
}

proof fn lemma_same_rows(a: Seq<(String, u32)>, b: Seq<(String, u32)>, k: nat)
    requires
        a.len() == b.len(),
        k <= shown(a.len()),
        forall|i: int|
            0 <= i < shown(a.len()) ==> xml_text((#[trigger] a[i]).0@) == xml_text(b[i].0@)
                && a[i].1 == b[i].1,
    ensures
        bar_rows(a, k) == bar_rows(b, k),
    decreases k,
{
    if k > 0 {
        let n = shown(a.len()) as int;
        lemma_same_rows(a, b, (k - 1) as nat);
        assert forall|i: int| 0 <= i < n implies (#[trigger] a.take(n)[i]).1 == b.take(n)[i].1 by {
            assert(a[i].1 == b[i].1);
        }
        lemma_same_largest(a.take(n), b.take(n));
        assert(xml_text(a[k - 1].0@) == xml_text(b[k - 1].0@));
    }
}

/// A label comes into a chart in its escaped form alone: where the escaped labels
/// and the counts of the first ten items agree, so do the charts.
pub proof fn law_labels_come_escaped(a: Seq<(String, u32)>, b: Seq<(String, u32)>)
    requires
        a.len() == b.len(),
        forall|i: int|
            0 <= i < a.len() && i < 10 ==> xml_text((#[trigger] a[i]).0@) == xml_text(b[i].0@)
                && a[i].1 == b[i].1,
    ensures
        bars(a) == bars(b),
{
    if a.len() > 0 {
        lemma_same_rows(a, b, shown(a.len()));
    }
}

/// What is not shown does not change what is: lists of one length with the same
/// first ten items give the same chart.
pub proof fn law_hidden_items_do_not_scale(a: Seq<(String, u32)>, b: Seq<(String, u32)>)
    requires
        a.len() == b.len(),
        forall|i: int|
            0 <= i < a.len() && i < 10 ==> (#[trigger] a[i]).0@ == b[i].0@ && a[i].1 == b[i].1,
    ensures
        bars(a) == bars(b),
{
    if a.len() > 0 {
        lemma_same_rows(a, b, shown(a.len()));
    }
}

// ---------------------------------------------------------------------------
// What the charts show
// ---------------------------------------------------------------------------

/// The layers of a bucket lie on one another: each is as high as its own count.
pub proof fn law_layers_lie_on_one_another(b: TimeBucket)
    ensures
        layer_top(b, Layer::Success) == b.count_2xx,
        layer_top(b, Layer::Client) - layer_top(b, Layer::Success) == b.count_4xx,
        layer_top(b, Layer::Server) - layer_top(b, Layer::Client) == b.count_5xx,
{
}

/// The peak is the total of a bucket, and no bucket has more.
pub proof fn law_peak_is_the_largest_total(buckets: Seq<TimeBucket>)
    ensures
        forall|i: int|
            0 <= i < buckets.len() ==> (#[trigger] buckets[i]).count_2xx + buckets[i].count_4xx
                + buckets[i].count_5xx <= peak(buckets),
        peak(buckets) > 0 ==> exists|i: int|
            0 <= i < buckets.len() && (#[trigger] buckets[i]).count_2xx + buckets[i].count_4xx
                + buckets[i].count_5xx == peak(buckets),
    decreases buckets.len(),
{
    if buckets.len() > 0 {
        let head = buckets.drop_last();
        law_peak_is_the_largest_total(head);
        assert forall|i: int| 0 <= i < buckets.len() implies (#[trigger] buckets[i]).count_2xx
            + buckets[i].count_4xx + buckets[i].count_5xx <= peak(buckets) by {
            if i < head.len() {
                assert(head[i] == buckets[i]);
            }
        }
        if peak(buckets) > 0 {
            if layer_top(buckets.last(), Layer::Server) > peak(head) {
                assert(buckets[buckets.len() - 1] == buckets.last());
            } else {
                let i = choose|i: int|
                    0 <= i < head.len() && (#[trigger] head[i]).count_2xx + head[i].count_4xx
                        + head[i].count_5xx == peak(head);
                assert(buckets[i] == head[i]);
            }
        }
    }
}

/// A chart of buckets without requests says that there is nothing; any other begins as a
/// chart, shows the failures of the server behind those of the clients behind the
/// successes, each in its colour, and ends.
pub proof fn law_areas_have_their_colours(buckets: Seq<TimeBucket>)
    ensures
        (forall|i: int|
            0 <= i < buckets.len() ==> (#[trigger] buckets[i]).count_2xx == 0 && buckets[i].count_4xx
                == 0 && buckets[i].count_5xx == 0) ==> stacked(buckets) == no_data(),
        peak(buckets) > 0 ==> has_prefix(
            stacked(buckets),
            svg_open() + area(buckets, Layer::Server, "var(--err, #f85149)"@),
        ),
        peak(buckets) > 0 ==> has_suffix(
            stacked(buckets),
            area(buckets, Layer::Client, "var(--warn, #d29922)"@) + area(
                buckets,
                Layer::Success,
                "var(--ok, #2ea043)"@,
            ) + "</svg>"@,
        ),
{
    if forall|i: int|
        0 <= i < buckets.len() ==> (#[trigger] buckets[i]).count_2xx == 0 && buckets[i].count_4xx
            == 0 && buckets[i].count_5xx == 0 {
        law_peak_is_the_largest_total(buckets);
    }
    if peak(buckets) > 0 {
        let s = stacked(buckets);
        let head = svg_open() + area(buckets, Layer::Server, "var(--err, #f85149)"@);
        let tail = area(buckets, Layer::Client, "var(--warn, #d29922)"@) + area(
            buckets,
            Layer::Success,
            "var(--ok, #2ea043)"@,
        ) + "</svg>"@;
        assert(s =~= head + tail);
        assert(s.subrange(0, head.len() as int) =~= head);
        assert(s.subrange(s.len() - tail.len(), s.len() as int) =~= tail);
    }
}

/// The first bucket stands at the left edge, and nothing stands at the baseline.
pub proof fn law_charts_begin_at_the_corner(n: nat, max: nat)
    requires
        n > 0,
        max > 0,
    ensures
        x_at(0, n).m == 0,
        y_at(0, max) == (BinaryView { m: 240, p: 1 }),
{
    law_small_numbers_are_exact(0);
    law_small_numbers_are_exact(240);
    let d = if n > 1 { (n - 1) as nat } else { 1 };
    assert(half_even(0, d) == 0) by {
        lemma_half_even_whole(0, d);
        assert(0 * d == 0);
    }
    assert(half_even(0, max) == 0) by {
        lemma_half_even_whole(0, max);
        assert(0 * max == 0);
    }
}

/// The longest bar is that of the largest count that is shown.
pub proof fn law_largest_is_the_largest_count(items: Seq<(String, u32)>)
    ensures
        largest(items) >= 1,
        forall|i: int| 0 <= i < items.len() ==> (#[trigger] items[i]).1 <= largest(items),
        largest(items) > 1 ==> exists|i: int|
            0 <= i < items.len() && (#[trigger] items[i]).1 == largest(items),
    decreases items.len(),
{
    if items.len() > 0 {
        let head = items.drop_last();
        law_largest_is_the_largest_count(head);
        assert forall|i: int| 0 <= i < items.len() implies (#[trigger] items[i]).1 <= largest(
            items,
        ) by {
            if i < head.len() {
                assert(head[i] == items[i]);
            }
        }
        if largest(items) > 1 {
            if items.last().1 > largest(head) {
                assert(items[items.len() - 1] == items.last());
            } else {
                let i = choose|i: int|
                    0 <= i < head.len() && (#[trigger] head[i]).1 == largest(head);
                assert(items[i] == head[i]);
            }
        }
    }
}

/// A row shows the label of its item before the bar and the count behind it.
pub proof fn law_rows_show_label_and_count(label: Seq<char>, count: nat, i: nat, rows: nat, max: nat)
    ensures
        has_suffix(bar_row(label, count, i, rows, max), ">"@ + (dec(count) + "</text>"@)),
        has_part(bar_row(label, count, i, rows, max), ">"@ + (xml_text(label) + "</text><rect x=\"250\" y=\""@)),
{
    reveal_strlit(">");
    reveal_strlit(
        "\" dominant-baseline=\"middle\" fill=\"var(--muted, #7d8590)\" font-family=\"sans-serif\" font-size=\"13\">",
    );
    reveal_strlit(
        "\" text-anchor=\"end\" dominant-baseline=\"middle\" fill=\"var(--muted, #7d8590)\" font-family=\"sans-serif\" font-size=\"13\">",
    );
    let s = bar_row(label, count, i, rows, max);
    let c1 =
        "\" dominant-baseline=\"middle\" fill=\"var(--muted, #7d8590)\" font-family=\"sans-serif\" font-size=\"13\">"@;
    let c2 =
        "\" text-anchor=\"end\" dominant-baseline=\"middle\" fill=\"var(--muted, #7d8590)\" font-family=\"sans-serif\" font-size=\"13\">"@;
    let a = "<text x=\"8\" y=\""@ + one_place(row_middle(i, rows));
    let rect = "</text><rect x=\"250\" y=\""@;
    let b = one_place(bar_top(i, rows)) + "\" width=\""@ + fixed2(bar_width(count, max))
        + "\" height=\""@ + one_place(bar_height(rows))
        + "\" fill=\"var(--accent, #58a6ff)\" rx=\"2\" /><text x=\"792\" y=\""@ + one_place(
        row_middle(i, rows),
    );
    let tail = dec(count) + "</text>"@;
    let mid = xml_text(label) + rect;
    assert(c1.last() == '>' && c2.last() == '>');
    assert(s =~= a + c1 + mid + b + c2 + tail);
    let t = ">"@ + tail;
    assert(s.subrange(s.len() - t.len(), s.len() as int) =~= t);
    let m = ">"@ + mid;
    let at = a.len() + c1.len() - 1;
    assert(s.subrange(at, at + m.len()) =~= m);
    assert(stands_at(s, m, at));
}

/// Each mark of the markup has its own entity in a chart.
pub proof fn law_chart_marks_have_their_entities(c: char)
    ensures
        xml_char('&') == "&amp;"@,
        xml_char('<') == "&lt;"@,
        xml_char('>') == "&gt;"@,
        c != '&' && c != '<' && c != '>' && c != '"' && c != '\'' ==> xml_char(c) == seq![c],
{
}

/// The rows share the height of the chart, 2400 tenths of a unit, evenly. The text of a
/// row stands in its middle, its bar begins a fifth below its upper edge and takes three
/// fifths of it, each to the nearest tenth.
pub proof fn law_rows_share_the_height(i: nat, rows: nat)
    requires
        i < rows,
    ensures
        -rows <= 2 * rows * row_middle(i, rows) - (2400 * i + 2400 * (i + 1)) <= rows,
        -5 * rows <= 2 * (5 * rows * bar_top(i, rows) - (12000 * i + 2400)) <= 5 * rows,
        -5 * rows <= 2 * (5 * rows * bar_height(rows) - 3 * 2400) <= 5 * rows,
{
    law_rounding_is_nearest(1200 * (2 * i + 1), rows);
    law_rounding_is_nearest(480 * (5 * i + 1), rows);
    law_rounding_is_nearest(1440, rows);
    let a = row_middle(i, rows);
    let b = bar_top(i, rows);
    let c = bar_height(rows);
    assert(2 * rows * a == 2 * (a * rows)) by (nonlinear_arith);
    assert(5 * rows * b == 5 * (b * rows)) by (nonlinear_arith);
    assert(480 * (5 * i + 1) == 2400 * i + 480);
    assert(2 * (b * rows - (2400 * i + 480)) <= rows);
    assert(2 * ((2400 * i + 480) - b * rows) <= rows);
    assert(5 * rows * c == 5 * (c * rows)) by (nonlinear_arith);
}

/// The outline of a layer begins on the ground at the left, and goes on from each moment
/// to the next: across to its place, and up to the top of the layer there.
pub proof fn law_outlines_go_through_the_tops(buckets: Seq<TimeBucket>, layer: Layer, k: nat)
    requires
        k < buckets.len(),
    ensures
        has_prefix(outline(buckets, layer, 0), "M0,240"@),
        has_prefix(outline(buckets, layer, k + 1), outline(buckets, layer, k)),
        has_suffix(
            outline(buckets, layer, k + 1),
            "L"@ + fixed2(x_at(k, buckets.len())) + ","@ + fixed2(
                y_at(layer_top(buckets[k as int], layer), peak(buckets)),
            ) + " "@,
        ),
{
    reveal_strlit("M0,240");
    reveal_strlit("M0,240 ");
    assert("M0,240 "@.subrange(0, 6) =~= "M0,240"@);
    let a = outline(buckets, layer, k);
    let b = outline(buckets, layer, k + 1);
    let step = "L"@ + fixed2(x_at(k, buckets.len())) + ","@ + fixed2(
        y_at(layer_top(buckets[k as int], layer), peak(buckets)),
    ) + " "@;
    assert(b =~= a + step);
    assert(b.subrange(0, a.len() as int) =~= a);
    assert(b.subrange(b.len() - step.len(), b.len() as int) =~= step);
}

} // verus!
