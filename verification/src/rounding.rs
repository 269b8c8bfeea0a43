//! Quotients as double-precision arithmetic gives and prints them.
//!
//! Sizes and chart coordinates are shown with one or two decimals. A number
//! is held as `m / p` with `p` a power of two, every operation rounds to
//! 53 significant bits with ties to the even neighbour, and printing rounds
//! the exact value in the same way.

use vstd::prelude::*;
use crate::text::{dec, digit_char, push_dec};

verus! {

/// 2 to the 53rd power.
pub const P53: u128 = 0x20_0000_0000_0000;

/// The integer nearest to `n / d`; of two that are equally near, the even one.
pub open spec fn half_even(n: nat, d: nat) -> nat {
    let q = n / d;
    let r = n % d;
    if 2 * r < d || (2 * r == d && q % 2 == 0) {
        q
    } else {
        q + 1
    }
}

pub fn round_half_even(n: u128, d: u128) -> (r: u128)
    requires
        0 < d,
        n < 0x100_0000_0000_0000_0000_0000_0000_0000,
    ensures
        r == half_even(n as nat, d as nat),
        r <= n / d + 1,
        r <= n + 1,
{
    let q: u128 = n / d;
    let rem: u128 = n % d;
    proof {
        vstd::arithmetic::div_mod::lemma_div_is_ordered_by_denominator(n as int, 1, d as int);
        assert(n as int / 1 == n);
    }
    if rem < d - rem || (rem == d - rem && q % 2 == 0) {
        q
    } else {
        q + 1
    }
}

/// `n` rounded to 53 significant bits, `d` being the least step to try.
pub open spec fn to53_from(n: nat, d: nat) -> nat
    decreases n - d,
{
    if d == 0 || n < 0x20_0000_0000_0000 * d {
        half_even(n, d) * d
    } else {
        to53_from(n, 2 * d)
    }
}

/// `n` rounded to 53 significant bits.
pub open spec fn to53(n: nat) -> nat {
    to53_from(n, 1)
}

pub fn round53(n: u128) -> (r: u128)
    requires
        n < 0x1_0000_0000_0000_0000_0000_0000,
    ensures
        r == to53(n as nat),
        r <= 2 * n + 2,
{
    let mut d: u128 = 1;
    while n >= 0x20_0000_0000_0000 * d
        invariant
            1 <= d <= 0x1_0000_0000_0000,
            d == 1 || 0x20_0000_0000_0000 * d <= 2 * n,
            n < 0x1_0000_0000_0000_0000_0000_0000,
            to53(n as nat) == to53_from(n as nat, d as nat),
        decreases n - d,
    {
        d = 2 * d;
    }
    let q: u128 = round_half_even(n, d);
    proof {
        let qi = (n / d) as int;
        assert(q <= qi + 1);
        assert(qi * d <= n) by (nonlinear_arith)
            requires
                qi == n as int / d as int,
                d > 0,
        ;
        assert(q * d <= (qi + 1) * d) by (nonlinear_arith)
            requires
                q <= qi + 1,
                d > 0,
        ;
        assert((qi + 1) * d == qi * d + d) by (nonlinear_arith);
        assert(d <= 1 || d <= n);
    }
    q * d
}

/// A number `m / p`.
#[derive(Debug)]
pub struct Binary {
    pub m: u128,
    pub p: u128,
}

/// A number `m / p`, as mathematics has it.
pub struct BinaryView {
    pub m: nat,
    pub p: nat,
}

impl View for Binary {
    type V = BinaryView;

    open spec fn view(&self) -> BinaryView {
        BinaryView { m: self.m as nat, p: self.p as nat }
    }
}

/// The nearest 53-bit number to `(n / p) / d`, for `n` below the range of
/// 53-bit quotients.
pub open spec fn quotient_from(n: nat, d: nat, p: nat) -> BinaryView
    decreases (if n < 0x10_0000_0000_0000 * d { 0x10_0000_0000_0000 * d - n } else { 0 }),
{
    if n == 0 || n >= 0x10_0000_0000_0000 * d {
        BinaryView { m: half_even(n, d), p }
    } else {
        quotient_from(2 * n, d, 2 * p)
    }
}

/// The nearest 53-bit number to `n / d`, where that is below 2 to the 53rd power.
pub open spec fn quotient(n: nat, d: nat) -> BinaryView {
    quotient_from(n, d, 1)
}

/// The quotient of `n` and `d`, rounded once.
pub fn divide(n: u128, d: u64) -> (r: Binary)
    requires
        0 < d,
        n <= 0x4_0000 * d,
    ensures
        r@ == quotient(n as nat, d as nat),
        0 < r.p <= 0x20_0000_0000_0000 * d,
        r.m <= P53,
{
    if n == 0 {
        return Binary { m: 0, p: 1 };
    }
    let dd: u128 = d as u128;
    let mut x: u128 = n;
    let mut p: u128 = 1;
    assert(dd <= 0xffff_ffff_ffff_ffff);
    while x < 0x10_0000_0000_0000 * dd
        invariant
            0 < x,
            0 < dd <= 0xffff_ffff_ffff_ffff,
            dd == d,
            0 < p,
            p <= x,
            x < 0x20_0000_0000_0000 * dd,
            quotient(n as nat, d as nat) == quotient_from(x as nat, d as nat, p as nat),
        decreases (if x < 0x10_0000_0000_0000 * dd { 0x10_0000_0000_0000 * dd - x } else { 0 }),
    {
        x = 2 * x;
        p = 2 * p;
    }
    let m: u128 = round_half_even(x, dd);
    proof {
        let q = x as int / dd as int;
        assert(q < P53) by (nonlinear_arith)
            requires
                q == x as int / dd as int,
                x < 0x20_0000_0000_0000 * dd,
                dd > 0,
                P53 == 0x20_0000_0000_0000,
        ;
    }
    Binary { m, p }
}

/// `a - m / p`, rounded to 53 bits.
pub open spec fn less(a: nat, b: BinaryView) -> BinaryView {
    BinaryView { m: to53((a * b.p - b.m) as nat), p: b.p }
}

pub fn subtract_from(a: u64, b: &Binary) -> (r: Binary)
    requires
        a <= 0xff,
        b.m <= P53,
        b.p <= 0x20_0000_0000_0000_0000_0000,
        b.m <= a * b.p,
    ensures
        r@ == less(a as nat, b@),
        r.m <= 0x1_0000_0000_0000_0000_0000_0000,
{
    assert(a * b.p <= 0xff * 0x20_0000_0000_0000_0000_0000) by (nonlinear_arith)
        requires
            a <= 0xff,
            b.p <= 0x20_0000_0000_0000_0000_0000,
    ;
    let whole: u128 = (a as u128) * b.p;
    let m: u128 = round53(whole - b.m);
    Binary { m, p: b.p }
}

/// `k * m / p`, rounded to 53 bits.
pub open spec fn times(b: BinaryView, k: nat) -> BinaryView {
    BinaryView { m: to53(b.m * k), p: b.p }
}

pub fn multiply(b: &Binary, k: u64) -> (r: Binary)
    requires
        k <= 0xffff,
        b.m <= P53,
    ensures
        r@ == times(b@, k as nat),
        r.m <= 0x10_0000_0000_0000_0000_0000,
{
    assert(b.m * k <= 0x20_0000_0000_0000 * 0xffff) by (nonlinear_arith)
        requires
            b.m <= P53,
            k <= 0xffff,
    ;
    let m: u128 = round53(b.m * (k as u128));
    Binary { m, p: b.p }
}

/// `n` hundredths, written with two decimals.
pub open spec fn two_places(n: nat) -> Seq<char> {
    dec(n / 100) + "."@ + seq![digit_char(n / 10 % 10), digit_char(n % 10)]
}

/// `n` tenths, written with one decimal.
pub open spec fn one_place(n: nat) -> Seq<char> {
    dec(n / 10) + "."@ + seq![digit_char(n % 10)]
}

/// `m / p` with two decimals.
pub open spec fn fixed2(b: BinaryView) -> Seq<char> {
    two_places(half_even(b.m * 100, b.p))
}

/// `m / p` with one decimal.
pub open spec fn fixed1(b: BinaryView) -> Seq<char> {
    one_place(half_even(b.m * 10, b.p))
}

fn push_digit(s: &mut String, d: u64)
    requires
        d < 10,
    ensures
        final(s)@ == old(s)@ + seq![digit_char(d as nat)],
{
    push_dec(s, d);
    assert(dec(d as nat) =~= seq![digit_char(d as nat)]);
}

/// Writes `n` hundredths with two decimals.
pub fn push_two_places(s: &mut String, n: u64)
    ensures
        final(s)@ == old(s)@ + two_places(n as nat),
{
    push_dec(s, n / 100);
    s.append(".");
    push_digit(s, n / 10 % 10);
    push_digit(s, n % 10);
    assert(s@ =~= old(s)@ + two_places(n as nat));
}

/// Writes `n` tenths with one decimal.
pub fn push_one_place(s: &mut String, n: u64)
    ensures
        final(s)@ == old(s)@ + one_place(n as nat),
{
    push_dec(s, n / 10);
    s.append(".");
    push_digit(s, n % 10);
    assert(s@ =~= old(s)@ + one_place(n as nat));
}

/// Rounding gives the nearest integer, and the even one of two that are equally near.
pub proof fn law_rounding_is_nearest(n: nat, d: nat)
    requires
        d > 0,
    ensures
        2 * (half_even(n, d) * d - n) <= d,
        2 * (n - half_even(n, d) * d) <= d,
        2 * (half_even(n, d) * d - n) == d || 2 * (n - half_even(n, d) * d) == d ==> half_even(n, d)
            % 2 == 0,
{
    let q = n / d;
    let r = n % d;
    assert(n == q * d + r && 0 <= r < d) by (nonlinear_arith)
        requires
            q == n / d,
            r == n % d,
            d > 0,
    ;
    assert((q + 1) * d == q * d + d) by (nonlinear_arith);
}

/// A number of 53 bits is kept as it is.
pub proof fn law_small_numbers_are_exact(n: nat)
    requires
        n < 0x20_0000_0000_0000,
    ensures
        to53(n) == n,
{
    assert(n / 1 == n && n % 1 == 0);
    assert(half_even(n, 1) == n);
}

/// Whole multiples are rounded to themselves.
pub proof fn lemma_half_even_whole(k: nat, d: nat)
    requires
        d > 0,
    ensures
        half_even(k * d, d) == k,
{
    assert((k * d) / d == k && (k * d) % d == 0) by (nonlinear_arith)
        requires
            d > 0,
    ;
}

/// Without the point, what is written with decimals is the number of its smallest parts.
pub proof fn law_point_divides_the_digits(n: nat)
    ensures
        n >= 10 ==> dec(n) == dec(n / 10) + seq![digit_char(n % 10)] && one_place(n) == dec(n / 10)
            + "."@ + seq![digit_char(n % 10)],
        n >= 100 ==> dec(n) == dec(n / 100) + seq![digit_char(n / 10 % 10), digit_char(n % 10)]
            && two_places(n) == dec(n / 100) + "."@ + seq![
            digit_char(n / 10 % 10),
            digit_char(n % 10),
        ],
{
    if n >= 10 {
        assert(dec(n) =~= dec(n / 10) + seq![digit_char(n % 10)]);
    }
    if n >= 100 {
        assert(n / 10 / 10 == n / 100);
        assert(dec(n / 10) =~= dec(n / 100) + seq![digit_char(n / 10 % 10)]);
        assert(dec(n) =~= dec(n / 100) + seq![digit_char(n / 10 % 10), digit_char(n % 10)]);
    }
}

proof fn lemma_quotient_from(n: nat, d: nat, p: nat)
    requires
        d > 0,
        p > 0,
    ensures
        quotient_from(n, d, p).p > 0,
        2 * (quotient_from(n, d, p).m * d * p - n * quotient_from(n, d, p).p) <= d * p,
        2 * (n * quotient_from(n, d, p).p - quotient_from(n, d, p).m * d * p) <= d * p,
    decreases (if n < 0x10_0000_0000_0000 * d { 0x10_0000_0000_0000 * d - n } else { 0 }),
{
    if n == 0 || n >= 0x10_0000_0000_0000 * d {
        law_rounding_is_nearest(n, d);
        let h = half_even(n, d);
        assert(2 * (h * d * p - n * p) <= d * p && 2 * (n * p - h * d * p) <= d * p)
            by (nonlinear_arith)
            requires
                2 * (h * d - n) <= d,
                2 * (n - h * d) <= d,
                p > 0,
        ;
    } else {
        lemma_quotient_from(2 * n, d, 2 * p);
        let q = quotient_from(2 * n, d, 2 * p);
        let m = q.m;
        let r = q.p;
        assert(2 * (m * d * p - n * r) <= d * p && 2 * (n * r - m * d * p) <= d * p)
            by (nonlinear_arith)
            requires
                2 * (m * d * (2 * p) - (2 * n) * r) <= d * (2 * p),
                2 * ((2 * n) * r - m * d * (2 * p)) <= d * (2 * p),
        ;
    }
}

/// A quotient is the nearest number of its scale: it is off by no more than half of the
/// last bit that it keeps.
pub proof fn law_quotients_are_nearest(n: nat, d: nat)
    requires
        d > 0,
    ensures
        quotient(n, d).p > 0,
        2 * (quotient(n, d).m * d - n * quotient(n, d).p) <= d,
        2 * (n * quotient(n, d).p - quotient(n, d).m * d) <= d,
{
    lemma_quotient_from(n, d, 1);
    let q = quotient(n, d);
    assert(q.m * d * 1 == q.m * d) by (nonlinear_arith);
}

/// What is written with two decimals is off by no more than half a hundredth, and with
/// one by no more than half a tenth.
pub proof fn law_decimals_are_nearest(b: BinaryView)
    requires
        b.p > 0,
    ensures
        exists|h: nat|
            fixed2(b) == #[trigger] two_places(h) && 2 * (h * b.p - b.m * 100) <= b.p && 2 * (b.m
                * 100 - h * b.p) <= b.p,
        exists|t: nat|
            fixed1(b) == #[trigger] one_place(t) && 2 * (t * b.p - b.m * 10) <= b.p && 2 * (b.m * 10
                - t * b.p) <= b.p,
{
    law_rounding_is_nearest(b.m * 100, b.p);
    law_rounding_is_nearest(b.m * 10, b.p);
    assert(fixed2(b) == two_places(half_even(b.m * 100, b.p)));
    assert(fixed1(b) == one_place(half_even(b.m * 10, b.p)));
}

/// Differences and products of small numbers are exact.
pub proof fn law_small_results_are_exact(a: nat, b: BinaryView, k: nat)
    requires
        b.m <= a * b.p,
        a * b.p < 0x20_0000_0000_0000,
        b.m * k < 0x20_0000_0000_0000,
    ensures
        less(a, b).m == a * b.p - b.m && less(a, b).p == b.p,
        times(b, k).m == b.m * k && times(b, k).p == b.p,
{
    law_small_numbers_are_exact((a * b.p - b.m) as nat);
    law_small_numbers_are_exact(b.m * k);
}

} // verus!
