//! Small formatting helpers that several pages share.
//!
//! Sizes are in binary units: 1 KB is 1024 B.

use vstd::prelude::*;
use crate::rounding::{
    BinaryView, fixed1, fixed2, law_small_numbers_are_exact, lemma_half_even_whole, one_place,
    push_one_place, push_two_places, round53, round_half_even, to53, two_places,
};
use crate::text::{dec, push_dec};

verus! {

/// A byte count as `"NNN B"`, `"N.N KB"`, `"N.N MB"` or `"N.NN GB"`. The
/// count is read as a double, so from 2 to the 53rd power on it keeps 53
/// significant bits.
pub open spec fn humanized(n: nat) -> Seq<char> {
    if n < 1024 {
        dec(n) + " B"@
    } else if n < 1048576 {
        fixed1(BinaryView { m: to53(n), p: 1024 }) + " KB"@
    } else if n < 1073741824 {
        fixed1(BinaryView { m: to53(n), p: 1048576 }) + " MB"@
    } else {
        fixed2(BinaryView { m: to53(n), p: 1073741824 }) + " GB"@
    }
}

/// Formats a byte count for a reader.
pub fn humanize_bytes(n: u64) -> (r: String)
    ensures
        r@ == humanized(n as nat),
{
    let mut s: String = String::new();
    if n < 1024 {
        push_dec(&mut s, n);
        s.append(" B");
        assert(s@ =~= humanized(n as nat));
        return s;
    }
    let m: u128 = round53(n as u128);
    if n < 1048576 {
        let t: u128 = round_half_even(m * 10, 1024);
        push_one_place(&mut s, t as u64);
        s.append(" KB");
    } else if n < 1073741824 {
        let t: u128 = round_half_even(m * 10, 1048576);
        push_one_place(&mut s, t as u64);
        s.append(" MB");
    } else {
        let t: u128 = round_half_even(m * 100, 1073741824);
        push_two_places(&mut s, t as u64);
        s.append(" GB");
    }
    assert(s@ =~= humanized(n as nat));
    s
}

/// A whole number of a unit is written as that number with that unit, each unit being
/// 1024 of the one before.
pub proof fn law_whole_units_are_written_whole(k: nat)
    requires
        0 < k < 1024,
    ensures
        humanized(k) == dec(k) + " B"@,
        humanized(k * 1024) == dec(k) + ".0"@ + " KB"@,
        humanized(k * 1024 * 1024) == dec(k) + ".0"@ + " MB"@,
        humanized(k * 1024 * 1024 * 1024) == dec(k) + ".00"@ + " GB"@,
{
    reveal_strlit(".");
    reveal_strlit(".0");
    reveal_strlit(".00");
    law_small_numbers_are_exact(k * 1024);
    law_small_numbers_are_exact(k * 1048576);
    law_small_numbers_are_exact(k * 1073741824);
    lemma_half_even_whole(k * 10, 1024);
    lemma_half_even_whole(k * 10, 1048576);
    lemma_half_even_whole(k * 100, 1073741824);
    assert(k * 1024 * 10 == k * 10 * 1024);
    assert(k * 1048576 * 10 == k * 10 * 1048576);
    assert(k * 1073741824 * 100 == k * 100 * 1073741824);
    assert(k * 10 / 10 == k && k * 10 % 10 == 0);
    assert(k * 100 / 100 == k && k * 100 % 10 == 0 && k * 100 / 10 % 10 == 0);
    assert(one_place(k * 10) =~= dec(k) + ".0"@);
    assert(two_places(k * 100) =~= dec(k) + ".00"@);
}

} // verus!
