//! Percent-encoding.

use vstd::prelude::*;
use vstd::utf8::encode_utf8;
use crate::text::{
    dec, find_char, lemma_dec_digits, lemma_find_char, lemma_find_char_is, lemma_split_behind,
    lemma_split_none, opt_view, split_on,
};

verus! {

/// A byte that stands for itself in an encoded text.
pub open spec fn unreserved(b: u8) -> bool {
    ||| 48 <= b <= 57
    ||| 65 <= b <= 90
    ||| 97 <= b <= 122
    ||| b == 45
    ||| b == 46
    ||| b == 95
    ||| b == 126
}

/// The upper-case hexadecimal digit of `n`.
pub open spec fn hex_digit(n: int) -> char {
    if n < 10 {
        (48 + n) as char
    } else {
        (55 + n) as char
    }
}

/// What stands for one byte in an encoded text.
pub open spec fn percent_byte(b: u8) -> Seq<char> {
    if unreserved(b) {
        seq![b as char]
    } else {
        seq!['%', hex_digit(b as int / 16), hex_digit(b as int % 16)]
    }
}

/// What stands for some bytes in an encoded text.
pub open spec fn percent_bytes(bytes: Seq<u8>) -> Seq<char>
    decreases bytes.len(),
{
    if bytes.len() == 0 {
        Seq::<char>::empty()
    } else {
        percent_bytes(bytes.drop_last()) + percent_byte(bytes.last())
    }
}

/// `s` with every byte of its UTF-8 form encoded but letters, digits and `-`, `_`, `.`, `~`.
pub open spec fn percent(s: Seq<char>) -> Seq<char> {
    percent_bytes(encode_utf8(s))
}

/// `urlencoding::encode` writes every byte as `%` and two upper-case
/// hexadecimal digits, but letters, digits and `-`, `_`, `.`, `~`, which it
/// keeps.
#[verifier::external_body]
pub(crate) fn url_encode(s: &str) -> (r: String)
    ensures
        r@ == percent(s@),
{
    urlencoding::encode(s).into_owned()
}

/// The text that a percent-encoded text stands for, unless its bytes are no UTF-8.
pub uninterp spec fn percent_decoded(s: Seq<char>) -> Option<Seq<char>>;

/// `urlencoding::decode` undoes percent-encoding: from what encoding makes of
/// a text it gives that text back. Of other input only that the result
/// depends on it alone is known.
#[verifier::external_body]
pub(crate) fn url_decode(s: &str) -> (r: Option<String>)
    ensures
        opt_view(r) == percent_decoded(s@),
        forall|p: Seq<char>| s@ == #[trigger] percent(p) ==> opt_view(r) == Some(p),
{
    urlencoding::decode(s).ok().map(|c| c.into_owned())
}

/// An encoded text holds letters, digits, `-`, `_`, `.`, `~` and `%` only, so
/// it can stand in a query, in a cookie or between quotes.
pub proof fn law_percent_is_plain(s: Seq<char>)
    ensures
        forall|i: int| 0 <= i < percent(s).len() ==> plain_char(#[trigger] percent(s)[i]),
{
    lemma_percent_bytes_plain(encode_utf8(s));
}

/// A character of an encoded text.
pub open spec fn plain_char(c: char) -> bool {
    crate::text::ascii_alnum(c) || c == '-' || c == '_' || c == '.' || c == '~' || c == '%'
}

proof fn lemma_percent_bytes_plain(bytes: Seq<u8>)
    ensures
        forall|i: int|
            0 <= i < percent_bytes(bytes).len() ==> plain_char(#[trigger] percent_bytes(bytes)[i]),
    decreases bytes.len(),
{
    if bytes.len() > 0 {
        lemma_percent_bytes_plain(bytes.drop_last());
        let head = percent_bytes(bytes.drop_last());
        let tail = percent_byte(bytes.last());
        let all = percent_bytes(bytes);
        assert(all == head + tail);
        assert forall|i: int| 0 <= i < all.len() implies plain_char(#[trigger] all[i]) by {
            if i < head.len() {
                assert(all[i] == head[i]);
            } else {
                assert(all[i] == tail[i - head.len()]);
            }
        }
    }
}

// ---------------------------------------------------------------------------
// The parameters of an address
// ---------------------------------------------------------------------------

/// What stands before the first question mark of an address.
pub open spec fn path_of(url: Seq<char>) -> Seq<char> {
    url.take(find_char(url, '?') as int)
}

/// The parameters of an address: what stands behind its first question mark, parted
/// by ampersands.
pub open spec fn params(url: Seq<char>) -> Seq<Seq<char>> {
    split_on(url.skip(find_char(url, '?') as int + 1), '&')
}

/// A text that can stand as one parameter.
pub open spec fn one_param(p: Seq<char>) -> bool {
    forall|i: int| 0 <= i < p.len() ==> #[trigger] p[i] != '&'
}

/// The first parameter of an address.
pub proof fn lemma_first_param(base: Seq<char>, p: Seq<char>)
    requires
        !base.contains('?'),
        one_param(p),
    ensures
        path_of(base + "?"@ + p) == base,
        params(base + "?"@ + p) == seq![p],
        (base + "?"@ + p).contains('?'),
{
    reveal_strlit("?");
    let url = base + "?"@ + p;
    assert forall|j: int| 0 <= j < base.len() implies url[j] != '?' by {
        assert(url[j] == base[j]);
        assert(base.contains(base[j]));
    }
    assert(url[base.len() as int] == '?');
    lemma_find_char_is(url, '?', base.len() as int);
    assert(url.take(base.len() as int) =~= base);
    assert(url.skip(base.len() as int + 1) =~= p);
    lemma_split_none(p, '&');
}

/// A parameter that is added is the last one, and the others stay.
pub proof fn lemma_next_param(url: Seq<char>, p: Seq<char>)
    requires
        url.contains('?'),
        one_param(p),
    ensures
        path_of(url + "&"@ + p) == path_of(url),
        params(url + "&"@ + p) == params(url).push(p),
        (url + "&"@ + p).contains('?'),
{
    reveal_strlit("&");
    let all = url + "&"@ + p;
    lemma_find_char(url, '?');
    let k = find_char(url, '?') as int;
    assert forall|j: int| 0 <= j < k implies all[j] != '?' by {
        assert(all[j] == url[j]);
    }
    assert(all[k] == url[k]);
    lemma_find_char_is(all, '?', k);
    assert(all.take(k) =~= url.take(k));
    assert(all.skip(k + 1) =~= url.skip(k + 1) + seq!['&'] + p);
    lemma_split_behind(url.skip(k + 1), p, '&');
}

/// A name, an equals sign and an encoded value are one parameter.
pub proof fn lemma_encoded_param(name: Seq<char>, value: Seq<char>)
    requires
        one_param(name),
    ensures
        one_param(name + percent(value)),
{
    law_percent_is_plain(value);
    let p = name + percent(value);
    assert forall|i: int| 0 <= i < p.len() implies #[trigger] p[i] != '&' by {
        if i < name.len() {
            assert(p[i] == name[i]);
        } else {
            assert(plain_char(percent(value)[i - name.len()]));
        }
    }
}

/// An address with so many parameters, one after the other.
pub open spec fn with_params(base: Seq<char>, ps: Seq<Seq<char>>) -> Seq<char>
    decreases ps.len(),
{
    if ps.len() <= 1 {
        base + "?"@ + ps[0]
    } else {
        with_params(base, ps.drop_last()) + "&"@ + ps.last()
    }
}

pub proof fn lemma_with_params(base: Seq<char>, ps: Seq<Seq<char>>)
    requires
        ps.len() >= 1,
        !base.contains('?'),
        forall|i: int| 0 <= i < ps.len() ==> one_param(#[trigger] ps[i]),
    ensures
        path_of(with_params(base, ps)) == base,
        params(with_params(base, ps)) == ps,
        with_params(base, ps).contains('?'),
    decreases ps.len(),
{
    if ps.len() == 1 {
        lemma_first_param(base, ps[0]);
        assert(seq![ps[0]] =~= ps);
    } else {
        let head = ps.drop_last();
        assert forall|i: int| 0 <= i < head.len() implies one_param(#[trigger] head[i]) by {
            assert(head[i] == ps[i]);
        }
        lemma_with_params(base, head);
        assert(one_param(ps[ps.len() - 1]));
        lemma_next_param(with_params(base, head), ps.last());
        assert(head.push(ps.last()) =~= ps);
    }
}

pub proof fn lemma_push_param(base: Seq<char>, ps: Seq<Seq<char>>, p: Seq<char>)
    requires
        ps.len() >= 1,
    ensures
        with_params(base, ps.push(p)) == with_params(base, ps) + "&"@ + p,
{
    assert(ps.push(p).drop_last() =~= ps);
}

/// A name, an equals sign and a number are one parameter.
pub proof fn lemma_number_param(name: Seq<char>, n: nat)
    requires
        one_param(name),
    ensures
        one_param(name + dec(n)),
{
    lemma_dec_digits(n);
    let p = name + dec(n);
    assert forall|i: int| 0 <= i < p.len() implies #[trigger] p[i] != '&' by {
        if i < name.len() {
            assert(p[i] == name[i]);
        } else {
            assert(p[i] == dec(n)[i - name.len()]);
        }
    }
}

} // verus!
