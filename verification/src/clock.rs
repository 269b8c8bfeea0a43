//! Points in time as texts.
//!
//! A point in time is a number of milliseconds since the beginning of 1970,
//! UTC. The program around the library reads the clock.

use vstd::prelude::*;
use crate::text::text_le;

verus! {

/// The first millisecond of the year 0.
pub const FIRST_MS: i64 = -62167219200000;

/// The last millisecond of the year 9999.
pub const LAST_MS: i64 = 253402300799999;

/// `2026-01-31T23:59:59.999Z`.
pub const ISO_MILLIS: &'static str = "%Y-%m-%dT%H:%M:%S%.3fZ";

/// `2026-01-31 23:59 UTC`.
pub const MINUTES: &'static str = "%Y-%m-%d %H:%M UTC";

/// `20260131-235959`.
pub const COMPACT: &'static str = "%Y%m%d-%H%M%S";

/// A point in time that has a text of fixed width.
pub open spec fn in_calendar(ms: int) -> bool {
    FIRST_MS <= ms <= LAST_MS
}

/// A form in which this console writes points in time.
pub open spec fn known_form(form: Seq<char>) -> bool {
    form == ISO_MILLIS@ || form == MINUTES@ || form == COMPACT@
}

/// A point in time in the given form.
pub uninterp spec fn time_text(ms: int, form: Seq<char>) -> Seq<char>;

/// A point in time in ISO-8601.
pub open spec fn iso_stamp(ms: int) -> Seq<char> {
    time_text(ms, ISO_MILLIS@)
}

/// `chrono::DateTime::<Utc>::format` writes a point in time in a form; the
/// text depends on the two alone. In ISO-8601 every part has a fixed width
/// and the largest comes first, so the order of the texts is that of the
/// points in time, and the `T` between date and time has its fixed place.
#[verifier::external_body]
pub(crate) fn format_time(ms: i64, form: &str) -> (r: String)
    requires
        in_calendar(ms as int),
        known_form(form@),
    ensures
        r@ == time_text(ms as int, form@),
        form@ == ISO_MILLIS@ ==> forall|other: int| #![trigger time_text(other, form@)]
            in_calendar(other) ==> (text_le(r@, time_text(other, form@)) <==> ms <= other) && (text_le(
                time_text(other, form@),
                r@,
            ) <==> other <= ms),
        form@ == ISO_MILLIS@ ==> r@.len() == 24 && r@[10] == 'T',
        form@ == ISO_MILLIS@ ==> forall|other: int| #![trigger time_text(other, form@)]
            in_calendar(other) ==> time_text(other, form@).len() == r@.len() && time_text(
                other,
                form@,
            )[10] == r@[10],
{
    chrono::DateTime::<chrono::Utc>::from_timestamp_millis(ms).expect("in range").format(form).to_string()
}

/// Writes a point in time in ISO-8601.
pub fn stamp(ms: i64) -> (r: String)
    requires
        in_calendar(ms as int),
    ensures
        r@ == iso_stamp(ms as int),
        forall|other: int| #![trigger iso_stamp(other)]
            in_calendar(other) ==> (text_le(r@, iso_stamp(other)) <==> ms <= other) && (text_le(
                iso_stamp(other),
                r@,
            ) <==> other <= ms),
        forall|other: int| #![trigger iso_stamp(other)]
            in_calendar(other) ==> iso_stamp(other).len() == 24 && iso_stamp(other)[10] == 'T',
{
    format_time(ms, ISO_MILLIS)
}

/// A point in time that is a number of seconds and of nanoseconds on top,
/// in the form of RFC 3339.
pub uninterp spec fn rfc3339_text(secs: int, nanos: int) -> Seq<char>;

/// `chrono::DateTime::<Utc>::to_rfc3339` writes a point in time in the form
/// of RFC 3339; the text depends on it alone.
#[verifier::external_body]
pub(crate) fn write_rfc3339(secs: i64, nanos: u32) -> (r: String)
    requires
        in_calendar(secs * 1000),
        nanos < 1000000000,
    ensures
        r@ == rfc3339_text(secs as int, nanos as int),
{
    chrono::DateTime::<chrono::Utc>::from_timestamp(secs, nanos).expect("in range").to_rfc3339()
}

/// The first point in time after `now` at which it is three o'clock, UTC.
pub open spec fn next_three(now: int) -> int {
    let today = now - now % 86400000 + 10800000;
    if now < today {
        today
    } else {
        today + 86400000
    }
}

/// How long it is until three o'clock, UTC, in milliseconds.
pub fn until_three(now: i64) -> (r: u64)
    requires
        in_calendar(now as int),
    ensures
        r == next_three(now as int) - now,
        0 < r <= 86400000,
{
    // Moved by 800 000 days, so that the remainder has no negative operand.
    let moved: u64 = (now + 69120000000000) as u64;
    let into: u64 = moved % 86400000;
    assert(into == now as int % 86400000);
    if into < 10800000 {
        10800000 - into
    } else {
        97200000 - into
    }
}

/// The next three o'clock lies in the future, within a day, three hours after midnight.
pub proof fn law_next_three_is_within_a_day(now: int)
    ensures
        now < next_three(now) <= now + 24 * 60 * 60 * 1000,
        next_three(now) % 86400000 == 3 * 60 * 60 * 1000,
{
}

} // verus!
