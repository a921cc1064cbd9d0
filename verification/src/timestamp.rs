//! Instants in UTC, the time between them, and their written forms.

use chrono::DateTime;
use vstd::prelude::*;

use crate::quantity;

verus! {

/// An instant in UTC: seconds since 1970 and nanoseconds of the second. In a
/// leap second the nanoseconds go beyond 999,999,999.
#[derive(Clone, Copy, Debug, PartialEq, Eq, Structural)]
pub struct Timestamp {
    pub secs: i64,
    pub nanos: u32,
}

/// Nanoseconds in a second.
pub const NANOS_PER_SEC: u32 = 1_000_000_000;

/// The last second of the calendar, in the year 262142.
pub const LAST_SECOND: i64 = 8_210_266_876_799;

impl Timestamp {
    /// Between 1970 and the end of the calendar, outside a leap second.
    pub open spec fn in_calendar(self) -> bool {
        0 <= self.secs <= LAST_SECOND && self.nanos < NANOS_PER_SEC
    }
}

/// The leap second that lies between two instants, where one of them is in it.
/// The times of day tell on which side of it the other is.
pub open spec fn leap_between(later: Timestamp, earlier: Timestamp) -> int {
    let later_time = later.secs as int % 86_400;
    let earlier_time = earlier.secs as int % 86_400;
    if later_time > earlier_time && earlier.nanos >= NANOS_PER_SEC {
        1
    } else if later_time < earlier_time && later.nanos >= NANOS_PER_SEC {
        -1
    } else {
        0
    }
}

/// The nanoseconds from `earlier` to `later`.
pub open spec fn nanos_between(later: Timestamp, earlier: Timestamp) -> int {
    (later.secs - earlier.secs + leap_between(later, earlier)) * 1_000_000_000 + (later.nanos
        - earlier.nanos)
}

/// The whole seconds from `earlier` to `later`, toward zero.
pub open spec fn seconds_between(later: Timestamp, earlier: Timestamp) -> int {
    quantity::quotient(nanos_between(later, earlier), 1_000_000_000)
}

/// The whole days from `earlier` to `later`, toward zero.
pub open spec fn days_between(later: Timestamp, earlier: Timestamp) -> int {
    quantity::quotient(seconds_between(later, earlier), 86_400)
}

/// The whole hours from `earlier` to `later`, toward zero.
pub open spec fn hours_between(later: Timestamp, earlier: Timestamp) -> int {
    quantity::quotient(seconds_between(later, earlier), 3_600)
}

fn whole_seconds(later: Timestamp, earlier: Timestamp) -> (r: i128)
    ensures
        r == seconds_between(later, earlier),
        -0x2_0000_0000_0000_0000 <= r <= 0x2_0000_0000_0000_0000,
{
    let later_time: i64 = time_of_day(later.secs);
    let earlier_time: i64 = time_of_day(earlier.secs);
    let leap: i128 = if later_time > earlier_time && earlier.nanos >= NANOS_PER_SEC {
        1
    } else if later_time < earlier_time && later.nanos >= NANOS_PER_SEC {
        -1
    } else {
        0
    };
    let secs: i128 = later.secs as i128 - earlier.secs as i128 + leap;
    let nanos: i128 = secs * 1_000_000_000 + (later.nanos as i128 - earlier.nanos as i128);
    if nanos >= 0 {
        nanos / 1_000_000_000
    } else {
        -((-nanos) / 1_000_000_000)
    }
}

fn time_of_day(secs: i64) -> (r: i64)
    ensures
        r == secs as int % 86_400,
{
    if secs >= 0 {
        secs % 86_400
    } else {
        let back: i128 = (-(secs as i128)) % 86_400;
        if back == 0 {
            0
        } else {
            (86_400 - back) as i64
        }
    }
}

/// The whole days from `earlier` to `later`, toward zero.
pub fn num_days(later: Timestamp, earlier: Timestamp) -> (r: i64)
    ensures
        r == days_between(later, earlier),
{
    let secs: i128 = whole_seconds(later, earlier);
    if secs >= 0 {
        (secs / 86_400) as i64
    } else {
        (-((-secs) / 86_400)) as i64
    }
}

/// The whole hours from `earlier` to `later`, toward zero.
pub fn num_hours(later: Timestamp, earlier: Timestamp) -> (r: i64)
    ensures
        r == hours_between(later, earlier),
{
    let secs: i128 = whole_seconds(later, earlier);
    if secs >= 0 {
        (secs / 3_600) as i64
    } else {
        (-((-secs) / 3_600)) as i64
    }
}

/// The instant that an RFC 3339 text stands for: seconds since 1970 in UTC and
/// nanoseconds of the second.
pub uninterp spec fn rfc3339_instant(text: Seq<char>) -> Option<(i64, u32)>;

/// `chrono::DateTime::parse_from_rfc3339`, with the seconds since 1970 in UTC
/// and the nanoseconds of the second taken from the date. `None` where the text
/// is not RFC 3339. Reads nothing but the text.
#[verifier::external_body]
fn read_rfc3339(s: &str) -> (r: Option<(i64, u32)>)
    ensures
        r == rfc3339_instant(s@),
{
    match DateTime::parse_from_rfc3339(s) {
        Ok(d) => Some((d.timestamp(), d.timestamp_subsec_nanos())),
        Err(_) => None,
    }
}

/// The instant that a text stands for, where it is RFC 3339.
pub open spec fn instant_of(text: Seq<char>) -> Option<Timestamp> {
    match rfc3339_instant(text) {
        Some((secs, nanos)) => Some(Timestamp { secs, nanos }),
        None => None,
    }
}

/// Reads an instant in RFC 3339.
pub fn parse_rfc3339(s: &str) -> (r: Option<Timestamp>)
    ensures
        r == instant_of(s@),
{
    match read_rfc3339(s) {
        Some((secs, nanos)) => Some(Timestamp { secs, nanos }),
        None => None,
    }
}

/// The date of an instant in UTC, written "YYYY-MM-DD".
pub uninterp spec fn utc_date(secs: i64, nanos: u32) -> Seq<char>;

/// `chrono`'s `DateTime::from_timestamp` and `format("%Y-%m-%d")`. The bounds
/// are those within which `from_timestamp` gives a date.
#[verifier::external_body]
pub(crate) fn date_text(t: Timestamp) -> (r: String)
    requires
        t.in_calendar(),
    ensures
        r@ == utc_date(t.secs, t.nanos),
{
    DateTime::from_timestamp(t.secs, t.nanos).unwrap().format("%Y-%m-%d").to_string()
}

/// An instant in UTC, written in RFC 3339.
pub uninterp spec fn utc_rfc3339(secs: i64, nanos: u32) -> Seq<char>;

/// `chrono`'s `DateTime::from_timestamp` and `to_rfc3339`. The bounds are those
/// within which `from_timestamp` gives a date.
#[verifier::external_body]
pub(crate) fn rfc3339_text(t: Timestamp) -> (r: String)
    requires
        t.in_calendar(),
    ensures
        r@ == utc_rfc3339(t.secs, t.nanos),
{
    DateTime::from_timestamp(t.secs, t.nanos).unwrap().to_rfc3339()
}

/// Outside leap seconds, a span is as many whole days and hours as fit into it,
/// and backwards it is as many below zero.
pub proof fn law_spans_are_whole_days_and_hours(later: Timestamp, earlier: Timestamp)
    requires
        later.nanos < 1_000_000_000,
        earlier.nanos < 1_000_000_000,
        later.secs > earlier.secs || (later.secs == earlier.secs && later.nanos >= earlier.nanos),
    ensures
        ({
            let span = (later.secs - earlier.secs) * 1_000_000_000 + later.nanos - earlier.nanos;
            let days = days_between(later, earlier);
            let hours = hours_between(later, earlier);
            &&& days >= 0
            &&& days * 86_400_000_000_000 <= span < (days + 1) * 86_400_000_000_000
            &&& hours >= 0
            &&& hours * 3_600_000_000_000 <= span < (hours + 1) * 3_600_000_000_000
            &&& days_between(earlier, later) == -days
            &&& hours_between(earlier, later) == -hours
        }),
{
}

/// A span backwards is the span with its sign changed, leap seconds or not.
pub proof fn law_spans_turn_around(a: Timestamp, b: Timestamp)
    ensures
        nanos_between(a, b) == -nanos_between(b, a),
        days_between(a, b) == -days_between(b, a),
        hours_between(a, b) == -hours_between(b, a),
{
}

/// A leap second counts: from within it to a later time of the day a second more
/// goes by than the seconds since 1970 tell.
pub proof fn law_leap_second_counts(later: Timestamp, leap: Timestamp)
    requires
        leap.nanos >= 1_000_000_000,
        later.nanos < 1_000_000_000,
        later.secs as int % 86_400 > leap.secs as int % 86_400,
    ensures
        nanos_between(later, leap) == (later.secs - leap.secs + 1) * 1_000_000_000 + later.nanos
            - leap.nanos,
{
}

} // verus!
