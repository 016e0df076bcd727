//! Instants as plain values, and their RFC 3339 text through the `time`
//! crate.
use vstd::prelude::*;

use time::format_description::well_known::Rfc3339;
use time::{OffsetDateTime, UtcOffset};

use crate::text::is_digit;

verus! {

/// An instant with the UTC offset it was written in.
#[derive(Debug, Clone, Copy, PartialEq, Eq, Structural)]
pub struct Timestamp {
    /// Whole seconds since the Unix epoch.
    pub unix_s: i64,
    /// Nanoseconds within the second.
    pub nanos: u32,
    /// Offset from UTC, in seconds.
    pub offset_s: i32,
}

/// What `OffsetDateTime::parse(_, &Rfc3339)` reads from a text.
pub uninterp spec fn rfc3339_parsed(s: Seq<char>) -> Option<Timestamp>;

/// What `OffsetDateTime::format(&Rfc3339)` writes for an instant; empty where
/// the instant cannot be written.
pub uninterp spec fn rfc3339_text(t: Timestamp) -> Seq<char>;

/// The characters that RFC 3339 text is made of.
pub open spec fn rfc3339_char(c: char) -> bool {
    is_digit(c) || c == '-' || c == ':' || c == 'T' || c == 'Z' || c == '+' || c == '.'
}

/// Relies on `time::OffsetDateTime::parse` with `Rfc3339`: it reads the
/// text alone, and an instant it accepts has its nanoseconds below one
/// second.
#[verifier::external_body]
pub(crate) fn parse_rfc3339(s: &str) -> (r: Option<Timestamp>)
    ensures
        r == rfc3339_parsed(s@),
        r matches Some(t) ==> t.nanos < 1_000_000_000,
{
    match OffsetDateTime::parse(s, &Rfc3339) {
        Ok(v) => Some(Timestamp {
            unix_s: v.unix_timestamp(),
            nanos: v.nanosecond(),
            offset_s: v.offset().whole_seconds(),
        }),
        Err(_) => None,
    }
}

/// Relies on `time::OffsetDateTime::format` with `Rfc3339`: the text is
/// digits and `-:T.Z+` (it begins with the four-digit year), empty where the
/// instant cannot be written, and reads back as the same instant.
#[verifier::external_body]
pub(crate) fn format_rfc3339(t: Timestamp) -> (r: String)
    ensures
        r@ == rfc3339_text(t),
        forall|i: int| 0 <= i < r@.len() ==> rfc3339_char(#[trigger] r@[i]),
        r@.len() > 0 ==> is_digit(r@[0]) && rfc3339_parsed(r@) == Some(t),
{
    let odt = OffsetDateTime::from_unix_timestamp(t.unix_s).ok().and_then(
        |d| d.replace_nanosecond(t.nanos).ok(),
    ).and_then(|d| UtcOffset::from_whole_seconds(t.offset_s).ok().and_then(|o| d.checked_to_offset(o)));
    match odt {
        Some(d) => d.format(&Rfc3339).unwrap_or_default(),
        None => String::new(),
    }
}

/// The instant in nanoseconds since the epoch.
pub open spec fn instant_ns(t: Timestamp) -> int {
    t.unix_s * 1_000_000_000 + t.nanos
}

/// Whole seconds from `seen` to `now`, and zero where `now` is not later.
pub open spec fn age_secs(seen: Timestamp, now: Timestamp) -> int {
    let d = instant_ns(now) - instant_ns(seen);
    if d <= 0 {
        0
    } else {
        d / 1_000_000_000
    }
}

/// Whole seconds from `seen` to `now`, never negative.
pub fn age_seconds(seen: Timestamp, now: Timestamp) -> (r: i128)
    ensures
        r == age_secs(seen, now),
        r >= 0,
{
    let d: i128 = ((now.unix_s as i128) - (seen.unix_s as i128)) * 1_000_000_000 + (now.nanos as i128)
        - (seen.nanos as i128);
    if d <= 0 {
        0
    } else {
        d / 1_000_000_000
    }
}

/// Whether `a` is a later instant than `b`.
pub fn is_later(a: Timestamp, b: Timestamp) -> (r: bool)
    ensures
        r == (instant_ns(a) > instant_ns(b)),
{
    let da: i128 = (a.unix_s as i128) * 1_000_000_000 + (a.nanos as i128);
    let db: i128 = (b.unix_s as i128) * 1_000_000_000 + (b.nanos as i128);
    da > db
}

} // verus!
