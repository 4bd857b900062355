//! Start instants and the calendar texts derived from them. The calendar
//! arithmetic itself is chrono's; this module hands it plain values.
use vstd::prelude::*;

use crate::domain::StartTime;

verus! {

/// The instant that `chrono::DateTime::parse_from_rfc3339` reads from a
/// text, as `(seconds since the epoch, sub-second nanoseconds, offset in
/// seconds east of UTC)`, or `None` when it rejects the text.
pub uninterp spec fn rfc3339_instant(text: Seq<char>) -> Option<(i64, u32, i32)>;

/// The text `chrono::DateTime::to_rfc3339` writes for an instant, or `None`
/// when chrono cannot represent the instant.
pub uninterp spec fn rfc3339_text(seconds: i64, nanos: u32, offset: i32) -> Option<Seq<char>>;

/// The local calendar date (`YYYY-MM-DD`) that `date_naive().to_string()`
/// gives for an instant, or `None` when chrono cannot represent the instant
/// or its local time.
pub uninterp spec fn local_date_text(seconds: i64, nanos: u32, offset: i32) -> Option<Seq<char>>;

/// The local time of day (`HH:MM`) that chrono's `%H:%M` formatting gives
/// for an instant, or `None` when chrono cannot represent the instant or its
/// local time.
pub uninterp spec fn local_clock_text(seconds: i64, nanos: u32, offset: i32) -> Option<Seq<char>>;

/// Trusted: `chrono::DateTime::parse_from_rfc3339`, read back as plain values.
#[verifier::external_body]
pub(crate) fn parse_rfc3339(text: &str) -> (r: Option<StartTime>)
    ensures
        r matches Some(t) ==> rfc3339_instant(text@) == Some(
            (t.instant_seconds, t.subsec_nanos, t.offset_seconds),
        ),
        r is None ==> rfc3339_instant(text@) is None,
{
    match chrono::DateTime::parse_from_rfc3339(text) {
        Ok(t) => Some(
            StartTime {
                instant_seconds: t.timestamp(),
                subsec_nanos: t.timestamp_subsec_nanos(),
                offset_seconds: t.offset().local_minus_utc(),
            },
        ),
        Err(_) => None,
    }
}

/// Trusted: `chrono::DateTime::to_rfc3339` of the instant rebuilt by
/// `DateTime::from_timestamp` and `FixedOffset::east_opt`.
#[verifier::external_body]
pub(crate) fn format_rfc3339(t: StartTime) -> (r: Option<String>)
    ensures
        r matches Some(s) ==> rfc3339_text(t.instant_seconds, t.subsec_nanos, t.offset_seconds)
            == Some(s@),
        r is None ==> rfc3339_text(t.instant_seconds, t.subsec_nanos, t.offset_seconds) is None,
{
    let utc = chrono::DateTime::from_timestamp(t.instant_seconds, t.subsec_nanos)?;
    let offset = chrono::FixedOffset::east_opt(t.offset_seconds)?;
    Some(utc.with_timezone(&offset).to_rfc3339())
}

/// Trusted: the local calendar date of the instant rebuilt by
/// `DateTime::from_timestamp` and `FixedOffset::east_opt`, computed as
/// `date_naive` does (`naive_utc` plus the offset, then `date`), but through
/// `NaiveDateTime::checked_add_offset`, so that a local time outside chrono's
/// range gives `None` where `date_naive` would panic.
#[verifier::external_body]
pub(crate) fn format_local_date(t: StartTime) -> (r: Option<String>)
    ensures
        r matches Some(s) ==> local_date_text(t.instant_seconds, t.subsec_nanos, t.offset_seconds)
            == Some(s@),
        r is None ==> local_date_text(t.instant_seconds, t.subsec_nanos, t.offset_seconds) is None,
{
    let utc = chrono::DateTime::from_timestamp(t.instant_seconds, t.subsec_nanos)?;
    let offset = chrono::FixedOffset::east_opt(t.offset_seconds)?;
    Some(utc.naive_utc().checked_add_offset(offset)?.date().to_string())
}

/// Trusted: the local time of day of the instant rebuilt by
/// `DateTime::from_timestamp` and `FixedOffset::east_opt`, moved to local
/// time by `NaiveDateTime::checked_add_offset` and written with `%H:%M`.
#[verifier::external_body]
pub(crate) fn format_local_clock(t: StartTime) -> (r: Option<String>)
    ensures
        r matches Some(s) ==> local_clock_text(t.instant_seconds, t.subsec_nanos, t.offset_seconds)
            == Some(s@),
        r is None ==> local_clock_text(t.instant_seconds, t.subsec_nanos, t.offset_seconds) is None,
{
    let utc = chrono::DateTime::from_timestamp(t.instant_seconds, t.subsec_nanos)?;
    let offset = chrono::FixedOffset::east_opt(t.offset_seconds)?;
    Some(utc.naive_utc().checked_add_offset(offset)?.format("%H:%M").to_string())
}

/// Trusted: `chrono::Local::now()` with its offset. It depends on the clock
/// and the machine's time zone; what is stated holds of every instant chrono
/// can represent (years -262143 to 262142), of every `FixedOffset` (less
/// than a day either way) and of `timestamp_subsec_nanos` (below two
/// seconds, leap seconds included).
#[verifier::external_body]
pub(crate) fn local_now() -> (r: StartTime)
    ensures
        -10_000_000_000_000 <= r.instant_seconds <= 10_000_000_000_000,
        r.subsec_nanos < 2_000_000_000,
        -86_400 < r.offset_seconds < 86_400,
{
    let now = chrono::Local::now().fixed_offset();
    StartTime {
        instant_seconds: now.timestamp(),
        subsec_nanos: now.timestamp_subsec_nanos(),
        offset_seconds: now.offset().local_minus_utc(),
    }
}

/// Trusted: the current UTC instant (`std::time::SystemTime::now` turned
/// into a `chrono::DateTime<Utc>`) written by `to_rfc3339`. Which instant
/// depends on the clock; what holds of every reading is that the text is the
/// one `to_rfc3339` writes for some instant at offset zero.
#[verifier::external_body]
pub(crate) fn utc_now_rfc3339() -> (r: String)
    ensures
        exists|s: i64, n: u32| rfc3339_text(s, n, 0) == Some(r@),
{
    chrono::DateTime::<chrono::Utc>::from(std::time::SystemTime::now()).to_rfc3339()
}

/// The local calendar date of an instant, or the empty text when it cannot
/// be represented.
pub fn date_label(t: StartTime) -> (r: String)
    ensures
        r@ == match local_date_text(t.instant_seconds, t.subsec_nanos, t.offset_seconds) {
            Some(d) => d,
            None => Seq::empty(),
        },
{
    match format_local_date(t) {
        Some(d) => d,
        None => String::new(),
    }
}

/// The RFC 3339 text of an instant, or the empty text when it cannot be
/// represented.
pub fn rfc3339_label(t: StartTime) -> (r: String)
    ensures
        r@ == match rfc3339_text(t.instant_seconds, t.subsec_nanos, t.offset_seconds) {
            Some(d) => d,
            None => Seq::empty(),
        },
{
    match format_rfc3339(t) {
        Some(d) => d,
        None => String::new(),
    }
}

} // verus!
