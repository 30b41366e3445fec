//! Time as the `chrono` crate gives it, in milliseconds since the Unix epoch.
use vstd::prelude::*;

use chrono::TimeZone;

verus! {

/// The first millisecond `chrono` represents as a `DateTime<Utc>`:
/// `DateTime::<Utc>::MIN_UTC`, January 1 of year -262143 at midnight.
pub open spec fn chrono_min_millis() -> int {
    -8_334_601_228_800_000
}

/// The last millisecond `chrono` represents as a `DateTime<Utc>`:
/// `DateTime::<Utc>::MAX_UTC`, December 31 of year 262142 at 23:59:59.999.
pub open spec fn chrono_max_millis() -> int {
    8_210_266_876_799_999
}

/// Whether `millis` milliseconds after the Unix epoch lie in `chrono`'s range.
pub open spec fn millis_representable(millis: int) -> bool {
    chrono_min_millis() <= millis <= chrono_max_millis()
}

/// Whether `chrono` can represent the instant `millis` milliseconds after the
/// Unix epoch as a `DateTime<Utc>`.
pub open spec fn chrono_millis_in_range(millis: i64) -> bool {
    millis_representable(millis as int)
}

/// Calls `chrono::Utc.timestamp_millis_opt(millis).single()` and reads the
/// instant back with `DateTime::timestamp_millis`. The contract claims that a
/// `DateTime` exists exactly when `millis` lies between `MIN_UTC` and
/// `MAX_UTC`, and that it round-trips to the same milliseconds (as
/// `from_timestamp_millis` documents).
#[verifier::external_body]
pub(crate) fn utc_from_millis(millis: i64) -> (r: Option<i64>)
    ensures
        r == (if chrono_millis_in_range(millis) {
            Some(millis)
        } else {
            None
        }),
{
    chrono::Utc.timestamp_millis_opt(millis).single().map(|dt| dt.timestamp_millis())
}

/// Calls `chrono::DateTime::from_timestamp(secs, nanos)` and reads the
/// instant back with `DateTime::timestamp_millis`. The contract claims, for
/// nanoseconds below one second (no leap second), that a `DateTime` exists
/// exactly when the instant's milliseconds lie in `chrono`'s range, and that
/// its milliseconds are `secs * 1000 + nanos / 1_000_000` (the nanoseconds
/// rounded down, as `timestamp_subsec_millis` does). What it gives for a leap
/// second is left unsaid.
#[verifier::external_body]
fn utc_millis_from_timestamp(secs: i64, nanos: u32) -> (r: Option<i64>)
    ensures
        nanos < 1_000_000_000 ==> r == (if millis_representable(secs * 1000 + nanos / 1_000_000) {
            Some((secs * 1000 + nanos / 1_000_000) as i64)
        } else {
            None
        }),
{
    chrono::DateTime::from_timestamp(secs, nanos).map(|dt| dt.timestamp_millis())
}

/// The system clock's reading.
#[verifier::external_type_specification]
#[verifier::external_body]
pub struct ExSystemTime(std::time::SystemTime);

/// Calls `std::time::SystemTime::now`. Nothing is stated of the result: it is
/// the current time.
#[verifier::external_body]
fn system_now() -> std::time::SystemTime {
    std::time::SystemTime::now()
}

/// Calls `SystemTime::duration_since(UNIX_EPOCH)` on `time` and returns the
/// whole seconds and the nanoseconds of the second (`as_secs`,
/// `subsec_nanos`), or `None` when `time` lies before the epoch. The contract
/// claims only that the nanoseconds stay below one second, as `Duration`
/// documents for `subsec_nanos`.
#[verifier::external_body]
fn since_unix_epoch(time: &std::time::SystemTime) -> (r: Option<(u64, u32)>)
    ensures
        r matches Some((_, nanos)) ==> nanos < 1_000_000_000,
{
    time.duration_since(std::time::UNIX_EPOCH).ok().map(|d| (d.as_secs(), d.subsec_nanos()))
}

/// The current time in milliseconds since the Unix epoch, built as
/// `chrono::Utc::now` builds it; `None` where `Utc::now` would panic: when the
/// clock reads before the epoch or beyond what `chrono` represents. A result
/// is always an instant `chrono` can represent.
pub fn current_millis() -> (r: Option<i64>)
    ensures
        r matches Some(m) ==> chrono_millis_in_range(m),
{
    let time = system_now();
    match since_unix_epoch(&time) {
        None => None,
        Some((secs, nanos)) => {
            if secs <= 9_223_372_036_854_775_807u64 {
                utc_millis_from_timestamp(secs as i64, nanos)
            } else {
                None
            }
        },
    }
}

} // verus!
