//! Wall-clock time, in milliseconds since the Unix epoch (UTC).

use chrono::{DateTime, Utc};
use core::time::Duration;
use std::time::{SystemTime, UNIX_EPOCH};
use vstd::prelude::*;

verus! {

#[verifier::external_type_specification]
#[verifier::external_body]
pub struct ExSystemTime(SystemTime);

/// What `chrono`'s `DateTime::<Utc>::from_timestamp_millis(ms)` followed by `to_rfc3339` gives:
/// the RFC 3339 text of that instant, or nothing when it is out of `chrono`'s range.
pub uninterp spec fn rfc3339_of_millis(ms: i64) -> Option<Seq<char>>;

/// `std`'s `SystemTime::now()`: the machine's clock. Its value is the clock's, so nothing is
/// claimed of it.
#[verifier::external_body]
fn system_now() -> SystemTime {
    SystemTime::now()
}

/// `std`'s `SystemTime::duration_since(UNIX_EPOCH)`: how long after the Unix epoch `t` is, or
/// nothing when `t` is before it. Nothing more is claimed of the duration, which Verus cannot
/// see.
#[verifier::external_body]
fn since_epoch(t: SystemTime) -> Option<Duration> {
    t.duration_since(UNIX_EPOCH).ok()
}

/// `std`'s `Duration::as_millis`: the whole milliseconds of `d`, which Verus cannot see.
#[verifier::external_body]
fn duration_millis(d: Duration) -> u128 {
    d.as_millis()
}

/// The current time in milliseconds since the Unix epoch, as the machine's clock gives it. A
/// clock set before 1970 reads as 0, and one beyond `i64::MAX` milliseconds as `i64::MAX`.
pub fn now_millis() -> (ms: i64)
    ensures
        ms >= 0,
{
    match since_epoch(system_now()) {
        None => 0,
        Some(d) => {
            let ms = duration_millis(d);
            if ms <= 0x7fff_ffff_ffff_ffff {
                ms as i64
            } else {
                0x7fff_ffff_ffff_ffff
            }
        },
    }
}

/// `chrono`'s `DateTime::<Utc>::from_timestamp_millis(ms)` rendered with `to_rfc3339`.
#[verifier::external_body]
pub fn millis_to_rfc3339(ms: i64) -> (s: Option<String>)
    ensures
        s matches Some(t) ==> rfc3339_of_millis(ms) == Some(t@),
        s is None ==> rfc3339_of_millis(ms) is None,
{
    DateTime::<Utc>::from_timestamp_millis(ms).map(|dt| dt.to_rfc3339())
}

/// The current time (see `now_millis`) as RFC 3339 text, or nothing when `chrono` cannot
/// represent it.
pub fn now_rfc3339() -> (s: Option<String>)
    ensures
        s matches Some(t) ==> exists|ms: i64| ms >= 0 && rfc3339_of_millis(ms) == Some(t@),
{
    let ms = now_millis();
    millis_to_rfc3339(ms)
}

} // verus!
