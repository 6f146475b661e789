//! Wall-clock and identifier sources.

use vstd::prelude::*;

verus! {

/// The time since the Unix epoch as whole seconds and nanoseconds, or
/// `None` when the clock reads before the epoch. Relies on
/// `SystemTime::now` and `SystemTime::duration_since` (which fails exactly
/// when the clock is earlier); nothing is promised of the value.
#[verifier::external_body]
fn clock_reading() -> Option<(u64, u32)> {
    std::time::SystemTime::now().duration_since(std::time::UNIX_EPOCH).ok().map(|d| (d.as_secs(), d.subsec_nanos()))
}

/// Seconds since the epoch for a clock reading: 0 before the epoch, the
/// whole seconds otherwise, saturated at `i64::MAX`.
pub open spec fn epoch_seconds_of(reading: Option<(u64, u32)>) -> i64 {
    match reading {
        Some((s, _)) => if s <= i64::MAX as u64 {
            s as i64
        } else {
            i64::MAX
        },
        None => 0,
    }
}

pub fn epoch_seconds(reading: Option<(u64, u32)>) -> (r: i64)
    ensures
        r == epoch_seconds_of(reading),
{
    match reading {
        Some((s, _)) => if s <= i64::MAX as u64 {
            s as i64
        } else {
            i64::MAX
        },
        None => 0,
    }
}

/// Seconds since the Unix epoch for the clock as it reads now.
pub fn now_epoch() -> (r: i64)
    ensures
        exists|reading: Option<(u64, u32)>| r == #[trigger] epoch_seconds_of(reading),
{
    let reading = clock_reading();
    epoch_seconds(reading)
}

/// A version-7 identifier for the given time since the epoch, with random
/// low bits. Relies on `uuid::Timestamp::from_unix_time`,
/// `uuid::Uuid::new_v7` and the `Display` of `Uuid`, which writes the
/// hyphenated form of 36 characters.
#[verifier::external_body]
fn v7_id(seconds: u64, nanos: u32) -> (r: String)
    ensures
        r@.len() == 36,
{
    uuid::Uuid::new_v7(uuid::Timestamp::from_unix_time(seconds, nanos, 0, 0)).to_string()
}

/// A fresh time-ordered identifier, stamped with the clock reading (the
/// epoch itself when the clock reads before it).
pub fn new_time_ordered_id() -> (r: String)
    ensures
        r@.len() == 36,
{
    match clock_reading() {
        Some((s, n)) => v7_id(s, n),
        None => v7_id(0, 0),
    }
}

} // verus!
