//! Readings of the system clock, and the arithmetic that is done on them.
use std::time::{Duration, SystemTime, SystemTimeError};
use vstd::prelude::*;

verus! {

/// `std::time::SystemTime`, carried through opaquely.
#[verifier::external_type_specification]
#[verifier::external_body]
pub struct ExSystemTime(SystemTime);

/// `std::time::SystemTimeError`, carried through opaquely.
#[verifier::external_type_specification]
#[verifier::external_body]
pub struct ExSystemTimeError(SystemTimeError);

/// `std::time::SystemTime::now`. Nothing is claimed of the time that it reports.
pub assume_specification[ SystemTime::now ]() -> SystemTime;

/// `std::time::Duration::as_millis`. Nothing is claimed of the number.
pub assume_specification[ Duration::as_millis ](duration: &Duration) -> u128;

/// `std::time::SystemTime::duration_since`, applied to the Unix epoch. Nothing is claimed of the
/// duration, nor of when the clock stands before the epoch.
#[verifier::external_body]
fn since_unix_epoch(time: &SystemTime) -> Result<Duration, SystemTimeError> {
    time.duration_since(std::time::UNIX_EPOCH)
}

/// A count of milliseconds as 64 bits can hold it: past their range it stays at the maximum.
pub fn clamp_millis(millis: u128) -> (r: u64)
    ensures
        r == if millis <= u64::MAX { millis as int } else { u64::MAX as int },
{
    if millis <= u64::MAX as u128 {
        millis as u64
    } else {
        u64::MAX
    }
}

/// Milliseconds since the Unix epoch by the system clock, as `epoch_millis` reports them.
pub(crate) fn now_ms() -> u64 {
    let elapsed = match since_unix_epoch(&SystemTime::now()) {
        Ok(elapsed) => Some(elapsed.as_millis()),
        Err(_) => None,
    };
    epoch_millis(elapsed)
}

/// The milliseconds that are reported for what the clock has counted since the Unix epoch, which
/// is nothing where it stands before it.
pub fn epoch_millis(elapsed: Option<u128>) -> (r: u64)
    ensures
        r == match elapsed {
            Some(millis) => if millis <= u64::MAX { millis as int } else { u64::MAX as int },
            None => 0,
        },
{
    match elapsed {
        Some(millis) => clamp_millis(millis),
        None => 0,
    }
}

} // verus!
