//! The wall clock, read through `std::time`.

use std::time::{Duration, SystemTime, SystemTimeError};
use vstd::prelude::*;

use crate::error::Error;

verus! {

/// `std::time::SystemTime`, a reading of the system clock. Nothing is known
/// of its inside.
#[verifier::external_type_specification]
#[verifier::external_body]
pub struct ExSystemTime(SystemTime);

/// `std::time::SystemTimeError`, the error of a reading that lies before
/// the time it is compared with. Nothing is known of its inside.
#[verifier::external_type_specification]
#[verifier::external_body]
pub struct ExSystemTimeError(SystemTimeError);

/// `SystemTime::now`: the current reading of the system clock. Nothing is
/// claimed of it.
#[verifier::external_body]
fn clock_now() -> SystemTime {
    SystemTime::now()
}

/// `SystemTime::duration_since` the Unix epoch: how long after the epoch
/// a reading lies, or an error where it lies before. Nothing is claimed of
/// it.
#[verifier::external_body]
fn since_epoch(reading: &SystemTime) -> Result<Duration, SystemTimeError> {
    reading.duration_since(SystemTime::UNIX_EPOCH)
}

/// `Duration::as_secs`: the whole seconds of a duration. Nothing is
/// claimed of it.
#[verifier::external_body]
fn whole_seconds(duration: &Duration) -> u64 {
    duration.as_secs()
}

/// The current time in whole seconds since the Unix epoch. The only error
/// is `ClockBeforeEpoch`.
pub fn unix_time() -> (r: Result<u64, Error>)
    ensures
        r matches Err(e) ==> e == Error::ClockBeforeEpoch,
{
    let reading = clock_now();
    match since_epoch(&reading) {
        Ok(duration) => Ok(whole_seconds(&duration)),
        Err(_) => Err(Error::ClockBeforeEpoch),
    }
}

} // verus!
