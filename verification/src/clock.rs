//! The system clock, read in milliseconds since the Unix epoch.

use std::time::{SystemTimeError, UNIX_EPOCH};

use vstd::prelude::*;

verus! {

#[verifier::external_type_specification]
#[verifier::external_body]
pub struct ExSystemTimeError(SystemTimeError);

/// `SystemTime::elapsed`, from the Unix epoch: how long ago that was by the
/// system clock, in whole milliseconds, or an error where the clock shows an
/// earlier time. Nothing is claimed of either: the clock decides.
#[verifier::external_body]
fn elapsed_since_epoch() -> (res: Result<u128, SystemTimeError>) {
    match UNIX_EPOCH.elapsed() {
        Ok(elapsed) => Ok(elapsed.as_millis()),
        Err(e) => Err(e),
    }
}

/// The system clock is set before the Unix epoch.
#[derive(Debug, Clone, Copy, PartialEq, Eq, Structural)]
pub struct ClockError;

/// The time that an answer of the clock gives: what has elapsed since the Unix
/// epoch. It fails exactly where the clock gives an earlier time.
pub fn time_of(elapsed: Result<u128, SystemTimeError>) -> (res: Result<u128, ClockError>)
    ensures
        res == match elapsed {
            Ok(ms) => Ok::<u128, ClockError>(ms),
            Err(_) => Err(ClockError),
        },
{
    match elapsed {
        Ok(ms) => Ok(ms),
        Err(_) => Err(ClockError),
    }
}

/// The current time in milliseconds since the Unix epoch, or an error where
/// the system clock is set before it. Which of them it is, and what time, is
/// the clock's to say: `time_of` states what each of its answers gives.
pub fn now_ms() -> (res: Result<u128, ClockError>) {
    time_of(elapsed_since_epoch())
}

} // verus!
