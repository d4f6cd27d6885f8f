//! The wall clock, as far as the timer governor needs it.
//!
//! Everything here is taken on trust from the standard library. Nothing is claimed about the
//! values that come back: they depend on when the calls are made.
use std::time::Duration;
use std::time::SystemTime;
use std::time::SystemTimeError;
use vstd::prelude::*;

verus! {

/// `std::time::SystemTime`, carried as an opaque value.
#[verifier::external_type_specification]
#[verifier::external_body]
pub struct ExSystemTime(SystemTime);

/// `std::time::SystemTimeError`, carried as an opaque value.
#[verifier::external_type_specification]
#[verifier::external_body]
pub struct ExSystemTimeError(SystemTimeError);

/// `SystemTime::now`: the current time. Nothing is claimed of it.
pub assume_specification[ SystemTime::now ]() -> (now: SystemTime);

/// `SystemTime::elapsed`: the time that has passed since `since`, or an error where the clock
/// has gone backwards. Nothing is claimed of either.
pub assume_specification[ SystemTime::elapsed ](since: &SystemTime) -> (elapsed: Result<
    Duration,
    SystemTimeError,
>);

/// `Duration::as_millis`: the whole milliseconds in `duration`. Nothing is claimed of the number.
pub assume_specification[ Duration::as_millis ](duration: &Duration) -> (millis: u128);

} // verus!
