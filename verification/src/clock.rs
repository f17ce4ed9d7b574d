//! The time of day and monotonic instants.

use vstd::prelude::*;
use std::time::{Duration, Instant, SystemTime, SystemTimeError};

verus! {

/// A monotonic instant, carried as it is.
#[verifier::external_type_specification]
#[verifier::external_body]
pub struct ExInstant(Instant);

/// A time of day on the system clock, carried as it is.
#[verifier::external_type_specification]
#[verifier::external_body]
pub struct ExSystemTime(SystemTime);

/// The error of a system time before the one it is measured from.
#[verifier::external_type_specification]
#[verifier::external_body]
pub struct ExSystemTimeError(SystemTimeError);

/// The current time of day (`SystemTime::now`). Nothing is claimed of it.
#[verifier::external_body]
fn system_now() -> (r: SystemTime) {
    SystemTime::now()
}

/// The time since the Unix epoch (`SystemTime::duration_since(UNIX_EPOCH)`),
/// which fails when `t` is before the epoch. Nothing is claimed of the value.
#[verifier::external_body]
fn since_unix_epoch(t: &SystemTime) -> (r: Result<Duration, SystemTimeError>) {
    t.duration_since(std::time::UNIX_EPOCH)
}

/// The whole seconds of a duration (`Duration::as_secs`). Nothing is claimed
/// of the value, since the duration is opaque here.
#[verifier::external_body]
fn whole_secs(d: &Duration) -> (r: u64) {
    d.as_secs()
}

/// The whole seconds since the Unix epoch on the system clock, or `None` when
/// the clock is set before the epoch.
pub(crate) fn unix_time_secs() -> (r: Option<u64>) {
    let t = system_now();
    match since_unix_epoch(&t) {
        Ok(d) => Some(whole_secs(&d)),
        Err(_) => None,
    }
}

/// The current instant (`Instant::now`). Nothing is claimed of it.
#[verifier::external_body]
pub(crate) fn now() -> (r: Instant) {
    Instant::now()
}

/// The time passed since `t` (`Instant::elapsed`). Nothing is claimed of it,
/// since it depends on the time of the call.
#[verifier::external_body]
fn elapsed_since(t: &Instant) -> (r: Duration) {
    t.elapsed()
}

/// Whether less than `secs` seconds have passed since `t`: the whole seconds
/// passed are fewer than `secs`, which is `t.elapsed() < Duration::from_secs(secs)`.
pub(crate) fn elapsed_less_than(t: &Instant, secs: u64) -> (r: bool) {
    let d = elapsed_since(t);
    whole_secs(&d) < secs
}

} // verus!
