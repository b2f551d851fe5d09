//! The wall clock, in whole Unix seconds.

use vstd::prelude::*;
use std::time::{Duration, SystemTime};

verus! {

/// std's `SystemTime`, carried through as an opaque value.
#[verifier::external_type_specification]
#[verifier::external_body]
pub struct ExSystemTime(SystemTime);

/// Calls std's `SystemTime::now`. Nothing is claimed of the result: it is
/// whatever the machine's clock reads.
#[verifier::external_body]
fn system_now() -> SystemTime {
    SystemTime::now()
}

/// Calls std's `SystemTime::duration_since` with the Unix epoch; `None` where
/// std reports that `time` lies before the epoch. Nothing is claimed of the
/// duration: the time it measures has no view here.
#[verifier::external_body]
fn since_epoch(time: &SystemTime) -> Option<Duration> {
    time.duration_since(SystemTime::UNIX_EPOCH).ok()
}

/// Calls std's `Duration::as_secs`: the whole seconds of `duration`. Nothing
/// is claimed of them: a duration has no view here.
#[verifier::external_body]
fn whole_seconds(duration: &Duration) -> u64 {
    duration.as_secs()
}

/// Unix seconds as the widget stores them: the whole seconds since the epoch
/// reinterpreted as a signed number (as Rust's `as` does), `0` where the clock
/// stands before the epoch.
pub open spec fn spec_unix_seconds(elapsed: Option<u64>) -> i64 {
    match elapsed {
        Some(secs) => secs as i64,
        None => 0,
    }
}

/// Unix seconds from the seconds elapsed since the epoch (see
/// [`spec_unix_seconds`]).
pub fn unix_seconds(elapsed: Option<u64>) -> (res: i64)
    ensures
        res == spec_unix_seconds(elapsed),
{
    match elapsed {
        Some(secs) => secs as i64,
        None => 0,
    }
}

/// The current time in Unix seconds (see [`unix_seconds`]). What it returns
/// is the machine's clock, so no clause can state it.
pub fn unix_now() -> i64 {
    let now = system_now();
    let elapsed = match since_epoch(&now) {
        Some(duration) => Some(whole_seconds(&duration)),
        None => None,
    };
    unix_seconds(elapsed)
}

} // verus!
