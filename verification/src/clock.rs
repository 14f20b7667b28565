//! The wall clock, read in milliseconds since the Unix epoch.

use vstd::prelude::*;

verus! {

/// `std::time::SystemTime`: a reading of the system clock, carried through
/// as an opaque value.
#[verifier::external_type_specification]
#[verifier::external_body]
pub struct ExSystemTime(std::time::SystemTime);

/// `SystemTime::now`: the current reading of the system clock. Nothing is
/// claimed of the reading.
#[verifier::external_body]
fn system_now() -> std::time::SystemTime {
    std::time::SystemTime::now()
}

/// `SystemTime::duration_since` the Unix epoch: the time elapsed since then,
/// or `None` where the clock is set before it. Nothing is claimed of the
/// amount.
#[verifier::external_body]
fn since_epoch(moment: &std::time::SystemTime) -> Option<std::time::Duration> {
    moment.duration_since(std::time::UNIX_EPOCH).ok()
}

/// `Duration::as_millis`: the whole milliseconds in a duration. Nothing is
/// claimed of the amount.
#[verifier::external_body]
fn whole_millis(elapsed: &std::time::Duration) -> u128 {
    elapsed.as_millis()
}

/// The current time in milliseconds since the Unix epoch; zero where the
/// clock is set before the epoch.
pub fn now_millis() -> u128 {
    let moment = system_now();
    let elapsed = match since_epoch(&moment) {
        Some(elapsed) => Some(whole_millis(&elapsed)),
        None => None,
    };
    timestamp_of(elapsed)
}

/// The timestamp for a reading of the clock, given the whole milliseconds
/// that had elapsed since the Unix epoch, or `None` where the clock stood
/// before it: the milliseconds, or zero.
pub fn timestamp_of(elapsed: Option<u128>) -> (millis: u128)
    ensures
        millis == match elapsed {
            Some(amount) => amount,
            None => 0,
        },
{
    match elapsed {
        Some(amount) => amount,
        None => 0,
    }
}

} // verus!
