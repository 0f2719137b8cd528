//! Where fresh identifiers and creation times come from.

use std::time::{Duration, SystemTime, UNIX_EPOCH};
use vstd::prelude::*;

verus! {

/// A point in time as the system clock gives it, carried through unread.
#[verifier::external_type_specification]
#[verifier::external_body]
pub struct ExSystemTime(SystemTime);

/// The bits of an identifier that say how it was made.
pub const KIND_MASK: u128 = 0x0000_0000_0000_f000_c000_0000_0000_0000;

/// What those bits hold in an identifier drawn at random.
pub const RANDOM_KIND: u128 = 0x0000_0000_0000_4000_8000_0000_0000_0000;

/// Whether `id` carries the mark of an identifier drawn at random.
pub open spec fn is_random_id(id: u128) -> bool {
    id & KIND_MASK == RANDOM_KIND
}

/// Draws a fresh identifier with `uuid::Uuid::new_v4` and hands it out as the
/// 128-bit number that `Uuid::as_u128` gives. Nothing is claimed of the random
/// bits; `new_v4` sets the version and variant bits, and only that is stated.
#[verifier::external_body]
pub(crate) fn random_id() -> (id: u128)
    ensures
        is_random_id(id),
{
    uuid::Uuid::new_v4().as_u128()
}

/// Reads the system clock with `SystemTime::now`. Nothing is claimed of the
/// value.
#[verifier::external_body]
pub(crate) fn clock_now() -> SystemTime {
    SystemTime::now()
}

/// Calls `SystemTime::duration_since` for the time passed since the Unix
/// epoch; `None` where the time lies before it. Nothing is claimed of the
/// value.
#[verifier::external_body]
pub(crate) fn since_epoch(time: &SystemTime) -> Option<Duration> {
    time.duration_since(UNIX_EPOCH).ok()
}

/// Calls `Duration::as_secs` for the whole seconds of a duration. Nothing is
/// claimed of the value.
#[verifier::external_body]
pub(crate) fn whole_seconds(elapsed: &Duration) -> u64 {
    elapsed.as_secs()
}

/// The seconds to stamp a new entity with: those that the clock gave, or
/// zero where the clock stands before the epoch and gave none.
pub fn seconds_or_zero(seconds: Option<u64>) -> (stamp: u64)
    ensures
        stamp == match seconds {
            Some(s) => s,
            None => 0,
        },
{
    match seconds {
        Some(s) => s,
        None => 0,
    }
}

/// The present time in whole seconds since the Unix epoch; zero where the
/// clock stands before the epoch.
pub(crate) fn unix_seconds() -> u64 {
    let now = clock_now();
    let seconds = match since_epoch(&now) {
        Some(elapsed) => Some(whole_seconds(&elapsed)),
        None => None,
    };
    seconds_or_zero(seconds)
}

} // verus!
