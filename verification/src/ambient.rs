//! What the library takes from its surroundings: random numbers and the
//! time of day. Nothing is known of either but its type.

use rand::Rng;
use vstd::prelude::*;

verus! {

/// Draws a number with `Rng::gen` from the generator that
/// `rand::thread_rng` hands out, a generator local to the thread and seeded
/// by the system. Nothing is promised of the number.
#[verifier::external_body]
pub(crate) fn random_u32() -> u32 {
    rand::thread_rng().gen()
}

/// Reads the system clock with `chrono::Utc::now` and converts the instant
/// with `DateTime::timestamp_nanos_opt` to nanoseconds since the Unix epoch.
/// The conversion gives `None` for an instant whose nanoseconds do not fit
/// 64 bits. Nothing is promised of the reading.
#[verifier::external_body]
pub(crate) fn unix_nanos_now() -> Option<i64> {
    chrono::Utc::now().timestamp_nanos_opt()
}

} // verus!
