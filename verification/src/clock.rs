//! Readings of the clock.

use crate::duration_format::Elapsed;
use std::time::Duration;
use std::time::Instant;
use vstd::prelude::*;

verus! {

/// A reading of the monotonic clock of the standard library. Nothing of a
/// reading is known to the proofs.
#[verifier::external_type_specification]
#[verifier::external_body]
pub struct ExInstant(Instant);

/// `Instant::now` of the standard library reads the clock. Nothing is claimed
/// of the reading.
pub assume_specification[ Instant::now ]() -> Instant;

/// `Instant::elapsed` of the standard library gives the time that has passed
/// since the reading was taken. Nothing is claimed of its length.
pub assume_specification[ Instant::elapsed ](start: &Instant) -> Duration;

/// `Duration::as_secs` of the standard library gives the whole seconds of a
/// duration. Nothing is claimed of their number.
pub assume_specification[ Duration::as_secs ](duration: &Duration) -> u64;

/// `Duration::subsec_millis` of the standard library gives the part of a
/// duration beyond its whole seconds in whole milliseconds, which is less
/// than one thousand.
pub assume_specification[ Duration::subsec_millis ](duration: &Duration) -> (millis: u32)
    ensures
        millis < 1000,
;

/// The time that has passed since `start`.
pub fn elapsed_since(start: &Instant) -> (e: Elapsed)
    ensures
        e.millis < 1000,
{
    let duration = start.elapsed();
    Elapsed { secs: duration.as_secs(), millis: duration.subsec_millis() }
}

} // verus!
