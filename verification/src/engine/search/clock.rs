use vstd::prelude::*;
use std::time::Instant;
use core::time::Duration;

verus! {

/// `std::time::Instant`, a reading of the monotonic clock, carried through
/// opaquely.
#[verifier::external_type_specification]
#[verifier::external_body]
pub struct ExInstant(Instant);

/// `Instant::now`: the current reading of the clock. Nothing is claimed of
/// its value, which depends on the time of the call.
pub assume_specification[ Instant::now ]() -> Instant;

/// `Instant::elapsed`: the time passed since the reading. Nothing is claimed
/// of its value, which depends on the time of the call.
pub assume_specification[ Instant::elapsed ](i: &Instant) -> Duration;

/// `Duration::as_millis`: the whole milliseconds of a duration. The
/// duration is opaque here, so nothing is claimed of the result.
pub assume_specification[ Duration::as_millis ](d: &Duration) -> u128;

} // verus!
