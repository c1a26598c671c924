//! Wall-clock time, used only to measure how long a search has run.

use core::time::Duration;
use instant::Instant;
use vstd::prelude::*;

verus! {

/// A point in time as `instant` hands it out. Nothing is known of its value.
#[verifier::external_type_specification]
#[verifier::external_body]
pub struct ExInstant(Instant);

/// `Instant::now` reads the clock. The reading depends on when the call is
/// made, so nothing is claimed of it.
pub assume_specification[ Instant::now ]() -> (now: Instant);

/// `Instant::elapsed` measures the time since the instant was taken. The
/// measure depends on when the call is made, so nothing is claimed of it.
pub assume_specification[ Instant::elapsed ](start: &Instant) -> (spent: Duration);

/// `Duration::as_nanos` gives the whole duration in nanoseconds. Durations
/// are opaque here, so nothing is claimed of the number.
pub assume_specification[ Duration::as_nanos ](span: &Duration) -> (nanos: u128);

} // verus!
