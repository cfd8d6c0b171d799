//! The wall clock that bounds a search.

use std::time::{Duration, Instant};
use vstd::prelude::*;

verus! {

/// `std::time::Instant`, a reading of the monotonic clock. Nothing inside it
/// is visible to the proofs.
#[verifier::external_type_specification]
#[verifier::external_body]
pub struct ExInstant(std::time::Instant);

/// `Instant::now` reads the clock. Nothing is claimed of the reading.
pub assume_specification[ std::time::Instant::now ]() -> (r: Instant)
;

/// `Duration::from_millis` makes a span of so many milliseconds. Nothing is
/// claimed of it, since nothing here looks inside a span.
pub assume_specification[ std::time::Duration::from_millis ](millis: u64) -> (r: Duration)
;

/// `Instant::checked_add` moves a reading forward by a span and answers
/// `None` where the sum cannot be represented. Nothing is claimed of the
/// answer.
pub assume_specification[ std::time::Instant::checked_add ](
    start: &Instant,
    duration: Duration,
) -> (r: Option<Instant>)
;

/// Compares two readings with `>=` of `Instant`. Nothing is claimed of the
/// answer: the proofs hold whichever way the comparison falls.
#[verifier::external_body]
pub(crate) fn at_or_after(now: &Instant, deadline: &Instant) -> (r: bool) {
    *now >= *deadline
}

/// The moment `millis` milliseconds from now; the present moment where that
/// cannot be represented.
pub fn deadline_after(millis: u64) -> (r: Instant) {
    let now = Instant::now();
    match now.checked_add(Duration::from_millis(millis)) {
        Some(later) => later,
        None => now,
    }
}

/// Whether the deadline has passed.
pub fn expired(deadline: &Instant) -> (r: bool) {
    let now = Instant::now();
    at_or_after(&now, deadline)
}

} // verus!
