//! The wall clock behind elapsed-time tracking.

use vstd::prelude::*;

verus! {

/// A point in time read from the monotonic clock (std::time::Instant on
/// native targets); opaque here, only ever handed back to the clock.
#[verifier::external_type_specification]
#[verifier::external_body]
pub struct ExInstant(wasm_timer::Instant);

/// Relies on wasm_timer::Instant::now: a reading of the monotonic clock.
/// The clock alone decides the value, so nothing is promised of it.
#[verifier::external_body]
pub(crate) fn instant_now() -> (r: wasm_timer::Instant) {
    wasm_timer::Instant::now()
}

/// Relies on wasm_timer::Instant::elapsed: the time since `start`, here
/// converted to whole milliseconds. The clock alone decides the value, so
/// nothing is promised of it.
#[verifier::external_body]
pub(crate) fn elapsed_millis(start: &wasm_timer::Instant) -> (r: u64) {
    start.elapsed().as_millis() as u64
}

} // verus!
