//! Monotonic time stamps from std.

use vstd::prelude::*;

verus! {

/// `std::time::Instant`, carried through the library as an opaque value.
#[verifier::external_type_specification]
#[verifier::external_body]
pub struct ExInstant(std::time::Instant);

/// Calls `Instant::now`. Nothing is stated of the result: it is the clock's reading.
#[verifier::external_body]
pub(crate) fn instant_now() -> std::time::Instant {
    std::time::Instant::now()
}

/// Calls `Instant::elapsed`. Nothing is stated of the result: it depends on
/// the clock.
#[verifier::external_body]
fn elapsed_since(t: &std::time::Instant) -> std::time::Duration {
    t.elapsed()
}

/// Calls `Duration::as_millis`, the whole milliseconds of a duration. Nothing
/// is stated of the result: a `Duration` is opaque here.
#[verifier::external_body]
fn whole_millis(d: &std::time::Duration) -> u128 {
    d.as_millis()
}

/// Whole milliseconds since `t`, by the clock.
pub(crate) fn elapsed_millis(t: &std::time::Instant) -> u128 {
    let d = elapsed_since(t);
    whole_millis(&d)
}

} // verus!
