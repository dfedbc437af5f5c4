//! Clocks: the monotonic one, through `std::time::Instant`, and the wall
//! clock, through `std::time::SystemTime`.
use vstd::prelude::*;

verus! {

/// `std::time::Instant`, carried as an opaque value.
#[verifier::external_type_specification]
#[verifier::external_body]
pub struct ExInstant(std::time::Instant);

/// Calls `std::time::Instant::now`. Trusted; nothing is stated of the
/// reading.
#[verifier::external_body]
pub(crate) fn instant_now() -> (r: std::time::Instant) {
    std::time::Instant::now()
}

/// Milliseconds elapsed since `origin`, from `Instant::elapsed`. Trusted;
/// the reading depends on the time of the call, so nothing is stated of
/// it.
#[verifier::external_body]
pub(crate) fn elapsed_ms(origin: &std::time::Instant) -> (r: u64) {
    origin.elapsed().as_millis() as u64
}

/// Milliseconds since the Unix epoch, from `SystemTime::now`, or zero for
/// a clock set before the epoch. Trusted; nothing is stated of the
/// reading.
#[verifier::external_body]
pub(crate) fn system_unix_ms() -> (r: u64) {
    match std::time::SystemTime::now().duration_since(std::time::UNIX_EPOCH) {
        Ok(d) => d.as_millis() as u64,
        Err(_) => 0,
    }
}

} // verus!
