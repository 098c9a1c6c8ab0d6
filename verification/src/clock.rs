use vstd::prelude::*;

verus! {

/// Calls `chrono::Utc::now()` and reads it as whole milliseconds since the
/// Unix epoch.
///
/// Trusted: `Utc::now` panics when the system clock is before the epoch, so a
/// returned value is never negative. Which instant it reads is left open: it
/// depends on the clock.
#[verifier::external_body]
pub(crate) fn now_millis() -> (t: i64)
    ensures
        t >= 0,
{
    chrono::Utc::now().timestamp_millis()
}

/// Calls `uuid::Uuid::new_v4()` and reads the identifier as a `u128`.
///
/// Trusted, with no claim on the value: it is drawn at random.
#[verifier::external_body]
pub(crate) fn random_identifier() -> (id: u128) {
    uuid::Uuid::new_v4().as_u128()
}

/// Calls `uuid::Uuid::new_v4()` and formats it with `to_string`.
///
/// Trusted: the identifier is drawn at random; its text is the hyphenated
/// form, 36 characters long.
#[verifier::external_body]
pub(crate) fn random_identifier_text() -> (s: String)
    ensures
        s@.len() == 36,
{
    uuid::Uuid::new_v4().to_string()
}

/// A point on the monotonic clock.
#[verifier::external_type_specification]
#[verifier::external_body]
pub struct ExInstant(std::time::Instant);

/// Calls `std::time::Instant::now`.
///
/// Trusted, with no claim on the value: it reads the clock.
#[verifier::external_body]
pub(crate) fn start_clock() -> (t: std::time::Instant) {
    std::time::Instant::now()
}

/// Calls `std::time::Instant::elapsed`.
///
/// Trusted, with no claim on the value: it reads the clock.
#[verifier::external_body]
pub(crate) fn elapsed_since(start: &std::time::Instant) -> (d: std::time::Duration) {
    start.elapsed()
}

} // verus!
