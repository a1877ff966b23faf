use vstd::prelude::*;

verus! {

#[verifier::external_type_specification]
#[verifier::external_body]
pub struct ExSystemTime(std::time::SystemTime);

#[verifier::external_type_specification]
#[verifier::external_body]
pub struct ExSystemTimeError(std::time::SystemTimeError);

/// Reads the system clock (`std::time::SystemTime::now`). Nothing is claimed
/// of the time read: it depends on the machine.
#[verifier::external_body]
fn system_now() -> std::time::SystemTime {
    std::time::SystemTime::now()
}

/// The time from the Unix epoch to `t` (`SystemTime::duration_since` with
/// `UNIX_EPOCH`); an error when `t` is before the epoch. Nothing is claimed
/// of which outcome comes: it depends on the time read.
#[verifier::external_body]
fn since_epoch(t: &std::time::SystemTime) -> Result<std::time::Duration, std::time::SystemTimeError> {
    t.duration_since(std::time::UNIX_EPOCH)
}

/// The whole milliseconds of a duration (`Duration::as_millis`); the value
/// is not modelled, as `Duration` is opaque here.
#[verifier::external_body]
fn duration_millis(d: &std::time::Duration) -> u128 {
    d.as_millis()
}

/// The text of a clock error (`ToString::to_string`).
#[verifier::external_body]
fn time_error_text(e: &std::time::SystemTimeError) -> String {
    e.to_string()
}

/// The system clock as milliseconds since the Unix epoch, truncated to
/// `u64`; a clock set before the epoch yields the error's text.
pub(crate) fn system_time_millis() -> Result<u64, String> {
    let now = system_now();
    match since_epoch(&now) {
        Ok(d) => Ok(duration_millis(&d) as u64),
        Err(e) => Err(time_error_text(&e)),
    }
}

} // verus!
