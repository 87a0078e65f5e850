use vstd::prelude::*;

verus! {

/// Seconds since the Unix epoch by the system clock (0 if the clock is before it).
#[verifier::external_body]
pub fn now_secs() -> u64 {
    std::time::SystemTime::now().duration_since(std::time::UNIX_EPOCH).unwrap_or_default().as_secs()
}

/// Milliseconds since the Unix epoch by the system clock, truncated to 64 bits
/// (0 if the clock is before the epoch).
#[verifier::external_body]
pub fn now_millis() -> u64 {
    std::time::SystemTime::now().duration_since(std::time::UNIX_EPOCH).unwrap_or_default().as_millis() as u64
}

/// Milliseconds since the Unix epoch by the system clock, as a 128-bit count (0 if the
/// clock is before the epoch).
#[verifier::external_body]
pub fn now_millis_wide() -> u128 {
    std::time::SystemTime::now().duration_since(std::time::UNIX_EPOCH).unwrap_or_default().as_millis()
}

} // verus!
