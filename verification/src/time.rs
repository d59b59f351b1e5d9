//! The clock.
use vstd::prelude::*;

verus! {

/// Milliseconds since the Unix epoch as the system clock gives them, read
/// with `SystemTime::now`; zero where the clock stands before the epoch.
/// Nothing is claimed of the value: two calls may give any two numbers.
#[verifier::external_body]
pub fn now_unix_ms() -> (ms: u128) {
    std::time::SystemTime::now().duration_since(std::time::UNIX_EPOCH).unwrap_or_default().as_millis()
}

} // verus!
