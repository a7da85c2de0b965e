//! The monotonic clock. Readings depend on when they are taken, so nothing is
//! stated of them; the logic that uses them takes elapsed times as arguments.
use vstd::prelude::*;

verus! {

#[verifier::external_type_specification]
#[verifier::external_body]
pub struct ExTokioInstant(tokio::time::Instant);

/// `tokio::time::Instant::now`. Nothing is stated of the reading.
#[verifier::external_body]
pub fn instant_now() -> tokio::time::Instant {
    tokio::time::Instant::now()
}

/// `Instant::elapsed`, in whole seconds (`Duration::as_secs`). Nothing is
/// stated of the result: it depends on the time of the call.
#[verifier::external_body]
pub fn elapsed_secs(t: &tokio::time::Instant) -> u64 {
    t.elapsed().as_secs()
}

} // verus!
