//! Admission limiter: a token-bucket gate consulted once per inbound TLS
//! connection attempt. The bucket is governor's direct rate limiter; its
//! verdicts depend on the wall clock, so no particular outcome is promised,
//! only that the check never blocks and consumes nothing else on denial.

use vstd::prelude::*;

verus! {

/// Token-bucket admission gate shared across all TLS accept attempts.
/// Holds governor's direct in-memory rate limiter, opaque to verification.
#[verifier::external_body]
pub struct Limiter {
    inner: governor::DefaultDirectRateLimiter,
}

impl Limiter {
    /// Relies on governor's Quota::per_second and RateLimiter::direct: a
    /// fresh in-memory token bucket replenishing `rate` permits per second,
    /// with burst capacity equal to the same `rate`.
    #[verifier::external_body]
    pub fn new(rate: u32) -> (l: Limiter)
        requires
            1 <= rate,
    {
        Limiter {
            inner: governor::RateLimiter::direct(governor::Quota::per_second(
                core::num::NonZeroU32::new(rate).unwrap(),
            )),
        }
    }

    /// Relies on governor's RateLimiter::check: whether one cell conforms
    /// to the bucket at this instant. The verdict depends on the clock, so
    /// either answer can come back; the call never blocks.
    #[verifier::external_body]
    pub fn try_admit(&self) -> (r: bool) {
        self.inner.check().is_ok()
    }
}

} // verus!
