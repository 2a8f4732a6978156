//! The two calls into outside crates that the library itself makes: drawing a
//! fresh identifier and reading the clock.  Both results depend on the
//! environment, so nothing is promised of them; every caller treats the value
//! as arbitrary.

use vstd::prelude::*;
use crate::ids::Uuid;

verus! {

/// Relies on `uuid::Uuid::new_v4`, which draws a random identifier, and
/// `uuid::Uuid::as_u128`, which returns its value with the most significant
/// byte first.  The result is random, so nothing is promised of it.
#[verifier::external_body]
pub fn fresh_uuid() -> Uuid {
    Uuid { value: uuid::Uuid::new_v4().as_u128() }
}

/// Relies on `chrono::Utc::now`, which reads the clock, and
/// `chrono::DateTime::to_rfc3339`, which renders it as an RFC 3339 timestamp.
/// The result depends on the clock, so nothing is promised of it.
#[verifier::external_body]
pub fn now_rfc3339() -> String {
    chrono::Utc::now().to_rfc3339()
}

} // verus!
