//! The outside sources the core consumes: fresh identifiers, the wall
//! clock, and a bounded random range. Nothing is promised of a fresh id or
//! of the clock; of the random draw only the documented bounds.
use vstd::prelude::*;
use rand::Rng;

verus! {

/// Relies on uuid::Uuid::new_v4, read out through Uuid::as_u128: a freshly
/// generated version-4 identifier as its 128-bit value. Nothing is promised
/// of the value; uniqueness is only probabilistic.
#[verifier::external_body]
pub(crate) fn fresh_id() -> (r: u128) {
    uuid::Uuid::new_v4().as_u128()
}

/// Relies on chrono::Utc::now, read out through DateTime::timestamp_millis:
/// the current wall-clock time in milliseconds since the Unix epoch. Nothing
/// is promised of the value.
#[verifier::external_body]
pub(crate) fn now_millis() -> (r: i64) {
    chrono::Utc::now().timestamp_millis()
}

/// Relies on rand::Rng::gen_range over rand::thread_rng: a sample from the
/// given inclusive range. Its documentation promises a value within the
/// range and a panic only on an empty one, which the bound below rules out.
#[verifier::external_body]
pub(crate) fn random_in_range(lo: u32, hi: u32) -> (r: u32)
    requires
        lo <= hi,
    ensures
        lo <= r <= hi,
{
    rand::thread_rng().gen_range(lo..=hi)
}

} // verus!
