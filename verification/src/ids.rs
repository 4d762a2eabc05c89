//! Identifiers and timestamps that come from outside the library: random
//! UUIDs from `uuid` and the clock from `chrono`.
use vstd::prelude::*;

verus! {

/// A lowercase hexadecimal digit.
pub open spec fn is_lower_hex(c: char) -> bool {
    ('0' <= c && c <= '9') || ('a' <= c && c <= 'f')
}

/// A fresh random (version 4) UUID from `uuid::Uuid::new_v4`, written in its
/// `simple` form: 32 lowercase hexadecimal digits, no hyphens. Which UUID
/// comes out is left unsaid: it is random.
#[verifier::external_body]
pub fn random_uuid_simple() -> (r: String)
    ensures
        r@.len() == 32,
        forall|i: int| 0 <= i < 32 ==> is_lower_hex(#[trigger] r@[i]),
{
    uuid::Uuid::new_v4().simple().to_string()
}

/// The current time as seconds since the Unix epoch, from
/// `chrono::Utc::now().timestamp()`. Nothing is said of the value: it is
/// the clock's.
#[verifier::external_body]
pub fn unix_timestamp_now() -> (r: i64) {
    chrono::Utc::now().timestamp()
}

} // verus!
