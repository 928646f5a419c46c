//! Identity and time, which come from outside the verified world: fresh
//! download ids and creation timestamps.

use vstd::prelude::*;

verus! {

/// Relies on `uuid::Uuid::new_v4` and its `Display`: a random version-4
/// UUID in hyphenated form, which is always 36 characters. Nothing more
/// can be promised of a random value.
#[verifier::external_body]
pub fn fresh_uuid() -> (r: String)
    ensures
        r@.len() == 36,
{
    uuid::Uuid::new_v4().to_string()
}

/// Relies on `chrono::Utc::now` and `DateTime::to_rfc3339`: the current
/// time as an ISO-8601 timestamp. The clock decides the value, so nothing
/// is promised of it.
#[verifier::external_body]
pub fn now_rfc3339() -> String {
    chrono::Utc::now().to_rfc3339()
}

} // verus!
