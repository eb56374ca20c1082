//! Sources of fresh identifiers and of the current time.
use vstd::prelude::*;

verus! {

/// A fresh random (v4) UUID in hyphenated form (`uuid::Uuid::new_v4`).
/// Nothing is promised of the value: it is random.
#[verifier::external_body]
pub fn new_uuid() -> String {
    uuid::Uuid::new_v4().to_string()
}

/// The current UTC time as RFC 3339 text (`chrono::Utc::now().to_rfc3339()`).
/// Nothing is promised of the value: it is the clock's.
#[verifier::external_body]
pub fn now_rfc3339() -> String {
    chrono::Utc::now().to_rfc3339()
}

} // verus!
