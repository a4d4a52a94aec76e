//! Small trusted helpers over `std` and the `uuid` crate.

use vstd::prelude::*;

verus! {

/// Relies on `str`'s `PartialEq`: two string slices compare equal exactly
/// when their character sequences are equal.
#[verifier::external_body]
pub(crate) fn str_eq(a: &str, b: &str) -> (r: bool)
    ensures
        r == (a@ == b@),
{
    a == b
}

/// Relies on `uuid::Uuid::new_v4`: draws a fresh random identifier.
/// Nothing is promised of the value.
#[verifier::external_body]
pub(crate) fn fresh_id() -> u128 {
    uuid::Uuid::new_v4().as_u128()
}

/// Relies on `uuid::Uuid::from_u128` and `format!` to render the absence
/// message for a record id. Nothing is promised of the text.
#[verifier::external_body]
pub(crate) fn not_found_message(id: u128) -> String {
    format!("Telemetry with ID {} not found", uuid::Uuid::from_u128(id))
}

} // verus!
