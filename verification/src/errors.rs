//! The error vocabulary of the service facade. The store itself has no
//! failure modes; these variants exist for the transport layer around
//! it.

use vstd::prelude::*;

verus! {

/// What the facade can report upward.
#[derive(Debug, PartialEq)]
pub enum AppError {
    /// No record, owner or session matches.
    NotFound(String),
    /// A malformed caller-supplied identifier or filter value.
    BadRequest(String),
    /// Unexpected state: a programming-error signal, never expected in
    /// normal operation.
    InternalError(String),
    /// A caller without the needed rights.
    Unauthorized(String),
}

} // verus!
