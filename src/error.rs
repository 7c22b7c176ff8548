//! The ways an authentication request can fail.
use vstd::prelude::*;

verus! {

/// Why a request was refused.
#[derive(Debug, Clone, Copy, PartialEq, Eq, Structural)]
pub enum AuthError {
    /// No such user, or no such challenge in the store.
    NotFound,
    /// The user name is taken.
    AlreadyExists,
    /// The correlation token was never issued, or has been used.
    Unauthenticated,
    /// The response did not pass the verifier's check.
    PermissionDenied,
    /// The group parameters or an encoding are malformed.
    InvalidArgument,
}

} // verus!
