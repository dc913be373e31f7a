//! The kinds of failure the engine reports.

use vstd::prelude::*;

verus! {

/// Why an operation failed.
#[derive(Clone, Copy, Debug, PartialEq, Eq, Structural)]
pub enum AppError {
    /// A referenced order, user, dispatcher or truck does not exist.
    NotFound,
    /// A request that storage would not accept.
    BadRequest,
    /// A data-access failure of no other kind.
    StorageFailure,
    /// A multi-step operation committed some of its writes but not all.
    PartialFailure,
    /// A failure inside the service itself.
    InternalServerError,
    /// Missing or invalid credentials.
    Unauthorized,
}

} // verus!
