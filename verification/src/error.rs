//! The ways an operation on the directory can fail.

use vstd::prelude::*;

verus! {

/// Why an operation was refused. The directory is unchanged whenever one of
/// these is returned.
#[derive(Debug, Clone, Copy, PartialEq, Eq, Structural)]
pub enum Error {
    /// A required field or set was empty.
    Validation,
    /// The user, category or resource that was named does not exist.
    NotFound,
    /// The requester exists, but nobody teaches what they want to learn.
    NoMatches,
    /// A newly generated identifier is already in use; nothing was overwritten.
    IdCollision,
}

} // verus!
