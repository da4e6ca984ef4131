//! The coarse failures that the session protocol reports to its callers.

use vstd::prelude::*;

verus! {

/// What a caller of the session protocol learns of a failure. Cipher and
/// store failures are never passed on verbatim.
#[derive(Debug, Clone, Copy, PartialEq, Eq, Structural)]
pub enum AuthError {
    /// Unknown user or wrong password; the two cannot be told apart.
    InvalidCredentials,
    /// Registration under a name that is in use.
    UsernameTaken,
    /// A bearer token that is malformed, unknown, wrong or expired.
    InvalidToken,
    /// A failure of hashing, of the cipher or of the store.
    InternalFailure,
}

} // verus!
