use vstd::prelude::*;

verus! {

/// The failures a caller of the library can see.
///
/// `Unauthorized` covers a missing, malformed or expired bearer token;
/// `InvalidCredential` a login whose password does not match;
/// `Conflict` a registration that collides with an existing user;
/// `NotFound` a missing resource or, for update and delete, a post that is
/// missing or not owned by the caller (the two are indistinguishable);
/// `BadRequest` a malformed user identity.
#[derive(Clone, Copy, Debug, PartialEq, Eq, Structural)]
pub enum ApiError {
    Unauthorized,
    InvalidCredential,
    Conflict,
    NotFound,
    BadRequest,
}

} // verus!
