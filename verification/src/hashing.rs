//! Salted one-way password hashing.
//!
//! The hash itself is computed by the `argon2` crate; what the library
//! states about it is that hashing is a function of the password and the
//! salt alone, and that the resulting hash verifies against exactly the
//! password it was derived from.

use argon2::PasswordHasher;
use argon2::PasswordVerifier;
use vstd::prelude::*;

verus! {

/// A password longer than this many characters could exceed Argon2's
/// byte limit of 2^32 - 1: a UTF-8 character takes at most four bytes,
/// so this bound keeps every password the hasher accepts.
pub const MAX_PASSWORD_CHARS: usize = 0x3FFFFFFF;

/// Holds of a salt string that the whole hashing pipeline accepts:
/// `SaltString::from_b64` parses it, and the salt it carries decodes to
/// at least eight bytes, so `argon2::Argon2::hash_password` takes it.
/// (This is stricter than what `from_b64` alone accepts, whose shorter
/// salts the hasher then rejects.)
pub uninterp spec fn is_valid_salt(s: Seq<char>) -> bool;

/// The PHC hash string that Argon2 with its default parameters derives
/// from a password and a salt; a function of the two alone.
pub uninterp spec fn hash_of(password: Seq<char>, salt: Seq<char>) -> Seq<char>;

/// Holds when Argon2 password verification of `password` against the PHC
/// hash string `hash` succeeds; a function of the two alone.
pub uninterp spec fn password_verifies(password: Seq<char>, hash: Seq<char>) -> bool;

/// Relies on `argon2::password_hash::SaltString::generate`: a freshly
/// generated random salt is B64 text for sixteen random bytes, which is
/// within every bound the Argon2 hasher checks, so `hash_password`
/// accepts it. Nothing else is assumed of the random value.
#[verifier::external_body]
pub fn generate_salt() -> (r: String)
    ensures
        is_valid_salt(r@),
{
    argon2::password_hash::SaltString::generate(&mut argon2::password_hash::rand_core::OsRng)
        .as_str()
        .to_string()
}

/// Relies on `argon2::Argon2::hash_password` (via the `PasswordHasher`
/// trait): with the default parameters, a salt it accepts, and a
/// password below its byte limit, it returns a PHC hash string
/// determined by the password bytes and the salt alone, and
/// `verify_password` accepts exactly the hashed password against it —
/// Argon2 is a deterministic key-derivation function, so two passwords
/// verify against the same salted hash only by a digest collision, which
/// the algorithm is designed to make unattainable. The preconditions
/// exclude every input on which the call errs, so the body's unwraps
/// cannot panic.
#[verifier::external_body]
pub fn hash_password(password: &str, salt: &str) -> (r: String)
    requires
        is_valid_salt(salt@),
        password@.len() <= MAX_PASSWORD_CHARS,
    ensures
        r@ == hash_of(password@, salt@),
        password_verifies(password@, r@),
        forall|other: Seq<char>| other != password@ ==> !password_verifies(other, r@),
{
    let salt = argon2::password_hash::SaltString::from_b64(salt).unwrap();
    argon2::Argon2::default().hash_password(password.as_bytes(), &salt).unwrap().to_string()
}

/// Relies on `argon2::Argon2::verify_password` (via the `PasswordVerifier`
/// trait): it succeeds exactly when the hash string parses as a PHC hash
/// and the password re-derives it; a malformed hash string verifies
/// against nothing.
#[verifier::external_body]
pub fn verify_password(password: &str, hash: &str) -> (r: bool)
    ensures
        r == password_verifies(password@, hash@),
{
    match argon2::PasswordHash::new(hash) {
        Ok(parsed) => argon2::Argon2::default().verify_password(password.as_bytes(), &parsed).is_ok(),
        Err(_) => false,
    }
}

/// Hashing a password and then verifying yields success for the hashed
/// password and failure for any other: the round trip stated end to end.
pub fn hash_then_verify(password: &str, other: &str, salt: &str) -> (r: (bool, bool))
    requires
        is_valid_salt(salt@),
        password@.len() <= MAX_PASSWORD_CHARS,
    ensures
        r.0 == true,
        other@ != password@ ==> r.1 == false,
{
    let hashed = hash_password(password, salt);
    let same = verify_password(password, hashed.as_str());
    let different = verify_password(other, hashed.as_str());
    (same, different)
}

/// As `hash_then_verify`, with a fresh random salt.
pub fn hash_round_trip(password: &str, other: &str) -> (r: (bool, bool))
    requires
        password@.len() <= MAX_PASSWORD_CHARS,
    ensures
        r.0 == true,
        other@ != password@ ==> r.1 == false,
{
    let salt = generate_salt();
    hash_then_verify(password, other, salt.as_str())
}

} // verus!
