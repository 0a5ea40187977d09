//! One-way password hashing and verification.
//!
//! Hashes are self-describing PHC strings: the algorithm parameters and
//! the salt ride along inside the hash, so verification needs no state
//! beyond the stored string.  Whether a password matches a stored hash is
//! a function of the two strings alone; the library names that function
//! `password_matches` and states both operations against it.

use vstd::prelude::*;

use argon2::password_hash::phc::PasswordHash;
use argon2::password_hash::PasswordHasher;
use argon2::password_hash::PasswordVerifier;
use argon2::Argon2;

verus! {

/// Whether `password` verifies against the PHC string `stored`: the
/// Argon2 digest of the password under the parameters and salt embedded
/// in `stored` equals the digest embedded there.  False when `stored` is
/// malformed.  A function of the two strings alone.
pub uninterp spec fn password_matches(password: Seq<char>, stored: Seq<char>) -> bool;

/// Relies on `Argon2::hash_password` with the default parameters: it
/// derives the hash from the password and a fresh random salt and encodes
/// both into a PHC string, so verifying the same password against the
/// returned string recomputes the same digest and succeeds.  Fails only
/// on salt-generation or derivation failure.
#[verifier::external_body]
pub(crate) fn hash_password(password: &str) -> (r: Option<String>)
    ensures
        r matches Some(h) ==> password_matches(password@, h@),
{
    match Argon2::default().hash_password(password.as_bytes()) {
        Ok(h) => Some(h.to_string()),
        Err(_) => None,
    }
}

/// Relies on `Argon2::verify_password` (through `PasswordHash::new`): it
/// parses `stored`, recomputes the digest of `password` under the
/// parameters and salt found there, and compares; a malformed `stored`
/// fails the parse and verifies as false.  Deterministic in its two
/// arguments.
#[verifier::external_body]
pub(crate) fn verify_password(password: &str, stored: &str) -> (r: bool)
    ensures
        r == password_matches(password@, stored@),
{
    match PasswordHash::new(stored) {
        Ok(parsed) => Argon2::default().verify_password(password.as_bytes(), &parsed).is_ok(),
        Err(_) => false,
    }
}

} // verus!
