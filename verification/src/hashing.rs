//! The one-way password hash behind the store: bcrypt, reached through
//! trusted wrappers, and the random identifiers for new records.
//!
//! bcrypt salts every digest with fresh operating-system randomness, so two
//! hashes of one password differ and nothing can be stated about the digest
//! itself. What the contracts need is named instead: whether `verify`
//! accepts a password against a digest, and whether a string is a
//! well-formed digest at all.

use vstd::prelude::*;

verus! {

/// Whether bcrypt's `verify` accepts `password` against `digest`.
///
/// This names the verdict of `bcrypt::verify`, which is a function of its
/// two arguments alone: the digest carries its own salt, cost and version,
/// and `verify` recomputes the bcrypt hash of the password under them and
/// compares the outcome with the digest.
pub uninterp spec fn bcrypt_matches(password: Seq<char>, digest: Seq<char>) -> bool;

/// Whether `digest` is a well-formed bcrypt hash string, one that
/// `bcrypt::verify` parses and checks without error. Every string that
/// `bcrypt::hash` returns at an allowed cost is of this form.
pub uninterp spec fn bcrypt_digest(digest: Seq<char>) -> bool;

/// Relies on `bcrypt::hash` at `bcrypt::DEFAULT_COST`: on success the result
/// is a 60-character bcrypt hash string over a fresh random salt, which
/// `verify` parses without error and which accepts exactly the passwords
/// that bcrypt equates with the hashed one. The salt is drawn from the
/// operating system's randomness, so two calls on one password may differ
/// and failure (`None`) comes only from that randomness source.
#[verifier::external_body]
pub(crate) fn hash_password(password: &String) -> (r: Option<String>)
    ensures
        r matches Some(h) ==> h@.len() == 60 && bcrypt_digest(h@) && bcrypt_matches(
            password@,
            h@,
        ),
{
    bcrypt::hash(password.as_str(), bcrypt::DEFAULT_COST).ok()
}

/// Relies on `bcrypt::verify`: the verdict is a function of password and
/// digest alone, and the call fails only on digest strings that bcrypt's
/// own `hash` never produces.
#[verifier::external_body]
pub(crate) fn verify_password(password: &String, digest: &String) -> (r: Option<bool>)
    ensures
        r matches Some(b) ==> b == bcrypt_matches(password@, digest@),
        bcrypt_digest(digest@) ==> r is Some,
{
    bcrypt::verify(password.as_str(), digest.as_str()).ok()
}

/// Relies on `uuid::Uuid::new_v4`: a freshly drawn random version-4 UUID,
/// taken as its 128-bit value. The value is random; nothing is promised
/// of it.
#[verifier::external_body]
pub(crate) fn fresh_id() -> u128 {
    uuid::Uuid::new_v4().as_u128()
}

} // verus!
