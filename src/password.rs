//! Checking a login's password against the stored hash.
use vstd::prelude::*;
use argon2::password_hash::{PasswordHash, PasswordVerifier};
use argon2::Argon2;
use crate::errors::ApiError;
use crate::records::User;

verus! {

/// Whether argon2 accepts `plain` for the PHC-format hash string `hash`.
pub uninterp spec fn argon2_accepts(hash: Seq<char>, plain: Seq<char>) -> bool;

/// Relies on argon2's `PasswordHash::new`, which fails on a string that is not
/// a PHC hash (the empty one among them), and on
/// `PasswordVerifier::verify_password` of `Argon2::default()`, which recomputes
/// the hash of `plain` with the stored parameters and salt and compares: the
/// answer depends on the two strings alone.
#[verifier::external_body]
pub fn verify_password(hash: &str, plain: &str) -> (r: bool)
    ensures
        r == argon2_accepts(hash@, plain@),
        hash@.len() == 0 ==> !r,
{
    match PasswordHash::new(hash) {
        Ok(ph) => Argon2::default().verify_password(plain.as_bytes(), &ph).is_ok(),
        Err(_) => false,
    }
}

/// The refusal for an unknown user or a wrong password; both read the same.
pub open spec fn is_bad_credentials(e: ApiError) -> bool {
    match e {
        ApiError::Unauthorized(m) => m@ == "invalid credentials"@,
        _ => false,
    }
}

/// Accepts a login when a user was found for the email and argon2 accepts
/// `plain` for that user's stored hash; returns the user.
pub fn authenticate(found: Option<User>, plain: &str) -> (r: Result<User, ApiError>)
    ensures
        r is Ok <==> found is Some && argon2_accepts(found.unwrap().password@, plain@),
        r is Ok ==> r->Ok_0 == found.unwrap(),
        r is Err ==> is_bad_credentials(r->Err_0),
{
    proof {
        reveal_strlit("invalid credentials");
    }
    match found {
        None => Err(ApiError::Unauthorized("invalid credentials".to_owned())),
        Some(user) => {
            if verify_password(user.password.as_str(), plain) {
                Ok(user)
            } else {
                Err(ApiError::Unauthorized("invalid credentials".to_owned()))
            }
        },
    }
}

} // verus!
