use vstd::prelude::*;
use argon2::password_hash::Error as PasswordHashError;
use argon2::{PasswordHasher, PasswordVerifier};
use crate::error::{Error, is_not_found};

verus! {

#[verifier::external_type_specification]
#[verifier::external_body]
pub struct ExPasswordHashError(PasswordHashError);

/// The PHC string that Argon2id with default parameters derives from a password and a
/// B64-encoded salt; `None` where the salt cannot be used.
pub uninterp spec fn argon2_hash_of(password: Seq<char>, salt: Seq<char>) -> Option<Seq<char>>;

/// The prefix by which a PHC string names the Argon2id algorithm.
pub open spec fn argon2id_prefix() -> Seq<char> {
    "$argon2id$"@
}

/// Whether Argon2 accepts a password against a PHC string.
pub uninterp spec fn argon2_accepts(password: Seq<char>, hash: Seq<char>) -> bool;

/// Relies on `SaltString::from_b64` and argon2's `PasswordHasher::hash_password` with
/// `Argon2::default()`: the PHC string of the password under the salt, which starts
/// with `$argon2id$`. The string records algorithm, version, parameters and salt, so
/// `PasswordVerifier::verify_password` recomputes the same output for the same password
/// and accepts it. Both steps depend on the password and the salt alone.
#[verifier::external_body]
fn argon2_hash(password: &str, salt: &str) -> (r: Result<String, PasswordHashError>)
    ensures
        match argon2_hash_of(password@, salt@) {
            Some(h) => r matches Ok(x) && x@ == h && argon2_accepts(password@, h) && h.len() >= argon2id_prefix().len()
                && h.subrange(0, argon2id_prefix().len() as int) == argon2id_prefix(),
            None => r is Err,
        },
{
    let salt = argon2::password_hash::SaltString::from_b64(salt)?;
    let hash = argon2::Argon2::default().hash_password(password.as_bytes(), &salt)?;
    Ok(hash.to_string())
}

/// Relies on `PasswordHash::new` and argon2's `PasswordVerifier::verify_password` with
/// `Argon2::default()`: succeeds exactly when the hash parses and the password is accepted.
#[verifier::external_body]
fn argon2_verify(password: &str, hash: &str) -> (r: Result<(), PasswordHashError>)
    ensures
        r is Ok <==> argon2_accepts(password@, hash@),
{
    let parsed = argon2::password_hash::PasswordHash::new(hash)?;
    argon2::Argon2::default().verify_password(password.as_bytes(), &parsed)
}

/// Hashes `password` with Argon2id under the deployment's B64-encoded `salt`: the same
/// password and salt always give the same PHC string, which starts with `$argon2id$`
/// and is accepted by `verify_password` for the same password. A salt that cannot be
/// used fails with an internal error.
pub fn hash_password(password: &str, salt: &str) -> (r: Result<String, Error>)
    ensures
        match argon2_hash_of(password@, salt@) {
            Some(h) => r matches Ok(x) && x@ == h && argon2_accepts(password@, h) && h.len() >= argon2id_prefix().len()
                && h.subrange(0, argon2id_prefix().len() as int) == argon2id_prefix(),
            None => r == Err::<String, Error>(Error::InternalServerError),
        },
{
    match argon2_hash(password, salt) {
        Ok(h) => Ok(h),
        Err(_) => Err(Error::InternalServerError),
    }
}

/// Checks `password` against a stored `hash`. A mismatch or a malformed hash fails
/// with `BadRequest("Not found")`, so that a wrong password reads like an unknown user.
pub fn verify_password(password: &str, hash: &str) -> (r: Result<(), Error>)
    ensures
        r is Ok <==> argon2_accepts(password@, hash@),
        r matches Err(e) ==> is_not_found(e),
{
    match argon2_verify(password, hash) {
        Ok(()) => Ok(()),
        Err(_) => Err(Error::not_found()),
    }
}

} // verus!
