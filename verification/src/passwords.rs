//! Secrets kept as Argon2 hashes: hashing a secret, checking one against a stored hash,
//! and the user records built on them.
use argon2::{PasswordHasher, PasswordVerifier};
use vstd::prelude::*;

use crate::auth::Role;

verus! {

/// Whether `hash` reads as a PHC hash string (`argon2::PasswordHash::new` accepts it).
pub uninterp spec fn argon2_hash_parses(hash: Seq<char>) -> bool;

/// Whether Argon2 accepts `secret` for the PHC hash string `hash`
/// (`Argon2::verify_password` succeeds on it).
pub uninterp spec fn argon2_verifies(secret: Seq<char>, hash: Seq<char>) -> bool;

/// Calls `argon2::Argon2::default().hash_password` on the bytes of `secret` with a salt
/// from `SaltString::generate(&mut OsRng)`, and formats the hash as a PHC string. The salt
/// is random, so the hash is not named; the contract states what argon2 documents of
/// every outcome: the string reads back as a hash, and verifying `secret` against it
/// succeeds. Hashing may fail (`Err`); the reason is not kept.
#[verifier::external_body]
pub(crate) fn hash_secret(secret: &str) -> (r: Result<String, ()>)
    ensures
        r matches Ok(h) ==> argon2_hash_parses(h@) && argon2_verifies(secret@, h@),
{
    let salt = argon2::password_hash::SaltString::generate(&mut rand::rngs::OsRng);
    argon2::Argon2::default().hash_password(secret.as_bytes(), &salt).map(|h| h.to_string()).map_err(
        |_| (),
    )
}

/// Calls `argon2::PasswordHash::new` on `hash`, then `Argon2::default().verify_password`
/// with the bytes of `secret`. `Err` when the hash does not read; otherwise whether the
/// secret matches. Both outcomes depend on the two texts alone and are named.
#[verifier::external_body]
pub(crate) fn check_secret(secret: &str, hash: &str) -> (r: Result<bool, ()>)
    ensures
        r is Err <==> !argon2_hash_parses(hash@),
        r matches Ok(b) ==> b == argon2_verifies(secret@, hash@),
{
    let parsed = argon2::PasswordHash::new(hash).map_err(|_| ())?;
    Ok(argon2::Argon2::default().verify_password(secret.as_bytes(), &parsed).is_ok())
}

/// A stored user: name, password hash, role.
#[derive(Clone, Debug)]
pub struct UserRecord {
    pub username: String,
    pub password_hash: String,
    pub role: Role,
}

/// Whether `u` is the record of the first administrator created with `password`.
pub open spec fn admin_created(password: Seq<char>, u: UserRecord) -> bool {
    &&& u.username@ == "admin"@
    &&& u.role == Role::Admin
    &&& argon2_hash_parses(u.password_hash@)
    &&& argon2_verifies(password, u.password_hash@)
}

/// What checking `password` against user `u` gives: the error message when the stored
/// hash does not read, otherwise whether the password matches.
pub open spec fn password_verdict(u: UserRecord, password: Seq<char>) -> Result<bool, Seq<char>> {
    if !argon2_hash_parses(u.password_hash@) {
        Err("Invalid password hash"@)
    } else {
        Ok(argon2_verifies(password, u.password_hash@))
    }
}

/// The record of the first administrator, named "admin", with `password` hashed.
/// Refused with "Failed to hash password" when hashing fails.
pub fn admin_record(password: &str) -> (r: Result<UserRecord, String>)
    ensures
        match r {
            Ok(u) => admin_created(password@, u),
            Err(m) => m@ == "Failed to hash password"@,
        },
{
    match hash_secret(password) {
        Ok(h) => Ok(UserRecord { username: "admin".to_owned(), password_hash: h, role: Role::Admin }),
        Err(_) => Err("Failed to hash password".to_owned()),
    }
}

/// Whether `password` is the password of `user` (see `password_verdict`).
pub fn password_matches(user: &UserRecord, password: &str) -> (r: Result<bool, String>)
    ensures
        match r {
            Ok(b) => password_verdict(*user, password@) == Ok::<bool, Seq<char>>(b),
            Err(m) => password_verdict(*user, password@) == Err::<bool, Seq<char>>(m@),
        },
{
    match check_secret(password, user.password_hash.as_str()) {
        Ok(b) => Ok(b),
        Err(_) => Err("Invalid password hash".to_owned()),
    }
}

/// The first administrator logs in with the password it was created with.
pub proof fn law_admin_password_verifies(password: Seq<char>, u: UserRecord)
    requires
        admin_created(password, u),
    ensures
        password_verdict(u, password) == Ok::<bool, Seq<char>>(true),
{
}

} // verus!
