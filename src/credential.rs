//! Credential hashing: the one-way, salted form in which passwords and
//! session secrets are stored.

use argon2::password_hash::{PasswordHash, PasswordHasher, PasswordVerifier, Salt, SaltString};
use argon2::Argon2;
use rand::rngs::OsRng;
use rand::TryRngCore;
use vstd::prelude::*;

verus! {

/// The number of random bytes in a salt.
pub const SALT_LENGTH: usize = 16;

/// Whether argon2's verifier accepts `secret` against the stored hash
/// string `hash`. It depends on the two values alone: the verifier
/// recomputes the hash with the salt and parameters that the string holds.
pub uninterp spec fn hash_accepts(secret: Seq<u8>, hash: Seq<char>) -> bool;

/// Relies on `rand::rngs::OsRng::try_fill_bytes`: fills a salt-sized buffer
/// from the operating system's source of randomness, or fails.
#[verifier::external_body]
fn random_salt() -> (r: Option<Vec<u8>>)
    ensures
        r matches Some(s) ==> s@.len() == SALT_LENGTH,
{
    let mut bytes = [0u8; Salt::RECOMMENDED_LENGTH];
    match OsRng.try_fill_bytes(&mut bytes) {
        Ok(()) => Some(bytes.to_vec()),
        Err(_) => None,
    }
}

/// The longest secret, in bytes, that argon2 hashes.
pub const MAX_SECRET_LEN: u64 = 0xFFFF_FFFF;

/// Relies on `argon2::Argon2::hash_password` (default parameters), with the
/// salt given as bytes (`SaltString::encode_b64`; `as_salt` panics on a salt
/// under 3 bytes, so a full-length salt is required): the PHC string it
/// returns starts with `$` and is accepted by `Argon2::verify_password` for
/// the same secret. It fails only for a secret over `MAX_SECRET_LEN` bytes.
#[verifier::external_body]
fn hash_with_salt(secret: &[u8], salt: &[u8]) -> (r: Option<String>)
    requires
        salt@.len() == SALT_LENGTH,
    ensures
        r matches Some(h) ==> hash_accepts(secret@, h@),
        r matches Some(h) ==> h@.len() > 0 && h@[0] == '$',
        secret@.len() <= MAX_SECRET_LEN ==> r is Some,
{
    let salt = match SaltString::encode_b64(salt) {
        Ok(s) => s,
        Err(_) => return None,
    };
    match Argon2::default().hash_password(secret, salt.as_salt()) {
        Ok(h) => Some(h.to_string()),
        Err(_) => None,
    }
}

/// Relies on `argon2::Argon2::verify_password` (default parameters) after
/// `PasswordHash::new`: true where the hash string parses and matches the
/// secret; a string that does not parse accepts nothing.
#[verifier::external_body]
pub(crate) fn check_hash(secret: &[u8], hash: &str) -> (r: bool)
    ensures
        r == hash_accepts(secret@, hash@),
{
    match PasswordHash::new(hash) {
        Ok(h) => Argon2::default().verify_password(secret, &h).is_ok(),
        Err(_) => false,
    }
}

/// Hashes `secret` under a fresh random salt. The stored form is a PHC
/// string (it starts with `$`) that accepts the secret; `None` where the
/// operating system gave no randomness or the secret is over
/// `MAX_SECRET_LEN` bytes.
pub fn create_credential(secret: &[u8]) -> (r: Option<String>)
    ensures
        r matches Some(h) ==> hash_accepts(secret@, h@),
        r matches Some(h) ==> h@.len() > 0 && h@[0] == '$',
{
    match random_salt() {
        Some(salt) => hash_with_salt(secret, salt.as_slice()),
        None => None,
    }
}

} // verus!
