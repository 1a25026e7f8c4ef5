//! Password hashing and vault-key derivation with Argon2id (default
//! parameters: 19 MiB, 2 passes, 1 lane, 32-byte output).
use vstd::prelude::*;

use argon2::{PasswordHasher, PasswordVerifier};
use vstd::string::StringSliceAdditionalSpecFns;

verus! {

broadcast use vstd::string::group_string_axioms;

/// Length of the vault key.
pub const VAULT_KEY_LEN: usize = 32;

/// Longest password (in bytes) that Argon2 accepts.
pub const MAX_PWD_LEN: u64 = 0xFFFF_FFFF;

/// Shortest salt (in bytes) that Argon2 accepts.
pub const MIN_SALT_LEN: u64 = 8;

/// Longest salt (in bytes) that Argon2 accepts.
pub const MAX_SALT_LEN: u64 = 0xFFFF_FFFF;

// ---------------------------------------------------------------------------
// Outside items
// ---------------------------------------------------------------------------

/// What parsing `hash` as a PHC string and checking `password` against it with
/// default Argon2 gives: `Err` with the parser's message when the string does
/// not parse, else whether the password matches.
pub uninterp spec fn argon2_phc_check(password: Seq<u8>, hash: Seq<char>) -> Result<bool, Seq<char>>;

/// The 32-byte Argon2id output for `password` and `salt` (default parameters).
pub uninterp spec fn argon2id_key(password: Seq<u8>, salt: Seq<u8>) -> Seq<u8>;

/// The message of the error for a password that Argon2 refuses.
pub open spec fn invalid_password_message() -> Seq<char> {
    "invalid password"@
}

/// The check succeeded and the password matched.
pub open spec fn accepts(r: Result<bool, Seq<char>>) -> bool {
    r == Ok::<bool, Seq<char>>(true)
}

/// The view of a checked result.
pub open spec fn bool_result_view(r: Result<bool, String>) -> Result<bool, Seq<char>> {
    match r {
        Ok(b) => Ok(b),
        Err(e) => Err(e@),
    }
}

/// The view of a derived key or an error message.
pub open spec fn key_result_view(r: Result<[u8; 32], String>) -> Result<Seq<u8>, Seq<char>> {
    match r {
        Ok(k) => Ok(k@),
        Err(e) => Err(e@),
    }
}

/// What `Argon2::hash_password_into` does with a 32-byte output: refuse a
/// password or a salt of a length out of range (checked in this order), else
/// the Argon2id key.
pub open spec fn spec_argon2_derive(password: Seq<u8>, salt: Seq<u8>) -> Result<Seq<u8>, Seq<char>> {
    if password.len() > MAX_PWD_LEN {
        Err("password is too long"@)
    } else if salt.len() < MIN_SALT_LEN {
        Err("salt is too short"@)
    } else if salt.len() > MAX_SALT_LEN {
        Err("salt is too long"@)
    } else {
        Ok(argon2id_key(password, salt))
    }
}

/// `SaltString::generate` on `OsRng`, then `Argon2::default().hash_password`,
/// rendered as a PHC string (argon2 0.5 / password-hash 0.5). The salt is
/// random, so the string itself is not named; the source fails only for a
/// password longer than `MAX_PWD_LEN` ("invalid password"), and a string it
/// returns parses and verifies the same password (`verify_password`
/// recomputes the hash from the parameters and salt stored in the string).
#[verifier::external_body]
pub(crate) fn argon2_hash_phc(password: &[u8]) -> (res: Result<String, String>)
    ensures
        res is Ok <==> password@.len() <= MAX_PWD_LEN,
        res matches Err(e) ==> e@ == invalid_password_message(),
        res matches Ok(h) ==> accepts(argon2_phc_check(password@, h@)),
{
    let salt = argon2::password_hash::SaltString::generate(&mut argon2::password_hash::rand_core::OsRng);
    argon2::Argon2::default().hash_password(password, &salt).map(|h| h.to_string()).map_err(
        |e| e.to_string(),
    )
}

/// `PasswordHash::new` on `hash`, then `Argon2::default().verify_password`
/// (password-hash 0.5): the parse error's message, or whether the password
/// matches. The result is named.
#[verifier::external_body]
pub(crate) fn argon2_verify_phc(password: &[u8], hash: &str) -> (res: Result<bool, String>)
    ensures
        bool_result_view(res) == argon2_phc_check(password@, hash@),
{
    match argon2::PasswordHash::new(hash) {
        Ok(parsed) => Ok(argon2::Argon2::default().verify_password(password, &parsed).is_ok()),
        Err(e) => Err(e.to_string()),
    }
}

/// `Argon2::default().hash_password_into` with a 32-byte output (argon2 0.5).
/// The source checks the output length (32 is in range), then the password
/// length, then the salt length, and otherwise fills the key.
#[verifier::external_body]
fn argon2_derive(password: &[u8], salt: &[u8]) -> (res: Result<[u8; 32], String>)
    ensures
        key_result_view(res) == spec_argon2_derive(password@, salt@),
        res matches Ok(k) ==> k@ == argon2id_key(password@, salt@),
{
    let mut key = [0u8; 32];
    match argon2::Argon2::default().hash_password_into(password, salt, &mut key) {
        Ok(()) => Ok(key),
        Err(e) => Err(e.to_string()),
    }
}

// ---------------------------------------------------------------------------
// Library functions
// ---------------------------------------------------------------------------

/// Hashes a master password for storage, with a fresh random salt. The hash
/// verifies the password it was made from.
pub fn hash_password(password: &str) -> (res: Result<String, String>)
    ensures
        res is Ok <==> password.spec_bytes().len() <= MAX_PWD_LEN,
        res matches Err(e) ==> e@ == invalid_password_message(),
        res matches Ok(h) ==> accepts(argon2_phc_check(password.spec_bytes(), h@)),
{
    argon2_hash_phc(password.as_bytes())
}

/// Checks a password against a stored PHC hash string; a string that does not
/// parse is an error.
pub fn verify_password(password: &str, hash: &str) -> (res: Result<bool, String>)
    ensures
        bool_result_view(res) == argon2_phc_check(password.spec_bytes(), hash@),
{
    argon2_verify_phc(password.as_bytes(), hash)
}

/// Derives the 32-byte vault key from the master password and the user's
/// salt. The key never touches disk.
pub fn derive_vault_key(password: &str, salt: &[u8]) -> (res: Result<[u8; 32], String>)
    ensures
        key_result_view(res) == spec_argon2_derive(password.spec_bytes(), salt@),
{
    argon2_derive(password.as_bytes(), salt)
}

/// A random 16-byte salt for vault-key derivation.
pub fn generate_salt() -> (salt: [u8; 16]) {
    let mut salt = [0u8; 16];
    crate::system::fill_random(&mut salt);
    salt
}

} // verus!
