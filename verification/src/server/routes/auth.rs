//! Registration and login: input rules and password handling.
use vstd::prelude::*;

use vstd::string::{StringExecFns, StringSliceAdditionalSpecFns};
use vstd::utf8::encode_utf8;

use crate::auth::crypto::{
    accepts, argon2_hash_phc, argon2_phc_check, argon2_verify_phc, invalid_password_message,
    MAX_PWD_LEN,
};
use crate::server::{unit_result_view, ApiError, HttpStatus};
use crate::text::{
    chars_of, is_alphanumeric, string_of, to_lowercase, trim, trim_chars, unicode_alphanumeric,
    unicode_lowercase, utf8_len,
};

verus! {

broadcast use vstd::string::group_string_axioms;

/// Longest username, in bytes.
pub const MAX_USERNAME_LEN: usize = 32;

/// Longest password, in bytes.
pub const MAX_PASSWORD_LEN: usize = 128;

/// Shortest password, in bytes.
pub const MIN_PASSWORD_LEN: usize = 8;

/// Credentials sent to register or log in.
pub struct AuthPayload {
    pub username: String,
    pub password: String,
}

/// The answer to registration and login.
pub struct AuthResponse {
    pub token: String,
    pub user_id: String,
    pub username: String,
}

/// Every character is a letter or digit (Unicode), `_` or `-`.
pub open spec fn username_chars_ok(u: Seq<char>) -> bool {
    forall|i: int|
        0 <= i < u.len() ==> unicode_alphanumeric(#[trigger] u[i]) || u[i] == '_' || u[i] == '-'
}

/// The rules for credentials, checked in this order: the trimmed username
/// has 1 to 32 bytes, holds only letters, digits, `_` and `-`, and the
/// password has 8 to 128 bytes.
pub open spec fn spec_validate_auth_input(username: Seq<char>, password: Seq<char>) -> Result<
    (),
    (HttpStatus, Seq<char>),
> {
    let u = trim(username);
    if u.len() == 0 || encode_utf8(u).len() > MAX_USERNAME_LEN {
        Err((HttpStatus::BadRequest, "Username must be 1-32 characters"@))
    } else if !username_chars_ok(u) {
        Err(
            (
                HttpStatus::BadRequest,
                "Username can only contain letters, numbers, hyphens, and underscores"@,
            ),
        )
    } else if encode_utf8(password).len() < MIN_PASSWORD_LEN || encode_utf8(password).len()
        > MAX_PASSWORD_LEN {
        Err((HttpStatus::BadRequest, "Password must be 8-128 characters"@))
    } else {
        Ok(())
    }
}

/// The character rule for usernames, over all inputs: a trimmed username of 1
/// to 32 bytes that holds any character other than a letter or digit, `_` or
/// `-` is refused with the character message whatever the password; one made
/// only of those characters is accepted exactly when the password has 8 to
/// 128 bytes.
pub proof fn lemma_username_characters(username: Seq<char>, password: Seq<char>)
    ensures
        ({
            let u = trim(username);
            let size_ok = u.len() > 0 && encode_utf8(u).len() <= MAX_USERNAME_LEN;
            &&& (size_ok && exists|i: int|
                0 <= i < u.len() && !unicode_alphanumeric(#[trigger] u[i]) && u[i] != '_' && u[i]
                    != '-') ==> spec_validate_auth_input(username, password) == Err::<
                (),
                (HttpStatus, Seq<char>),
            >(
                (
                    HttpStatus::BadRequest,
                    "Username can only contain letters, numbers, hyphens, and underscores"@,
                ),
            )
            &&& (size_ok && forall|i: int|
                0 <= i < u.len() ==> unicode_alphanumeric(#[trigger] u[i]) || u[i] == '_' || u[i]
                    == '-') ==> (spec_validate_auth_input(username, password) is Ok <==> (
            MIN_PASSWORD_LEN <= encode_utf8(password).len() <= MAX_PASSWORD_LEN))
        }),
{
}

fn bad_request(message: &str) -> (e: ApiError)
    ensures
        e.status == HttpStatus::BadRequest,
        e.message@ == message@,
{
    ApiError { status: HttpStatus::BadRequest, message: String::from_str(message) }
}

/// Checks credentials against the rules of [`spec_validate_auth_input`].
pub fn validate_auth_input(payload: &AuthPayload) -> (res: Result<(), ApiError>)
    ensures
        unit_result_view(res) == spec_validate_auth_input(payload.username@, payload.password@),
{
    let chars = chars_of(payload.username.as_str());
    let u = trim_chars(chars.as_slice());
    let us = string_of(u.as_slice());
    if u.len() == 0 || utf8_len(us.as_str()) > MAX_USERNAME_LEN {
        return Err(bad_request("Username must be 1-32 characters"));
    }
    let mut i: usize = 0;
    while i < u.len()
        invariant
            u@ == trim(payload.username@),
            us@ == u@,
            u@.len() > 0,
            encode_utf8(u@).len() <= MAX_USERNAME_LEN,
            i <= u@.len(),
            forall|k: int|
                0 <= k < i ==> unicode_alphanumeric(#[trigger] u@[k]) || u@[k] == '_' || u@[k]
                    == '-',
        decreases u@.len() - i,
    {
        let c = u[i];
        if !(is_alphanumeric(c) || c == '_' || c == '-') {
            assert(!username_chars_ok(u@));
            return Err(
                bad_request("Username can only contain letters, numbers, hyphens, and underscores"),
            );
        }
        i += 1;
    }
    let pw_len = utf8_len(payload.password.as_str());
    if pw_len < MIN_PASSWORD_LEN || pw_len > MAX_PASSWORD_LEN {
        return Err(bad_request("Password must be 8-128 characters"));
    }
    Ok(())
}

/// The stored form of a username: trimmed and lower-cased.
pub fn normalize_username(username: &str) -> (r: String)
    ensures
        r@ == unicode_lowercase(trim(username@)),
{
    let chars = chars_of(username);
    let t = trim_chars(chars.as_slice());
    let ts = string_of(t.as_slice());
    to_lowercase(ts.as_str())
}

/// Hashes a password for storage with a fresh random salt; the hash verifies
/// the password it was made from.
pub fn hash_password(password: &str) -> (res: Result<String, String>)
    ensures
        res is Ok <==> password.spec_bytes().len() <= MAX_PWD_LEN,
        res matches Err(e) ==> e@ == invalid_password_message(),
        res matches Ok(h) ==> accepts(argon2_phc_check(password.spec_bytes(), h@)),
{
    argon2_hash_phc(password.as_bytes())
}

/// Whether the password matches the stored hash; a hash that does not parse
/// matches nothing.
pub fn verify_password(password: &str, hash: &str) -> (ok: bool)
    ensures
        ok == accepts(argon2_phc_check(password.spec_bytes(), hash@)),
{
    match argon2_verify_phc(password.as_bytes(), hash) {
        Ok(b) => b,
        Err(_) => false,
    }
}

} // verus!
