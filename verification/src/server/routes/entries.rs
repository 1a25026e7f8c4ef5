//! Replacing a project's stored entries: request limits and write access.
use vstd::prelude::*;

use vstd::string::StringExecFns;
use vstd::utf8::encode_utf8;

use crate::server::models::Role;
use crate::server::{unit_result_view, ApiError, HttpStatus};
use crate::text::utf8_len;

verus! {

broadcast use vstd::string::group_string_axioms;

/// Most entries accepted in one request.
pub const MAX_ENTRIES_PER_REQUEST: usize = 500;

/// Longest key or file name, in bytes.
pub const MAX_KEY_LEN: usize = 256;

/// Longest encrypted value, in bytes.
pub const MAX_VALUE_LEN: usize = 65_536;

/// An entry to store.
pub struct EntryPayload {
    pub env_file: String,
    pub key: String,
    pub encrypted_value: String,
    pub is_sensitive: bool,
}

/// A stored entry; `id` is its UUID as a number.
pub struct EntryResponse {
    pub id: u128,
    pub env_file: String,
    pub key: String,
    pub encrypted_value: String,
    pub is_sensitive: bool,
}

/// A field of the entry exceeds its limit.
pub open spec fn entry_too_long(e: EntryPayload) -> bool {
    ||| encode_utf8(e.key@).len() > MAX_KEY_LEN
    ||| encode_utf8(e.encrypted_value@).len() > MAX_VALUE_LEN
    ||| encode_utf8(e.env_file@).len() > MAX_KEY_LEN
}

/// The limits of a request, checked in this order: at most 500 entries, and
/// no field over its limit.
pub open spec fn spec_validate_entries(entries: Seq<EntryPayload>) -> Result<
    (),
    (HttpStatus, Seq<char>),
> {
    if entries.len() > MAX_ENTRIES_PER_REQUEST {
        Err((HttpStatus::BadRequest, "Max 500 entries per request"@))
    } else if exists|i: int| 0 <= i < entries.len() && entry_too_long(#[trigger] entries[i]) {
        Err((HttpStatus::BadRequest, "Entry field exceeds max length"@))
    } else {
        Ok(())
    }
}

/// Checks a request against the limits of [`spec_validate_entries`].
pub fn validate_entries(entries: &Vec<EntryPayload>) -> (res: Result<(), ApiError>)
    ensures
        unit_result_view(res) == spec_validate_entries(entries@),
{
    if entries.len() > MAX_ENTRIES_PER_REQUEST {
        return Err(
            ApiError {
                status: HttpStatus::BadRequest,
                message: String::from_str("Max 500 entries per request"),
            },
        );
    }
    let mut i: usize = 0;
    while i < entries.len()
        invariant
            entries@.len() <= MAX_ENTRIES_PER_REQUEST,
            i <= entries@.len(),
            forall|k: int| 0 <= k < i ==> !entry_too_long(#[trigger] entries@[k]),
        decreases entries@.len() - i,
    {
        let e = &entries[i];
        if utf8_len(e.key.as_str()) > MAX_KEY_LEN || utf8_len(e.encrypted_value.as_str())
            > MAX_VALUE_LEN || utf8_len(e.env_file.as_str()) > MAX_KEY_LEN {
            assert(entry_too_long(entries@[i as int]));
            return Err(
                ApiError {
                    status: HttpStatus::BadRequest,
                    message: String::from_str("Entry field exceeds max length"),
                },
            );
        }
        i += 1;
    }
    Ok(())
}

/// The caller's role in the project, from their membership (if any); a
/// caller who is not a member is denied.
pub fn get_role(member: Option<Role>) -> (res: Result<Role, ApiError>)
    ensures
        member matches Some(r) ==> (res matches Ok(x) && x == r),
        member is None ==> (res matches Err(e) && e.status == HttpStatus::Forbidden && e.message@
            == "Access denied"@),
{
    match member {
        Some(r) => Ok(r),
        None => Err(
            ApiError { status: HttpStatus::Forbidden, message: String::from_str("Access denied") },
        ),
    }
}

/// Viewers may read entries but not replace them.
pub fn authorize_entry_write(role: Role) -> (res: Result<(), ApiError>)
    ensures
        role == Role::Viewer ==> (res matches Err(e) && e.status == HttpStatus::Forbidden
            && e.message@ == "Viewers cannot modify entries"@),
        role != Role::Viewer ==> res is Ok,
{
    if role == Role::Viewer {
        return Err(
            ApiError {
                status: HttpStatus::Forbidden,
                message: String::from_str("Viewers cannot modify entries"),
            },
        );
    }
    Ok(())
}

} // verus!
