//! Creating and deleting projects on the server.
use vstd::prelude::*;

use vstd::string::StringExecFns;
use vstd::utf8::encode_utf8;

use crate::server::models::Role;
use crate::server::{text_result_view, ApiError, HttpStatus};
use crate::text::{chars_of, string_of, trim, trim_chars, utf8_len};

verus! {

broadcast use vstd::string::group_string_axioms;

/// Longest project name, in bytes.
pub const MAX_PROJECT_NAME_LEN: usize = 64;

/// The name of a project to create.
pub struct CreateProjectPayload {
    pub name: String,
}

/// A project as the server lists it for the caller; ids are UUIDs as numbers
/// and times RFC 3339 text.
pub struct ProjectResponse {
    pub id: u128,
    pub name: String,
    pub owner_id: u128,
    pub role: Role,
    pub created_at: String,
    pub updated_at: String,
}

/// A project name is kept trimmed and must have 1 to 64 bytes.
pub open spec fn spec_validate_project_name(name: Seq<char>) -> Result<
    Seq<char>,
    (HttpStatus, Seq<char>),
> {
    let t = trim(name);
    if t.len() == 0 || encode_utf8(t).len() > MAX_PROJECT_NAME_LEN {
        Err((HttpStatus::BadRequest, "Project name must be 1-64 characters"@))
    } else {
        Ok(t)
    }
}

/// Checks the name of a project to create; gives the trimmed name.
pub fn validate_project_name(payload: &CreateProjectPayload) -> (res: Result<String, ApiError>)
    ensures
        text_result_view(res) == spec_validate_project_name(payload.name@),
{
    let chars = chars_of(payload.name.as_str());
    let t = trim_chars(chars.as_slice());
    let name = string_of(t.as_slice());
    if t.len() == 0 || utf8_len(name.as_str()) > MAX_PROJECT_NAME_LEN {
        return Err(
            ApiError {
                status: HttpStatus::BadRequest,
                message: String::from_str("Project name must be 1-64 characters"),
            },
        );
    }
    Ok(name)
}

/// Only the owner may delete a project, and it must exist.
pub fn check_delete(owner: Option<u128>, requester: u128) -> (res: Result<(), ApiError>)
    ensures
        owner is None ==> (res matches Err(e) && e.status == HttpStatus::NotFound && e.message@
            == "Project not found"@),
        owner matches Some(o) && o != requester ==> (res matches Err(e) && e.status
            == HttpStatus::Forbidden && e.message@ == "Only the owner can delete a project"@),
        owner == Some(requester) ==> res is Ok,
{
    match owner {
        None => Err(
            ApiError { status: HttpStatus::NotFound, message: String::from_str("Project not found") },
        ),
        Some(o) => {
            if o != requester {
                return Err(
                    ApiError {
                        status: HttpStatus::Forbidden,
                        message: String::from_str("Only the owner can delete a project"),
                    },
                );
            }
            Ok(())
        },
    }
}

} // verus!
