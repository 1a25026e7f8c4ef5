//! Project membership: who may invite, list and remove members.
use vstd::prelude::*;

use vstd::string::StringExecFns;
use vstd::utf8::encode_utf8;

use crate::server::models::Role;
use crate::server::{text_result_view, ApiError, HttpStatus};
use crate::server::routes::auth::normalize_username;
use crate::text::{trim, unicode_lowercase, utf8_len};

verus! {

broadcast use vstd::string::group_string_axioms;

/// An invitation of a user (by name) with a role.
pub struct InvitePayload {
    pub username: String,
    pub role: Role,
}

/// A member as listed; `user_id` is the user's UUID as a number.
pub struct MemberResponse {
    pub user_id: u128,
    pub username: String,
    pub role: Role,
}

fn forbidden(message: &str) -> (e: ApiError)
    ensures
        e.status == HttpStatus::Forbidden,
        e.message@ == message@,
{
    ApiError { status: HttpStatus::Forbidden, message: String::from_str(message) }
}

fn bad_request(message: &str) -> (e: ApiError)
    ensures
        e.status == HttpStatus::BadRequest,
        e.message@ == message@,
{
    ApiError { status: HttpStatus::BadRequest, message: String::from_str(message) }
}

/// Only the project's owner may manage members: a non-member is denied, a
/// member with another role needs owner access.
pub fn require_owner(member: Option<Role>) -> (res: Result<(), ApiError>)
    ensures
        member is None ==> (res matches Err(e) && e.status == HttpStatus::Forbidden && e.message@
            == "Access denied"@),
        member matches Some(r) && r != Role::Owner ==> (res matches Err(e) && e.status
            == HttpStatus::Forbidden && e.message@ == "Owner access required"@),
        member == Some(Role::Owner) ==> res is Ok,
{
    match member {
        None => Err(forbidden("Access denied")),
        Some(r) => {
            if r != Role::Owner {
                return Err(forbidden("Owner access required"));
            }
            Ok(())
        },
    }
}

/// Only members may list members.
pub fn require_membership(is_member: bool) -> (res: Result<(), ApiError>)
    ensures
        !is_member ==> (res matches Err(e) && e.status == HttpStatus::Forbidden && e.message@
            == "Access denied"@),
        is_member ==> res is Ok,
{
    if !is_member {
        return Err(forbidden("Access denied"));
    }
    Ok(())
}

/// What inviting decides before looking the user up, in this order: nobody
/// is invited as owner, and the normalized name must have 1 to 32 bytes.
pub open spec fn spec_check_invite(role: Role, username: Seq<char>) -> Result<
    Seq<char>,
    (HttpStatus, Seq<char>),
> {
    let name = unicode_lowercase(trim(username));
    if role == Role::Owner {
        Err((HttpStatus::BadRequest, "Cannot invite as owner"@))
    } else if name.len() == 0 || encode_utf8(name).len() > 32 {
        Err((HttpStatus::BadRequest, "Invalid username"@))
    } else {
        Ok(name)
    }
}

/// Checks an invitation; gives the normalized name to look up.
pub fn check_invite(payload: &InvitePayload) -> (res: Result<String, ApiError>)
    ensures
        text_result_view(res) == spec_check_invite(payload.role, payload.username@),
{
    if payload.role == Role::Owner {
        return Err(bad_request("Cannot invite as owner"));
    }
    let name = normalize_username(payload.username.as_str());
    if utf8_len(name.as_str()) == 0 || utf8_len(name.as_str()) > 32 {
        proof {
            if name@.len() > 0 {
                vstd::utf8::encode_utf8_decode_utf8(name@);
                if encode_utf8(name@).len() == 0 {
                    assert(encode_utf8(name@) =~= Seq::<u8>::empty());
                    assert(vstd::utf8::decode_utf8(Seq::<u8>::empty()) =~= Seq::<char>::empty());
                }
            }
        }
        return Err(bad_request("Invalid username"));
    }
    proof {
        if name@.len() == 0 {
            assert(name@ =~= Seq::<char>::empty());
            assert(encode_utf8(Seq::<char>::empty()) =~= Seq::<u8>::empty());
        }
    }
    Ok(name)
}

/// The owner cannot remove themselves.
pub fn check_remove(requester: u128, target: u128) -> (res: Result<(), ApiError>)
    ensures
        target == requester ==> (res matches Err(e) && e.status == HttpStatus::BadRequest
            && e.message@ == "Cannot remove yourself as owner"@),
        target != requester ==> res is Ok,
{
    if target == requester {
        return Err(bad_request("Cannot remove yourself as owner"));
    }
    Ok(())
}

} // verus!
