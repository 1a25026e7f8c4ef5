//! Payloads exchanged with the Vellum API server.
use vstd::prelude::*;

verus! {

/// An invitation of a user to a project with a role (given as text).
pub struct InvitePayload {
    pub username: String,
    pub role: String,
}

/// The server's answer to registration and login.
pub struct AuthResponse {
    pub token: String,
    pub user_id: String,
    pub username: String,
}

/// A project as the server lists it for the caller.
pub struct ProjectResponse {
    pub id: String,
    pub name: String,
    pub owner_id: String,
    pub role: String,
    pub created_at: String,
    pub updated_at: String,
}

/// An entry to store: its file, key, encrypted value and sensitivity.
pub struct EntryPayload {
    pub env_file: String,
    pub key: String,
    pub encrypted_value: String,
    pub is_sensitive: bool,
}

pub struct EntryPayloadView {
    pub env_file: Seq<char>,
    pub key: Seq<char>,
    pub encrypted_value: Seq<char>,
    pub is_sensitive: bool,
}

impl View for EntryPayload {
    type V = EntryPayloadView;

    open spec fn view(&self) -> EntryPayloadView {
        EntryPayloadView {
            env_file: self.env_file@,
            key: self.key@,
            encrypted_value: self.encrypted_value@,
            is_sensitive: self.is_sensitive,
        }
    }
}

impl EntryPayload {
    /// A copy of the payload.
    pub fn duplicate(&self) -> (r: EntryPayload)
        ensures
            r@ == self@,
    {
        EntryPayload {
            env_file: self.env_file.clone(),
            key: self.key.clone(),
            encrypted_value: self.encrypted_value.clone(),
            is_sensitive: self.is_sensitive,
        }
    }
}

/// A stored entry as the server returns it.
pub struct EntryResponse {
    pub id: String,
    pub env_file: String,
    pub key: String,
    pub encrypted_value: String,
    pub is_sensitive: bool,
}

impl View for EntryResponse {
    type V = EntryPayloadView;

    /// The stored entry without its id.
    open spec fn view(&self) -> EntryPayloadView {
        EntryPayloadView {
            env_file: self.env_file@,
            key: self.key@,
            encrypted_value: self.encrypted_value@,
            is_sensitive: self.is_sensitive,
        }
    }
}

/// A project member as the server lists it.
pub struct MemberResponse {
    pub user_id: String,
    pub username: String,
    pub role: String,
}

} // verus!
