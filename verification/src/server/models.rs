//! Roles of project members on the server.
use vstd::prelude::*;

verus! {

/// A member's role in a project (stored as `owner`, `editor`, `viewer`).
#[derive(Clone, Copy, PartialEq, Eq, Structural, Debug)]
pub enum Role {
    Owner,
    Editor,
    Viewer,
}

} // verus!
