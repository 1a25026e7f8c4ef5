//! Request handlers' decisions.
pub mod auth;
pub mod entries;
pub mod members;
pub mod projects;
