//! Vellum: parsing, auditing and protecting `.env` files.
pub mod api;
pub mod auth;
pub mod scanner;
pub mod server;
pub mod system;
pub mod text;
pub mod vault;
