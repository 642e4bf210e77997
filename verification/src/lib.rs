//! Licensing and local-authentication core of a desktop application.
//!
//! The library binds an installation to a device identifier, decodes the
//! remote licensing authority's activation and reactivation grants, keeps the
//! persisted license state in a transactional in-memory store model, evaluates
//! the validity window against a caller-supplied clock, and checks local
//! credentials.  Every operation is specified by a contract and verified;
//! the surrounding process (HTTP transport, SQLite persistence, the UI shell)
//! lives outside the library and only hands plain values in and out.

pub mod auth;
pub mod content;
pub mod datetime;
pub mod db;
pub mod encryption;
pub mod errors;
pub mod json;
pub mod strutil;
pub mod users;
