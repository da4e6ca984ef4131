//! Per-user encryption of records at rest, with access gated by sessions.
//!
//! Each user owns one symmetric local token per record category. The local
//! tokens are wrapped under the user's password; every login re-wraps them
//! under a fresh session secret, so that a live session reaches every
//! category without the password being stored anywhere.

pub mod auth_handler;
pub mod bearer;
pub mod credential;
pub mod crypt_provider;
pub mod crypt_types;
pub mod db;
pub mod error;
pub mod objects;
pub mod store;
pub mod text;
pub mod token_gen;
