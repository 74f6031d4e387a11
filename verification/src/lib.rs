//! Verified core of a personal-productivity backend: credential handling,
//! stateless session tokens, and ownership-scoped CRUD over an in-memory
//! model of the relational store.

pub mod auth;
pub mod b64;
pub mod digits;
pub mod goals;
pub mod habits;
pub mod jwt;
pub mod models;
pub mod password;
pub mod pomodoro;
pub mod store;
pub mod tasks;

use vstd::prelude::*;

verus! {

/// Seconds in seven days: the lifetime of a session token.
pub const TOKEN_LIFETIME_SECS: u64 = 604800;

} // verus!
