//! Nodes of one owner, and sessions that move between them.

pub mod auth;
pub mod client;
pub mod laws;
pub mod migration;
pub mod sync;
