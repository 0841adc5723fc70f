//! Accounts of the user at services, and the tokens for them.

pub mod flow;
pub mod handle;
pub mod injector;
pub mod laws;
pub mod store;
