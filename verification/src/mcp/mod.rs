//! Artifacts and the tools they offer.

pub mod client;
pub mod hub;
pub mod laws;
pub mod loader;
pub mod parser;
pub mod parser_laws;
pub mod rpc;
pub mod server;
