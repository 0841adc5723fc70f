//! The logic of a personal agent runtime.

pub mod agent;
pub mod config;
pub mod daemon;
pub mod fleet;
pub mod json;
pub mod mcp;
pub mod memory;
pub mod net;
pub mod oauth;
pub mod orchestrator;
pub mod path;
pub mod pkg;
pub mod sort;
pub mod sorted_map;
pub mod text;
pub mod text_laws;
