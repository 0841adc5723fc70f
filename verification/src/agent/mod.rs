//! The agent: conversation, tools, gate and turn loop.

pub mod capability;
pub mod context;
pub mod context_manager;
pub mod control;
pub mod error;
pub mod gate;
pub mod harness;
pub mod interrupt;
pub mod laws;
pub mod mode;
pub mod policy;
pub mod preamble;
pub mod provider;
pub mod request;
pub mod state;
pub mod step_laws;
pub mod surface;
pub mod tool;
pub mod types;
