//! The daemon around the agent.

pub mod laws;
pub mod lock;
pub mod oobe;
pub mod recall;
