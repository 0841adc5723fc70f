//! Sessions of agents, side by side.

pub mod bus;
pub mod dreamer;
pub mod laws;
pub mod scheduler;
pub mod session;
