//! Artifacts: installing, updating and removing them.

pub mod artifact;
pub mod error;
pub mod install;
pub mod kpkg;
pub mod laws;
