//! Memory that outlives sessions.
//!
//! Four layers, from slow to fast: identity (who the user is), semantic (what is
//! known), procedural (how to do things well here, corrections included) and
//! episodic (what happened and when).

pub mod keeping_laws;
pub mod laws;
pub mod protocol;
pub mod recall_laws;
pub mod store;
pub mod wire;
