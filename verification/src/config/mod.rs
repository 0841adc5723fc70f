//! Settings and secrets that follow their owner from device to device.

pub mod crypto;
pub mod keystore;
pub mod laws;
pub mod recovery;
pub mod scope;
pub mod sync;
