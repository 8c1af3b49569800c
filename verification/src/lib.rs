//! A shared board of checkboxes kept in one packed bit-vector: the bit-vector
//! itself, the registry of connected clients, the wire codec and the
//! decisions a connection session takes.

pub mod config;
pub mod model;
pub mod store;
pub mod utils;
pub mod registry;
pub mod codec;
pub mod session;
