//! The Socket.IO v4 protocol layer: packet codec and namespace router.
//!
//! Sits between the Engine.IO layer and the typed API; implements
//! namespace multiplexing, acknowledgement tracking and binary reassembly.

pub mod error;
pub mod manager;

pub mod packet;
pub mod parse;
