//! The Engine.IO v4 layer: packet codec, polling payload framing and the
//! session state machine.

pub mod engine;
pub mod packet;
pub mod polling;
pub mod transport;
