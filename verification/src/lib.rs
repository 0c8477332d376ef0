//! A Socket.IO v4 / Engine.IO v4 client protocol library.
//!
//! The crate holds the protocol logic of the client: the Engine.IO packet
//! codec and polling payload framing, the Engine.IO session state machine,
//! the Socket.IO packet codec, the namespace / acknowledgement / binary
//! reassembly state machine, and the event wire format.  Channels, timers,
//! HTTP and WebSocket I/O are driven from outside the library.

pub mod num;
pub mod proto;
pub mod engine;
pub mod event;
pub mod json;
pub mod socket;
