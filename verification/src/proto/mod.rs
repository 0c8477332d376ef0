//! The byte-level Socket.IO packet layer.
//!
//! Decodes inbound text frames given as raw bytes — validating namespaces as
//! UTF-8 and reading the CONNECT / CONNECT_ERROR payloads as JSON objects —
//! and describes outbound [`Command`](packet::Command)s with their size hints.
//! The field splitters and writers work on byte buffers.

pub mod error;
pub mod packet;
pub mod parse;
