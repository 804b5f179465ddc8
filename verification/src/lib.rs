//! Protocol-aware relay core for the MongoDB wire protocol.
//!
//! The library holds the logic of a transparent TCP relay that forwards bytes
//! between a client and a backend unchanged while decoding the same stream to
//! extract per-message statistics: a resumable frame decoder over the
//! length-prefixed wire format, a message classifier with a bounded
//! request/response correlation table, one stream parser per traffic
//! direction, and the session state machine that drives half-close and
//! teardown. Socket handling lives outside; the library is handed byte chunks
//! and end-of-stream events and answers with the bytes to forward, the
//! statistics records to emit, and the next action to take.

pub mod decoder;
pub mod parser;
pub mod session;
pub mod stats;
pub mod wire;
