//! Verified core of a small inter-process messaging library built on a shared
//! in-memory store: an expiring cache, a work queue and an append-only stream.
//!
//! The library holds the message envelopes and their wire text, the stream id
//! codec and reader cursor, the interpretation of the store's replies and the
//! timeout rules. Talking to the store itself is left to the caller.
pub mod cache;
pub mod decimal;
pub mod error;
pub mod json;
pub mod queue;
pub mod stream;
mod text;
pub mod timeout;

pub use error::{IpcError, IpcErrorKind};
