//! Shared emulator state over a fan-out relay: the wire messages, the sparse
//! snapshot deltas they carry, and the bookkeeping of a broadcast session.

pub mod binding;
pub mod broadcast;
pub mod delta;
pub mod error;
pub mod layout;
pub mod message;
pub mod registry;
pub mod session;
pub mod text;
pub mod words;
