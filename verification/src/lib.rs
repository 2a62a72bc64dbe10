//! A verified session and subscription-dispatch layer for a publish/subscribe
//! message broker, together with the wire codec for its protocol envelopes.
//!
//! The crate models protocol messages as plain data, encodes and decodes them
//! in a compact binary wire format with a proved round-trip law, and drives a
//! session state machine (handshake, request/reply correlation, event routing)
//! and a per-subscription dispatch loop, both verified. Transport I/O and the
//! container-runtime calls made by action handlers live outside the library.

pub mod bytes;
pub mod codec;
pub mod dispatch;
pub mod handlers;
pub mod msg;
pub mod serializer;
pub mod session;
pub mod value;
