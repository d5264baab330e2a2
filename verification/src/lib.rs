//! Core of a multi-pair TCP relay.
//!
//! The crate holds the relay's decision logic: textual address resolution
//! with fallback rules and per-role validation, the sniff/replay byte
//! buffer, the per-direction byte accounting of a bidirectional relay, and
//! the supervisor's reactions to accept/connect/relay outcomes. All I/O is
//! left to the embedding program, which hands plain values in and out.

pub mod addr;
pub mod buffered_conn;
pub mod relay;
pub mod supervisor;
