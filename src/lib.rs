//! A room-scoped chat relay core: wire envelopes, per-room fan-out topics,
//! the room registry, and the per-connection session decisions.
pub mod client;
pub mod envelope;
pub mod hub;
pub mod session;
pub mod topic;
