//! Protocol identifiers for stream negotiation, and the verified decision
//! logic that composes protocol handlers and drives connections.
pub mod composition;
pub mod connection;
pub mod keep_alive;
pub mod negotiation;
pub mod protocol;
pub mod swarm;
