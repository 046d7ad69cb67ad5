//! Discovery and relay engine for a federation of chat homeservers that meet
//! over a topic-based messaging network: a directory of peer servers, the
//! announce/poll protocol that fills it, load-balanced selection, staleness
//! eviction, snapshot persistence and signed relay envelopes.

pub mod config;
pub mod types;
pub mod signing;
pub mod registry;
pub mod framing;
pub mod discovery;
pub mod relay;
pub mod persistence;
pub mod laws;
pub mod mycelium;
