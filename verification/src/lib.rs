//! A verified market negotiation engine: subscriptions for Demands and
//! Offers, mutual matching into Initial proposals, per-subscription ordered
//! event queues with exactly-once delivery, and a bilateral counter-proposal
//! protocol over mirrored proposal records — together with the byte framing
//! used towards a unit's network endpoint.

pub mod bufext;
pub mod endpoints;
pub mod engine;
pub mod framing;
pub mod laws;
pub mod network;
pub mod process;
pub mod queue;
pub mod registry;
mod shuffle;
pub mod store;
pub mod types;
