//! A single participant ("node") in a message-passing cluster: it routes typed
//! protocol envelopes to subsystems for echo, unique id generation, gossip
//! broadcast with retry-until-acknowledged delivery, a grow-only replicated
//! counter, and an append-only per-key log with consumer offset tracking.
//!
//! The node itself is a pure state machine: every handler takes a decoded
//! envelope and returns the envelopes to emit, so the surrounding process can
//! do the transport work while everything that decides stays verified here.

pub mod assoc;
pub mod counter;
pub mod id_generator;
pub mod kafka;
pub mod message;
pub mod node;

pub use counter::Counter;
pub use id_generator::IdGenerator;
pub use kafka::Kafka;
pub use message::{Message, MessageBody, MessageForm};
pub use node::{Effects, Node};
