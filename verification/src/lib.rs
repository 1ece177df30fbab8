//! The Waggle protocol.
//!
//! Waggle is a P2P pubsub protocol designed as a successor to Gossipsub, focused on
//! the dissemination of incrementally reconstructed objects. Objects are split into
//! pieces that peers progressively exchange until they converge on the complete content.
//!
//! # Design Highlights
//!
//! - **Per-topic streams**: Each topic uses dedicated streams. Subscribing opens a
//!   stream; unsubscribing closes it.
//! - **Random dissemination**: Publishing and forwarding select random subsets of
//!   connected peers.
//! - **Application-defined scoring**: Peer scoring is left entirely to the
//!   application. The protocol surfaces relevant events but does not bake in scoring.
//! - **Opaque identifiers**: Topics, objects, and piece metadata are opaque to the
//!   protocol; semantics are defined by the application.
//!
//! # Using Waggle
//!
//! See [`config::Config`] for configuration and [`behaviour::Behaviour`] for the protocol
//! of a node. The library holds the decisions of the protocol as verified code. It does no
//! input or output itself: streams are driven from outside, one step at a time.

pub mod behaviour;
pub mod cache;
pub mod config;
pub mod counter;
pub mod delivery_laws;
pub mod exchange_laws;
pub mod handler;
pub mod laws;
pub mod outside;
pub mod protocol;
pub mod shard;
pub mod stream_laws;
pub mod subscription_laws;
pub mod substream;
pub mod table;
