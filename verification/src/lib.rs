//! Core of a peer-to-peer broadcast compute node.
//!
//! Independently started processes discover one another on a local network,
//! join a shared broadcast topic, and cooperatively execute simple arithmetic
//! jobs: any node may publish a computation request, and every subscribed peer
//! that receives it executes the request and publishes a response carrying the
//! result or a typed error.
//!
//! This crate holds the transport-independent core: the wire codec, the
//! arithmetic engine, the per-topic membership view, and the event multiplexer
//! that turns each incoming event into membership updates and publish/report
//! actions. The transport, discovery and flood-propagation collaborators live
//! outside the crate and exchange plain byte values with it.

pub mod bytes;
pub mod codec;
pub mod command;
pub mod engine;
pub mod error;
pub mod membership;
pub mod mux;
pub mod topics;
