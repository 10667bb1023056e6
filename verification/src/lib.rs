//! An embeddable message queue: addresses with anycast or broadcast delivery,
//! per-subscriber queues with stable message ids, and the request/response
//! protocol spoken between clients and a server.

pub mod address;
pub mod payload;
pub mod queue;
pub mod text;
pub mod error;
pub mod server;
pub mod frame;
pub mod client;
pub mod agent;
pub mod laws;
