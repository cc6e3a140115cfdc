//! A bounded-concurrency engine for game sessions, the typestate lifecycle of a client
//! connection, and the routing decisions of the connection gateway.

pub mod engine;
pub mod server;
pub mod client;
