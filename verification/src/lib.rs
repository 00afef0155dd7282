//! A small HTTP/1.1 server core: request parsing, routing, response
//! serialization and the per-connection protocol, with machine-checked contracts.

pub mod message;
pub mod parser;
pub mod router;
pub mod server;
pub mod codec;
pub mod connection;
pub mod decimal;
pub mod headers;
pub mod text;
