//! The parts of the server that decide: framing, the life of a session and
//! the treatment of the two transports.

pub mod connection;
pub mod framed_websocket;
pub mod server;
pub mod user;
