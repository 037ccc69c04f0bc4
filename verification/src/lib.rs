//! Wire codec, framing and packet dispatch for a small message-relay server.
//!
//! - `coding`: variable-length integers, a bounds-checked reader and an
//!   append-only writer for the fields of a packet.
//! - `networking`: the packet kinds, the raw type-tagged form they travel in
//!   and the dispatch between the two.
//! - `server`: length-delimited framing, the life of a session, and the
//!   decisions that make a raw stream and a web-socket look alike.
//! - `types`: the failures that decoding and encoding report.
//!
//! Every function states what it returns and what it changes over plain
//! sequences of bytes, and is proved to do so. Reading, writing and waiting
//! are left to the program around the library.

pub mod coding;
pub mod networking;
pub mod server;
pub mod types;
