//! Packets: the typed bodies, the raw type-tagged form they travel in, and
//! the dispatch from one to the other.

pub mod error;
pub mod message_payload;
pub mod packet;
pub mod packet_type;
pub mod raw_packet;
