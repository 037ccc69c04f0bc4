//! Primitive wire encodings: variable-length integers, a bounds-checked reader
//! and an append-only writer.

pub mod buffer;
pub mod decoder;
pub mod encoder;
pub mod endian;
pub mod varint;

pub use decoder::Decoder;
pub use encoder::Encoder;
