//! What can go wrong between the byte stream and a raw packet.

use vstd::prelude::*;
use vstd::string::StringExecFns;

verus! {

/// A failure of the framing layer.
#[derive(Debug, Clone, Copy, PartialEq, Eq, Structural)]
pub enum NetworkingError {
    /// A frame has no room for the type tag.
    InvalidPacketFormat,
    /// A frame is longer than the configured maximum.
    FrameTooLarge,
    /// The stream ended in the middle of a frame.
    TransportClosed,
}

impl NetworkingError {
    /// The text that describes the failure.
    pub open spec fn spec_message(&self) -> Seq<char> {
        match self {
            NetworkingError::InvalidPacketFormat => "invalid packet format"@,
            NetworkingError::FrameTooLarge => "frame too large"@,
            NetworkingError::TransportClosed => "transport closed"@,
        }
    }

    /// The text that describes the failure.
    pub fn message(&self) -> (text: String)
        ensures
            text@ == self.spec_message(),
    {
        match self {
            NetworkingError::InvalidPacketFormat => String::from_str("invalid packet format"),
            NetworkingError::FrameTooLarge => String::from_str("frame too large"),
            NetworkingError::TransportClosed => String::from_str("transport closed"),
        }
    }
}

} // verus!
