//! The failures that the codec and the dispatcher report.
//!
//! None of them aborts anything: each is handed back to the caller, which
//! decides what becomes of the session.

use crate::coding::varint::VarintError;
use vstd::prelude::*;

verus! {

/// Why bytes could not be decoded into a value.
#[derive(Debug, Clone, Copy, PartialEq, Eq, Structural)]
pub enum DecodeError {
    /// Fewer bytes are left than the field needs.
    InsufficientData,
    /// A variable-length integer is cut short or too long for its target.
    MalformedVarint(VarintError),
    /// A boolean byte is neither `0x00` nor `0x01`.
    InvalidBoolEncoding,
    /// The bytes of a string are not valid UTF-8.
    InvalidUtf8,
    /// A frame carries a type tag that no packet kind has.
    UnknownPacketTag,
    /// A tag inside a packet body selects no variant.
    UnknownInnerDiscriminant,
}

/// Why a value could not be encoded.
#[derive(Debug, Clone, Copy, PartialEq, Eq, Structural)]
pub enum EncodeError {
    /// A string or blob is longer than the wire format's limit.
    LengthLimitExceeded,
    /// A message holds no payload yet.
    InvalidPayload,
}

} // verus!
