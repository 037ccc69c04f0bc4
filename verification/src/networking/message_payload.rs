//! What a message carries and whom it is for.

use crate::coding::buffer::bytes_view;
use bytes::Bytes;
use vstd::prelude::*;

verus! {

/// The content of a message.
#[derive(Debug, PartialEq)]
pub enum MessagePayload {
    /// Nothing decoded yet. A decoded message never holds it.
    Invalid,
    /// A text.
    Text(String),
    /// The bytes of a file.
    File(Bytes),
}

/// A `MessagePayload` as plain values.
pub enum MessagePayloadView {
    Invalid,
    Text(Seq<char>),
    File(Seq<u8>),
}

impl View for MessagePayload {
    type V = MessagePayloadView;

    open spec fn view(&self) -> MessagePayloadView {
        match self {
            MessagePayload::Invalid => MessagePayloadView::Invalid,
            MessagePayload::Text(text) => MessagePayloadView::Text(text@),
            MessagePayload::File(bytes) => MessagePayloadView::File(bytes_view(*bytes)),
        }
    }
}

impl Default for MessagePayload {
    fn default() -> (payload: Self)
        ensures
            payload@ == MessagePayloadView::Invalid,
    {
        MessagePayload::Invalid
    }
}

/// The kind of destination that a message names.
#[derive(Debug, Clone, Copy, PartialEq, Eq, Structural)]
pub enum DestinationType {
    /// A code that names no kind.
    Unknown,
    /// One user.
    User,
    /// A channel and all who subscribe to it.
    Channel,
}

impl Default for DestinationType {
    fn default() -> (kind: Self)
        ensures
            kind == DestinationType::Unknown,
    {
        DestinationType::Unknown
    }
}

impl DestinationType {
    /// The kind that a wire code stands for. No code is refused: one that
    /// names no kind is `Unknown`.
    pub open spec fn spec_from(code: u8) -> Self {
        if code == 1 {
            DestinationType::User
        } else if code == 2 {
            DestinationType::Channel
        } else {
            DestinationType::Unknown
        }
    }

    /// The wire code of a kind; `Unknown` is written as `0`.
    pub open spec fn spec_to_code(&self) -> u8 {
        match self {
            DestinationType::User => 1,
            DestinationType::Channel => 2,
            DestinationType::Unknown => 0,
        }
    }

    /// The kind that a wire code stands for.
    pub fn from(code: u8) -> (kind: Self)
        ensures
            kind == Self::spec_from(code),
            code == 1 ==> kind == DestinationType::User,
            code == 2 ==> kind == DestinationType::Channel,
            code != 1 && code != 2 ==> kind == DestinationType::Unknown,
    {
        match code {
            1 => Self::User,
            2 => Self::Channel,
            _ => Self::Unknown,
        }
    }

    /// The wire code of this kind.
    pub fn to_code(&self) -> (code: u8)
        ensures
            code == self.spec_to_code(),
            Self::spec_from(code) == *self,
    {
        match &self {
            DestinationType::User => 1,
            DestinationType::Channel => 2,
            DestinationType::Unknown => 0,
        }
    }
}

/// Every kind comes back from its own code, and every code is normalised to
/// the code of the kind it stands for.
pub proof fn lemma_destination_codes(kind: DestinationType, code: u8)
    ensures
        DestinationType::spec_from(kind.spec_to_code()) == kind,
        DestinationType::spec_from(code).spec_to_code() == (if code == 1 || code == 2 {
            code
        } else {
            0u8
        }),
{
}

} // verus!
