//! A packet as it travels: a type tag and the bytes of a body, not yet
//! interpreted.

use super::error::NetworkingError;
use super::packet::{spec_encode_body, Packet};
use super::packet_type::PacketData;
use crate::coding::buffer::{bytes_copy_from_slice, bytes_view};
use crate::coding::Encoder;
use crate::types::EncodeError;
use bytes::Bytes;
use vstd::prelude::*;
use vstd::slice::slice_subrange;

verus! {

/// One unit of wire data. Once made it is only read.
#[derive(Debug, PartialEq)]
pub struct RawPacket {
    packet_type: u8,
    payload: Bytes,
}

/// A `RawPacket` as plain values.
pub struct RawPacketView {
    pub packet_type: u8,
    pub payload: Seq<u8>,
}

impl View for RawPacket {
    type V = RawPacketView;

    closed spec fn view(&self) -> RawPacketView {
        RawPacketView { packet_type: self.packet_type, payload: bytes_view(self.payload) }
    }
}

/// The raw packet in the body of a frame: the first byte is the type tag,
/// the rest is the payload. A body without a byte has no tag.
pub open spec fn spec_parse_raw(frame: Seq<u8>) -> Result<RawPacketView, NetworkingError> {
    if frame.len() == 0 {
        Err(NetworkingError::InvalidPacketFormat)
    } else {
        Ok(RawPacketView { packet_type: frame[0], payload: frame.skip(1) })
    }
}

/// The body of the frame that carries a raw packet.
pub open spec fn spec_raw_bytes(raw: RawPacketView) -> Seq<u8> {
    seq![raw.packet_type] + raw.payload
}

impl RawPacket {
    /// A raw packet of the given type with the given payload.
    pub fn new(packet_type: u8, payload: Bytes) -> (raw: Self)
        ensures
            raw@ == (RawPacketView { packet_type, payload: bytes_view(payload) }),
    {
        RawPacket { packet_type, payload }
    }

    /// The type tag.
    pub fn packet_type(&self) -> (tag: u8)
        ensures
            tag == self@.packet_type,
    {
        self.packet_type
    }

    /// The bytes of the body.
    pub fn payload(&self) -> (payload: &Bytes)
        ensures
            bytes_view(*payload) == self@.payload,
    {
        &self.payload
    }

    /// Splits the body of a frame into type tag and payload.
    pub fn parse(frame: &[u8]) -> (r: Result<RawPacket, NetworkingError>)
        ensures
            match spec_parse_raw(frame@) {
                Ok(raw) => r is Ok && r->Ok_0@ == raw,
                Err(e) => r == Err::<RawPacket, NetworkingError>(e),
            },
    {
        if frame.len() == 0 {
            return Err(NetworkingError::InvalidPacketFormat);
        }
        let payload = bytes_copy_from_slice(slice_subrange(frame, 1, frame.len()));
        Ok(RawPacket { packet_type: frame[0], payload })
    }

    /// The raw form of a typed packet: its tag and its serialized body.
    pub fn from(packet: Packet) -> (r: Result<RawPacket, EncodeError>)
        ensures
            match spec_encode_body(packet@) {
                Ok(body) => r is Ok && r->Ok_0@ == (RawPacketView {
                    packet_type: packet@.spec_packet_id(),
                    payload: body,
                }),
                Err(e) => r == Err::<RawPacket, EncodeError>(e),
            },
    {
        let mut encoder = Encoder::new();
        proof {
            packet@.lemma_body_fits();
        }
        let written = match &packet {
            Packet::Login(body) => body.serialize(&mut encoder),
            Packet::Logout(body) => body.serialize(&mut encoder),
            Packet::Message(body) => body.serialize(&mut encoder),
        };
        match written {
            Ok(()) => {
                assert(encoder@ =~= spec_encode_body(packet@)->Ok_0);
                Ok(RawPacket { packet_type: packet.packet_id(), payload: encoder.take_bytes() })
            },
            Err(e) => Err(e),
        }
    }
}

/// Splitting the body of a frame undoes building it.
pub proof fn lemma_raw_round_trip(raw: RawPacketView)
    ensures
        spec_parse_raw(spec_raw_bytes(raw)) == Ok::<RawPacketView, NetworkingError>(raw),
{
    assert(spec_raw_bytes(raw).skip(1) =~= raw.payload);
}

} // verus!
