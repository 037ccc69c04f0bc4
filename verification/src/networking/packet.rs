//! The typed packets and the dispatch that makes them from raw ones.

use super::message_payload::MessagePayloadView;
use super::packet_type::{
    lemma_login_round_trip, lemma_logout_round_trip, lemma_message_round_trip, LoginPacket,
    LoginPacketView, LogoutPacket, LogoutPacketView, MessagePacket, MessagePacketView, PacketData,
    MESSAGE, SIGN_IN, SIGN_OUT,
};
use super::raw_packet::{RawPacket, RawPacketView};
use crate::coding::buffer::{bytes_as_slice, fits};
use crate::coding::encoder::MAX_STRING_LENGTH;
use crate::coding::endian::{lemma_be_bytes_len, twos_complement};
use crate::coding::varint::lemma_varint32_round_trip;
use crate::coding::Decoder;
use crate::types::{DecodeError, EncodeError};
use vstd::prelude::*;
use vstd::utf8::encode_utf8;

verus! {

/// The longest frame body that a connection accepts or sends: type tag and
/// packet body together.
pub const MAX_PACKET_SIZE: usize = 1_048_576;

/// A decoded packet of one of the known kinds.
#[derive(Debug, PartialEq)]
pub enum Packet {
    Login(LoginPacket),
    Logout(LogoutPacket),
    Message(MessagePacket),
}

/// A `Packet` as plain values.
pub enum PacketView {
    Login(LoginPacketView),
    Logout(LogoutPacketView),
    Message(MessagePacketView),
}

impl View for Packet {
    type V = PacketView;

    open spec fn view(&self) -> PacketView {
        match self {
            Packet::Login(body) => PacketView::Login(body@),
            Packet::Logout(body) => PacketView::Logout(body@),
            Packet::Message(body) => PacketView::Message(body@),
        }
    }
}

impl PacketView {
    /// The type tag that the packet travels under.
    pub open spec fn spec_packet_id(self) -> u8 {
        match self {
            PacketView::Login(_) => SIGN_IN,
            PacketView::Logout(_) => SIGN_OUT,
            PacketView::Message(_) => MESSAGE,
        }
    }

    /// A body that can be written is far shorter than any buffer's limit.
    pub proof fn lemma_body_fits(self)
        ensures
            spec_encode_body(self) matches Ok(body) ==> body.len() <= 6 + 2 * (5
                + MAX_STRING_LENGTH) && fits(0, body.len()),
    {
        match self {
            PacketView::Login(body) => {
                let name = encode_utf8(body.username);
                let word = encode_utf8(body.password);
                if name.len() <= MAX_STRING_LENGTH && word.len() <= MAX_STRING_LENGTH {
                    lemma_varint32_round_trip(name.len() as u32);
                    lemma_varint32_round_trip(word.len() as u32);
                }
            },
            PacketView::Logout(body) => {
                lemma_be_bytes_len(twos_complement(body.session_id as int, 64), 8);
            },
            PacketView::Message(body) => {
                lemma_be_bytes_len(twos_complement(body.destination as int, 32), 4);
                match body.message_payload {
                    MessagePayloadView::Text(text) => {
                        let bytes = encode_utf8(text);
                        if bytes.len() <= MAX_STRING_LENGTH {
                            lemma_varint32_round_trip(bytes.len() as u32);
                        }
                    },
                    MessagePayloadView::File(bytes) => {
                        if bytes.len() <= MAX_STRING_LENGTH {
                            lemma_varint32_round_trip(bytes.len() as u32);
                        }
                    },
                    MessagePayloadView::Invalid => {},
                }
            },
        }
    }
}

/// The serialized body of a packet, or why it cannot be written.
pub open spec fn spec_encode_body(packet: PacketView) -> Result<Seq<u8>, EncodeError> {
    match packet {
        PacketView::Login(body) => LoginPacket::spec_serialize(body),
        PacketView::Logout(body) => LogoutPacket::spec_serialize(body),
        PacketView::Message(body) => MessagePacket::spec_serialize(body),
    }
}

/// The typed packet that a raw packet decodes to: the type tag selects the
/// kind, and the kind reads its body from the payload. Bytes behind the body
/// are not looked at.
pub open spec fn spec_dispatch(raw: RawPacketView) -> Result<PacketView, DecodeError> {
    if raw.packet_type == SIGN_IN {
        match LoginPacket::spec_deserialize(raw.payload) {
            Ok((body, _)) => Ok(PacketView::Login(body)),
            Err(e) => Err(e),
        }
    } else if raw.packet_type == SIGN_OUT {
        match LogoutPacket::spec_deserialize(raw.payload) {
            Ok((body, _)) => Ok(PacketView::Logout(body)),
            Err(e) => Err(e),
        }
    } else if raw.packet_type == MESSAGE {
        match MessagePacket::spec_deserialize(raw.payload) {
            Ok((body, _)) => Ok(PacketView::Message(body)),
            Err(e) => Err(e),
        }
    } else {
        Err(DecodeError::UnknownPacketTag)
    }
}

impl Packet {
    /// Decodes a raw packet into the typed packet of its kind.
    pub fn from(raw_packet: RawPacket) -> (r: Result<Packet, DecodeError>)
        ensures
            match spec_dispatch(raw_packet@) {
                Ok(packet) => r is Ok && r->Ok_0@ == packet,
                Err(e) => r == Err::<Packet, DecodeError>(e),
            },
    {
        let mut decoder = Decoder::new(bytes_as_slice(raw_packet.payload()));

        match raw_packet.packet_type() {
            SIGN_IN => {
                let mut packet = LoginPacket::default();
                match packet.deserialize(&mut decoder) {
                    Ok(()) => Ok(Packet::Login(packet)),
                    Err(e) => Err(e),
                }
            },
            SIGN_OUT => {
                let mut packet = LogoutPacket::default();
                match packet.deserialize(&mut decoder) {
                    Ok(()) => Ok(Packet::Logout(packet)),
                    Err(e) => Err(e),
                }
            },
            MESSAGE => {
                let mut packet = MessagePacket::default();
                match packet.deserialize(&mut decoder) {
                    Ok(()) => Ok(Packet::Message(packet)),
                    Err(e) => Err(e),
                }
            },
            _ => Err(DecodeError::UnknownPacketTag),
        }
    }

    /// The type tag that this packet travels under.
    pub fn packet_id(&self) -> (id: u8)
        ensures
            id == self@.spec_packet_id(),
    {
        match self {
            Packet::Login(body) => body.packet_id(),
            Packet::Logout(body) => body.packet_id(),
            Packet::Message(body) => body.packet_id(),
        }
    }
}

/// A packet that was written into a raw packet is decoded from it as it
/// was.
pub proof fn lemma_dispatch_round_trip(packet: PacketView)
    requires
        spec_encode_body(packet) is Ok,
    ensures
        spec_dispatch(
            RawPacketView {
                packet_type: packet.spec_packet_id(),
                payload: spec_encode_body(packet)->Ok_0,
            },
        ) == Ok::<PacketView, DecodeError>(packet),
{
    let body = spec_encode_body(packet)->Ok_0;
    assert(body + Seq::<u8>::empty() =~= body);
    match packet {
        PacketView::Login(login) => lemma_login_round_trip(login, Seq::<u8>::empty()),
        PacketView::Logout(logout) => lemma_logout_round_trip(logout, Seq::<u8>::empty()),
        PacketView::Message(message) => lemma_message_round_trip(message, Seq::<u8>::empty()),
    }
}

/// A type tag that no kind has is refused whatever the payload holds.
pub proof fn lemma_unknown_tag(raw: RawPacketView)
    requires
        raw.packet_type != SIGN_IN,
        raw.packet_type != SIGN_OUT,
        raw.packet_type != MESSAGE,
    ensures
        spec_dispatch(raw) == Err::<PacketView, DecodeError>(DecodeError::UnknownPacketTag),
{
}

/// No decoded message is left without a payload.
pub proof fn lemma_decoded_payload_is_set(raw: RawPacketView)
    ensures
        spec_dispatch(raw) matches Ok(PacketView::Message(message)) ==> !(message.message_payload
            is Invalid),
{
}

} // verus!
