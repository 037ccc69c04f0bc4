//! The packet kinds. Each one knows its type tag, how to write its body and
//! how to read it back.

use super::message_payload::{DestinationType, MessagePayload, MessagePayloadView};
use crate::coding::buffer::bytes_view;
use crate::coding::decoder::{spec_read_blob, spec_read_string};
use crate::coding::encoder::{
    lemma_blob_read_back, lemma_string_read_back, spec_write_blob, MAX_STRING_LENGTH,
};
use crate::coding::endian::{
    be_bytes, be_value, lemma_be_bytes_len, lemma_signed_read_back, signed_value, twos_complement,
};
use crate::coding::{Decoder, Encoder};
use crate::types::{DecodeError, EncodeError};
use vstd::prelude::*;
use vstd::utf8::encode_utf8;

verus! {

/// A user trying to sign in to the server.
pub const SIGN_IN: u8 = 1;

/// A user trying to sign out from the server.
pub const SIGN_OUT: u8 = 2;

/// A message from a user.
pub const MESSAGE: u8 = 3;

/// The body of one packet kind.
///
/// `spec_serialize` and `spec_deserialize` say, over plain values, what the
/// body looks like on the wire. The executable methods are held to them, and
/// both leave their buffer as it was when they fail.
pub trait PacketData: View + Sized + Send {
    /// The type tag of this kind.
    spec fn spec_packet_id() -> u8;

    /// The bytes of a body, or why it cannot be written.
    spec fn spec_serialize(body: Self::V) -> Result<Seq<u8>, EncodeError>;

    /// The body at the front of `bytes` and the number of bytes it takes,
    /// or why there is none.
    spec fn spec_deserialize(bytes: Seq<u8>) -> Result<(Self::V, nat), DecodeError>;

    /// The type tag of this kind.
    fn packet_id(&self) -> (id: u8)
        ensures
            id == Self::spec_packet_id(),
    ;

    /// Reads a body from `data` into `self`. On failure neither changes.
    fn deserialize(&mut self, data: &mut Decoder) -> (r: Result<(), DecodeError>)
        ensures
            match Self::spec_deserialize(old(data)@) {
                Ok((body, used)) => {
                    &&& r is Ok
                    &&& final(self)@ == body
                    &&& final(data)@ == old(data)@.skip(used as int)
                },
                Err(e) => {
                    &&& r == Err::<(), DecodeError>(e)
                    &&& final(self)@ == old(self)@
                    &&& final(data)@ == old(data)@
                },
            },
    ;

    /// Writes the body behind what `encoder` holds. On failure nothing is
    /// written.
    fn serialize(&self, encoder: &mut Encoder) -> (r: Result<(), EncodeError>)
        requires
            Self::spec_serialize(self@) matches Ok(bytes) ==> old(encoder).has_room(bytes.len()),
        ensures
            match Self::spec_serialize(self@) {
                Ok(bytes) => r is Ok && final(encoder)@ == old(encoder)@ + bytes,
                Err(e) => r == Err::<(), EncodeError>(e) && final(encoder)@ == old(encoder)@,
            },
    ;
}

/// The body of a sign-in: who, and with what password.
#[derive(Debug, PartialEq)]
pub struct LoginPacket {
    username: String,
    password: String,
}

/// A `LoginPacket` as plain values.
pub struct LoginPacketView {
    pub username: Seq<char>,
    pub password: Seq<char>,
}

impl View for LoginPacket {
    type V = LoginPacketView;

    closed spec fn view(&self) -> LoginPacketView {
        LoginPacketView { username: self.username@, password: self.password@ }
    }
}

impl Default for LoginPacket {
    fn default() -> (packet: Self)
        ensures
            packet@ == (LoginPacketView {
                username: Seq::<char>::empty(),
                password: Seq::<char>::empty(),
            }),
    {
        LoginPacket { username: String::new(), password: String::new() }
    }
}

impl LoginPacket {
    /// A sign-in with the given name and password.
    pub fn new(username: String, password: String) -> (packet: Self)
        ensures
            packet@ == (LoginPacketView { username: username@, password: password@ }),
    {
        LoginPacket { username, password }
    }

    /// Who signs in.
    pub fn username(&self) -> (username: &String)
        ensures
            username@ == self@.username,
    {
        &self.username
    }

    /// The password given.
    pub fn password(&self) -> (password: &String)
        ensures
            password@ == self@.password,
    {
        &self.password
    }
}

impl PacketData for LoginPacket {
    open spec fn spec_packet_id() -> u8 {
        SIGN_IN
    }

    open spec fn spec_serialize(body: LoginPacketView) -> Result<Seq<u8>, EncodeError> {
        if encode_utf8(body.username).len() > MAX_STRING_LENGTH || encode_utf8(body.password).len()
            > MAX_STRING_LENGTH {
            Err(EncodeError::LengthLimitExceeded)
        } else {
            Ok(
                spec_write_blob(encode_utf8(body.username)) + spec_write_blob(
                    encode_utf8(body.password),
                ),
            )
        }
    }

    open spec fn spec_deserialize(bytes: Seq<u8>) -> Result<(LoginPacketView, nat), DecodeError> {
        match spec_read_string(bytes) {
            Err(e) => Err(e),
            Ok((username, first)) => match spec_read_string(bytes.skip(first as int)) {
                Err(e) => Err(e),
                Ok((password, second)) => Ok(
                    (LoginPacketView { username, password }, first + second),
                ),
            },
        }
    }

    fn deserialize(&mut self, data: &mut Decoder) -> (r: Result<(), DecodeError>) {
        let start = *data;
        let username = match data.read_string() {
            Ok(text) => text,
            Err(e) => {
                return Err(e);
            },
        };
        let password = match data.read_string() {
            Ok(text) => text,
            Err(e) => {
                *data = start;
                return Err(e);
            },
        };
        proof {
            lemma_skip_twice(old(data)@);
        }
        self.username = username;
        self.password = password;
        Ok(())
    }

    fn serialize(&self, encoder: &mut Encoder) -> (r: Result<(), EncodeError>) {
        if self.username.as_str().as_bytes().len() > MAX_STRING_LENGTH
            || self.password.as_str().as_bytes().len() > MAX_STRING_LENGTH {
            return Err(EncodeError::LengthLimitExceeded);
        }
        let ghost first = spec_write_blob(encode_utf8(self.username@));
        let ghost second = spec_write_blob(encode_utf8(self.password@));
        match encoder.write_string_ref(&self.username) {
            Ok(()) => {},
            Err(e) => {
                return Err(e);
            },
        }
        match encoder.write_string_ref(&self.password) {
            Ok(()) => {},
            Err(e) => {
                return Err(e);
            },
        }
        assert(encoder@ =~= old(encoder)@ + (first + second));
        Ok(())
    }

    fn packet_id(&self) -> (id: u8) {
        SIGN_IN
    }
}

/// Skipping in two steps is skipping the sum.
proof fn lemma_skip_twice(s: Seq<u8>)
    ensures
        forall|a: int, b: int|
            0 <= a && 0 <= b && a + b <= s.len() ==> #[trigger] s.skip(a).skip(b) == s.skip(a + b),
{
    assert forall|a: int, b: int| 0 <= a && 0 <= b && a + b <= s.len() implies #[trigger] s.skip(
        a,
    ).skip(b) == s.skip(a + b) by {
        assert(s.skip(a).skip(b) =~= s.skip(a + b));
    }
}

/// The body of a sign-out: the session that ends.
#[derive(Debug, PartialEq)]
pub struct LogoutPacket {
    session_id: i64,
}

/// A `LogoutPacket` as plain values.
pub struct LogoutPacketView {
    pub session_id: i64,
}

impl View for LogoutPacket {
    type V = LogoutPacketView;

    closed spec fn view(&self) -> LogoutPacketView {
        LogoutPacketView { session_id: self.session_id }
    }
}

impl Default for LogoutPacket {
    fn default() -> (packet: Self)
        ensures
            packet@ == (LogoutPacketView { session_id: 0 }),
    {
        LogoutPacket { session_id: 0 }
    }
}

impl LogoutPacket {
    /// A sign-out of the given session.
    pub fn new(session_id: i64) -> (packet: Self)
        ensures
            packet@ == (LogoutPacketView { session_id }),
    {
        LogoutPacket { session_id }
    }

    /// The session that ends.
    pub fn session_id(&self) -> (session_id: i64)
        ensures
            session_id == self@.session_id,
    {
        self.session_id
    }
}

impl PacketData for LogoutPacket {
    open spec fn spec_packet_id() -> u8 {
        SIGN_OUT
    }

    open spec fn spec_serialize(body: LogoutPacketView) -> Result<Seq<u8>, EncodeError> {
        Ok(be_bytes(twos_complement(body.session_id as int, 64), 8))
    }

    open spec fn spec_deserialize(bytes: Seq<u8>) -> Result<(LogoutPacketView, nat), DecodeError> {
        if bytes.len() < 8 {
            Err(DecodeError::InsufficientData)
        } else {
            Ok(
                (
                    LogoutPacketView {
                        session_id: signed_value(be_value(bytes.take(8)), 64) as i64,
                    },
                    8,
                ),
            )
        }
    }

    fn deserialize(&mut self, data: &mut Decoder) -> (r: Result<(), DecodeError>) {
        match data.read_i64() {
            Ok(session_id) => {
                self.session_id = session_id;
                Ok(())
            },
            Err(e) => Err(e),
        }
    }

    fn serialize(&self, encoder: &mut Encoder) -> (r: Result<(), EncodeError>) {
        proof {
            lemma_be_bytes_len(twos_complement(self.session_id as int, 64), 8);
        }
        encoder.write_i64(self.session_id);
        Ok(())
    }

    fn packet_id(&self) -> (id: u8) {
        SIGN_OUT
    }
}

/// The body of a message: where it goes and what it carries.
#[derive(Debug, PartialEq)]
pub struct MessagePacket {
    /// The id of the destination. Can be an individual user or a channel.
    pub destination: i32,
    /// Indicates the destination type: channel or user.
    pub destination_type: DestinationType,
    /// The payload of the message.
    pub message_payload: MessagePayload,
}

/// A `MessagePacket` as plain values.
pub struct MessagePacketView {
    pub destination: i32,
    pub destination_type: DestinationType,
    pub message_payload: MessagePayloadView,
}

impl View for MessagePacket {
    type V = MessagePacketView;

    open spec fn view(&self) -> MessagePacketView {
        MessagePacketView {
            destination: self.destination,
            destination_type: self.destination_type,
            message_payload: self.message_payload@,
        }
    }
}

impl Default for MessagePacket {
    fn default() -> (packet: Self)
        ensures
            packet@ == (MessagePacketView {
                destination: 0,
                destination_type: DestinationType::Unknown,
                message_payload: MessagePayloadView::Invalid,
            }),
    {
        MessagePacket {
            destination: 0,
            destination_type: DestinationType::Unknown,
            message_payload: MessagePayload::Invalid,
        }
    }
}

/// The tag byte in front of a text payload.
pub const PAYLOAD_TEXT: u8 = 1;

/// The tag byte in front of a file payload.
pub const PAYLOAD_FILE: u8 = 2;

/// The bytes in front of the payload of a message: destination, kind of
/// destination, payload tag.
pub open spec fn spec_message_header(
    destination: i32,
    destination_type: DestinationType,
    tag: u8,
) -> Seq<u8> {
    be_bytes(twos_complement(destination as int, 32), 4).push(
        destination_type.spec_to_code(),
    ).push(tag)
}

impl PacketData for MessagePacket {
    open spec fn spec_packet_id() -> u8 {
        MESSAGE
    }

    open spec fn spec_serialize(body: MessagePacketView) -> Result<Seq<u8>, EncodeError> {
        match body.message_payload {
            MessagePayloadView::Invalid => Err(EncodeError::InvalidPayload),
            MessagePayloadView::Text(text) => if encode_utf8(text).len() > MAX_STRING_LENGTH {
                Err(EncodeError::LengthLimitExceeded)
            } else {
                Ok(
                    spec_message_header(body.destination, body.destination_type, PAYLOAD_TEXT)
                        + spec_write_blob(encode_utf8(text)),
                )
            },
            MessagePayloadView::File(bytes) => if bytes.len() > MAX_STRING_LENGTH {
                Err(EncodeError::LengthLimitExceeded)
            } else {
                Ok(
                    spec_message_header(body.destination, body.destination_type, PAYLOAD_FILE)
                        + spec_write_blob(bytes),
                )
            },
        }
    }

    open spec fn spec_deserialize(bytes: Seq<u8>) -> Result<(MessagePacketView, nat), DecodeError> {
        if bytes.len() < 6 {
            Err(DecodeError::InsufficientData)
        } else {
            let destination = signed_value(be_value(bytes.take(4)), 32) as i32;
            let destination_type = DestinationType::spec_from(bytes[4]);
            if bytes[5] == PAYLOAD_TEXT {
                match spec_read_string(bytes.skip(6)) {
                    Err(e) => Err(e),
                    Ok((text, used)) => Ok(
                        (
                            MessagePacketView {
                                destination,
                                destination_type,
                                message_payload: MessagePayloadView::Text(text),
                            },
                            6 + used,
                        ),
                    ),
                }
            } else if bytes[5] == PAYLOAD_FILE {
                match spec_read_blob(bytes.skip(6)) {
                    Err(e) => Err(e),
                    Ok((file, used)) => Ok(
                        (
                            MessagePacketView {
                                destination,
                                destination_type,
                                message_payload: MessagePayloadView::File(file),
                            },
                            6 + used,
                        ),
                    ),
                }
            } else {
                Err(DecodeError::UnknownInnerDiscriminant)
            }
        }
    }

    fn deserialize(&mut self, data: &mut Decoder) -> (r: Result<(), DecodeError>) {
        let start = *data;
        if data.remaining() < 6 {
            return Err(DecodeError::InsufficientData);
        }
        proof {
            lemma_skip_twice(old(data)@);
            assert(old(data)@.skip(4)[0] == old(data)@[4]);
            assert(old(data)@.skip(5)[0] == old(data)@[5]);
        }
        let destination = match data.read_i32() {
            Ok(value) => value,
            Err(e) => {
                return Err(e);
            },
        };
        let destination_type = match data.read_u8() {
            Ok(code) => DestinationType::from(code),
            Err(e) => {
                *data = start;
                return Err(e);
            },
        };
        let tag = match data.read_i8() {
            Ok(value) => value,
            Err(e) => {
                *data = start;
                return Err(e);
            },
        };
        proof {
            vstd::arithmetic::power2::lemma2_to64();
        }
        let message_payload = match tag {
            1 => {
                match data.read_string() {
                    Ok(message) => MessagePayload::Text(message),
                    Err(e) => {
                        *data = start;
                        return Err(e);
                    },
                }
            },
            2 => {
                match data.read_bytes() {
                    Ok(buffer) => MessagePayload::File(buffer),
                    Err(e) => {
                        *data = start;
                        return Err(e);
                    },
                }
            },
            _ => {
                *data = start;
                return Err(DecodeError::UnknownInnerDiscriminant);
            },
        };
        self.destination = destination;
        self.destination_type = destination_type;
        self.message_payload = message_payload;
        Ok(())
    }

    fn serialize(&self, encoder: &mut Encoder) -> (r: Result<(), EncodeError>) {
        let code = self.destination_type.to_code();
        proof {
            lemma_be_bytes_len(twos_complement(self.destination as int, 32), 4);
            vstd::arithmetic::power2::lemma2_to64();
            reveal_with_fuel(be_bytes, 2);
        }
        match &self.message_payload {
            MessagePayload::Text(text) => {
                if text.as_str().as_bytes().len() > MAX_STRING_LENGTH {
                    return Err(EncodeError::LengthLimitExceeded);
                }
                encoder.write_i32(self.destination);
                encoder.write_u8(code);
                encoder.write_i8(1);
                assert(encoder@ =~= old(encoder)@ + spec_message_header(
                    self.destination,
                    self.destination_type,
                    PAYLOAD_TEXT,
                ));
                match encoder.write_string_ref(text) {
                    Ok(()) => {},
                    Err(e) => {
                        return Err(e);
                    },
                }
                assert(encoder@ =~= old(encoder)@ + (spec_message_header(
                    self.destination,
                    self.destination_type,
                    PAYLOAD_TEXT,
                ) + spec_write_blob(encode_utf8(text@))));
                Ok(())
            },
            MessagePayload::File(buffer) => {
                if crate::coding::buffer::bytes_as_slice(buffer).len() > MAX_STRING_LENGTH {
                    return Err(EncodeError::LengthLimitExceeded);
                }
                encoder.write_i32(self.destination);
                encoder.write_u8(code);
                encoder.write_i8(2);
                assert(encoder@ =~= old(encoder)@ + spec_message_header(
                    self.destination,
                    self.destination_type,
                    PAYLOAD_FILE,
                ));
                match encoder.write_bytes(buffer) {
                    Ok(()) => {},
                    Err(e) => {
                        return Err(e);
                    },
                }
                assert(encoder@ =~= old(encoder)@ + (spec_message_header(
                    self.destination,
                    self.destination_type,
                    PAYLOAD_FILE,
                ) + spec_write_blob(bytes_view(*buffer))));
                Ok(())
            },
            MessagePayload::Invalid => Err(EncodeError::InvalidPayload),
        }
    }

    fn packet_id(&self) -> (id: u8) {
        MESSAGE
    }
}

/// A sign-in that was written is read back field for field, and takes
/// exactly the bytes that were written.
pub proof fn lemma_login_round_trip(body: LoginPacketView, rest: Seq<u8>)
    requires
        LoginPacket::spec_serialize(body) is Ok,
    ensures
        LoginPacket::spec_deserialize(LoginPacket::spec_serialize(body)->Ok_0 + rest) == Ok::<
            (LoginPacketView, nat),
            DecodeError,
        >((body, LoginPacket::spec_serialize(body)->Ok_0.len())),
{
    let first = spec_write_blob(encode_utf8(body.username));
    let second = spec_write_blob(encode_utf8(body.password));
    let wire = first + second + rest;
    assert(wire =~= first + (second + rest));
    lemma_string_read_back(body.username, second + rest);
    assert(wire.skip(first.len() as int) =~= second + rest);
    lemma_string_read_back(body.password, rest);
}

/// A sign-out that was written is read back as it was.
pub proof fn lemma_logout_round_trip(body: LogoutPacketView, rest: Seq<u8>)
    ensures
        LogoutPacket::spec_deserialize(LogoutPacket::spec_serialize(body)->Ok_0 + rest) == Ok::<
            (LogoutPacketView, nat),
            DecodeError,
        >((body, 8)),
        LogoutPacket::spec_serialize(body)->Ok_0.len() == 8,
{
    vstd::arithmetic::power2::lemma2_to64();
    vstd::arithmetic::power2::lemma2_to64_rest();
    lemma_signed_read_back(body.session_id as int, 8, rest);
    lemma_be_bytes_len(twos_complement(body.session_id as int, 64), 8);
}

/// What stands where in a message that starts with its header.
proof fn lemma_message_header(
    destination: i32,
    destination_type: DestinationType,
    tag: u8,
    tail: Seq<u8>,
)
    ensures
        ({
            let wire = spec_message_header(destination, destination_type, tag) + tail;
            &&& spec_message_header(destination, destination_type, tag).len() == 6
            &&& signed_value(be_value(wire.take(4)), 32) == destination
            &&& wire[4] == destination_type.spec_to_code()
            &&& wire[5] == tag
            &&& wire.skip(6) == tail
        }),
{
    let pattern = twos_complement(destination as int, 32);
    let code = destination_type.spec_to_code();
    let header = spec_message_header(destination, destination_type, tag);
    let wire = header + tail;
    lemma_be_bytes_len(pattern, 4);
    assert(wire =~= be_bytes(pattern, 4) + (seq![code, tag] + tail));
    assert(signed_value(be_value(wire.take(4)), 32) == destination) by {
        vstd::arithmetic::power2::lemma2_to64();
        lemma_signed_read_back(destination as int, 4, seq![code, tag] + tail);
    }
    assert(wire.skip(6) =~= tail);
}

/// A message that was written is read back field for field, and takes
/// exactly the bytes that were written.
pub proof fn lemma_message_round_trip(body: MessagePacketView, rest: Seq<u8>)
    requires
        MessagePacket::spec_serialize(body) is Ok,
    ensures
        MessagePacket::spec_deserialize(MessagePacket::spec_serialize(body)->Ok_0 + rest) == Ok::<
            (MessagePacketView, nat),
            DecodeError,
        >((body, MessagePacket::spec_serialize(body)->Ok_0.len())),
{
    let written = MessagePacket::spec_serialize(body)->Ok_0;
    let wire = written + rest;
    match body.message_payload {
        MessagePayloadView::Invalid => {},
        MessagePayloadView::Text(text) => {
            let blob = spec_write_blob(encode_utf8(text));
            let header = spec_message_header(body.destination, body.destination_type, PAYLOAD_TEXT);
            lemma_message_header(
                body.destination,
                body.destination_type,
                PAYLOAD_TEXT,
                blob + rest,
            );
            assert(wire =~= header + (blob + rest));
            lemma_string_read_back(text, rest);
            assert(written.len() == 6 + blob.len());
        },
        MessagePayloadView::File(file) => {
            let blob = spec_write_blob(file);
            let header = spec_message_header(body.destination, body.destination_type, PAYLOAD_FILE);
            lemma_message_header(
                body.destination,
                body.destination_type,
                PAYLOAD_FILE,
                blob + rest,
            );
            assert(wire =~= header + (blob + rest));
            lemma_blob_read_back(file, rest);
            assert(written.len() == 6 + blob.len());
        },
    }
}

} // verus!
