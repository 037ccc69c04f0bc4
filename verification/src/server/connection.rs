//! Length-delimited framing: what turns the byte stream of a connection into
//! raw packets and back.
//!
//! Every frame is a four-byte big-endian length followed by that many bytes
//! of body; the first byte of the body is the type tag of the packet. The
//! same framing sits on a raw stream and on a web-socket transport.

use crate::coding::buffer::{
    bytes_as_slice, bytes_mut_view, fits, has_room, put_slice, put_u32, put_u8,
};
use crate::coding::endian::{
    be_bytes, be_value, lemma_be_bytes_len, lemma_be_round_trip, lemma_be_value_bound,
};
use crate::coding::Decoder;
use crate::networking::error::NetworkingError;
use crate::networking::packet::{spec_encode_body, PacketView, MAX_PACKET_SIZE};
use crate::networking::raw_packet::{
    lemma_raw_round_trip, spec_parse_raw, spec_raw_bytes, RawPacket, RawPacketView,
};
use bytes::BytesMut;
use vstd::arithmetic::power2::lemma2_to64;
use vstd::prelude::*;
use vstd::slice::slice_subrange;

verus! {

/// Number of bytes in the length prefix of a frame.
pub const LENGTH_FIELD_LENGTH: usize = 4;

/// What the front of a byte stream holds.
pub enum FrameStep {
    /// Not yet a whole frame: more bytes have to arrive.
    Pending,
    /// A whole frame: its raw packet, and the number of bytes it takes
    /// with its prefix.
    Frame(RawPacketView, nat),
    /// Bytes that cannot be the start of an acceptable frame.
    Rejected(NetworkingError),
}

/// What the bytes buffered so far hold at their front, for a connection
/// that accepts bodies of up to `max` bytes. A declared length above `max`
/// is refused as soon as the prefix is there.
pub open spec fn spec_next_frame(src: Seq<u8>, max: nat) -> FrameStep {
    if src.len() < LENGTH_FIELD_LENGTH {
        FrameStep::Pending
    } else {
        let declared = be_value(src.take(LENGTH_FIELD_LENGTH as int));
        if declared > max {
            FrameStep::Rejected(NetworkingError::FrameTooLarge)
        } else if src.len() - LENGTH_FIELD_LENGTH < declared {
            FrameStep::Pending
        } else {
            let body = src.subrange(LENGTH_FIELD_LENGTH as int, LENGTH_FIELD_LENGTH + declared);
            match spec_parse_raw(body) {
                Ok(raw) => FrameStep::Frame(raw, (LENGTH_FIELD_LENGTH + declared) as nat),
                Err(e) => FrameStep::Rejected(e),
            }
        }
    }
}

/// What is left to do with the buffered bytes once the stream has ended:
/// a clean close between frames leaves nothing, a close inside a frame is
/// a failure of its own.
pub open spec fn spec_last_frame(src: Seq<u8>, max: nat) -> FrameStep {
    match spec_next_frame(src, max) {
        FrameStep::Pending => if src.len() == 0 {
            FrameStep::Pending
        } else {
            FrameStep::Rejected(NetworkingError::TransportClosed)
        },
        step => step,
    }
}

/// The frame that carries a raw packet: length prefix, type tag, payload.
pub open spec fn spec_frame_bytes(raw: RawPacketView) -> Seq<u8> {
    be_bytes((1 + raw.payload.len()) as nat, LENGTH_FIELD_LENGTH as nat) + spec_raw_bytes(raw)
}

/// Whether a raw packet fits into one frame of a connection that accepts
/// bodies of up to `max` bytes.
pub open spec fn frame_fits(raw: RawPacketView, max: nat) -> bool {
    1 + raw.payload.len() <= max && 1 + raw.payload.len() <= u32::MAX
}

/// Whether `r` is the answer that `step` calls for: `Ok(None)` while the
/// frame is pending, the frame and its length once it is whole, the error
/// if the bytes were rejected.
pub open spec fn answers(
    r: Result<Option<(RawPacket, usize)>, NetworkingError>,
    step: FrameStep,
) -> bool {
    match step {
        FrameStep::Pending => r is Ok && r->Ok_0 is None,
        FrameStep::Frame(raw, used) => {
            &&& r matches Ok(Some((packet, consumed)))
            &&& packet@ == raw
            &&& consumed == used
        },
        FrameStep::Rejected(e) => r == Err::<Option<(RawPacket, usize)>, NetworkingError>(e),
    }
}

/// The framing of one connection.
#[derive(Debug, Clone, Copy)]
pub struct FrameCodec {
    max_frame_length: usize,
}

impl Default for FrameCodec {
    fn default() -> (codec: Self)
        ensures
            codec.spec_max_frame_length() == MAX_PACKET_SIZE,
    {
        FrameCodec::new(MAX_PACKET_SIZE)
    }
}

impl FrameCodec {
    /// The longest frame body that this connection accepts.
    pub closed spec fn spec_max_frame_length(&self) -> usize {
        self.max_frame_length
    }

    /// Whether the frame of `raw` can be appended to a buffer that holds
    /// `written`: it is within this connection's maximum, and the buffer
    /// has room for it.
    pub open spec fn accepts(&self, raw: RawPacketView, written: Seq<u8>) -> bool {
        &&& frame_fits(raw, self.spec_max_frame_length() as nat)
        &&& fits(written.len(), spec_frame_bytes(raw).len())
    }

    /// The framing of a connection that accepts bodies of up to
    /// `max_frame_length` bytes.
    pub fn new(max_frame_length: usize) -> (codec: Self)
        ensures
            codec.spec_max_frame_length() == max_frame_length,
    {
        FrameCodec { max_frame_length }
    }

    /// The longest frame body that this connection accepts.
    pub fn max_frame_length(&self) -> (max: usize)
        ensures
            max == self.spec_max_frame_length(),
    {
        self.max_frame_length
    }

    /// Looks for a whole frame at the front of the bytes buffered so far.
    /// `Ok(None)` asks for more bytes; a frame comes with the number of
    /// bytes to drop from the buffer.
    pub fn decode(&self, src: &[u8]) -> (r: Result<Option<(RawPacket, usize)>, NetworkingError>)
        ensures
            answers(r, spec_next_frame(src@, self.spec_max_frame_length() as nat)),
    {
        if src.len() < LENGTH_FIELD_LENGTH {
            return Ok(None);
        }
        proof {
            lemma2_to64();
            lemma_be_value_bound(src@.take(4));
        }
        let mut prefix = Decoder::new(src);
        let declared = match prefix.read_u32() {
            Ok(value) => value as usize,
            Err(_) => {
                return Ok(None);
            },
        };
        if declared > self.max_frame_length {
            return Err(NetworkingError::FrameTooLarge);
        }
        if src.len() - LENGTH_FIELD_LENGTH < declared {
            return Ok(None);
        }
        let end = LENGTH_FIELD_LENGTH + declared;
        match RawPacket::parse(slice_subrange(src, LENGTH_FIELD_LENGTH, end)) {
            Ok(raw) => Ok(Some((raw, end))),
            Err(e) => Err(e),
        }
    }

    /// Deals with what is buffered once the stream has ended. `Ok(None)`
    /// is a clean close; leftover bytes that are no whole frame are
    /// `TransportClosed`.
    pub fn decode_eof(&self, src: &[u8]) -> (r: Result<Option<(RawPacket, usize)>, NetworkingError>)
        ensures
            answers(r, spec_last_frame(src@, self.spec_max_frame_length() as nat)),
    {
        match self.decode(src) {
            Ok(None) => if src.len() == 0 {
                Ok(None)
            } else {
                Err(NetworkingError::TransportClosed)
            },
            found => found,
        }
    }

    /// Appends the frame of `packet` to `dst`. A packet that does not fit
    /// into one frame, or into what room `dst` has left, is refused with
    /// nothing written.
    pub fn encode(&self, packet: &RawPacket, dst: &mut BytesMut) -> (r: Result<(), NetworkingError>)
        ensures
            self.accepts(packet@, bytes_mut_view(*old(dst))) ==> {
                &&& r is Ok
                &&& bytes_mut_view(*final(dst)) == bytes_mut_view(*old(dst)) + spec_frame_bytes(
                    packet@,
                )
            },
            !self.accepts(packet@, bytes_mut_view(*old(dst))) ==> {
                &&& r == Err::<(), NetworkingError>(NetworkingError::FrameTooLarge)
                &&& bytes_mut_view(*final(dst)) == bytes_mut_view(*old(dst))
            },
    {
        let payload = bytes_as_slice(packet.payload());
        if payload.len() >= self.max_frame_length || payload.len() >= u32::MAX as usize {
            return Err(NetworkingError::FrameTooLarge);
        }
        proof {
            lemma_be_bytes_len((1 + payload@.len()) as nat, LENGTH_FIELD_LENGTH as nat);
        }
        if payload.len() > isize::MAX as usize - (LENGTH_FIELD_LENGTH + 1) || !has_room(
            dst,
            LENGTH_FIELD_LENGTH + 1 + payload.len(),
        ) {
            return Err(NetworkingError::FrameTooLarge);
        }
        put_u32(dst, (payload.len() + 1) as u32);
        put_u8(dst, packet.packet_type());
        put_slice(dst, payload);
        assert(bytes_mut_view(*dst) =~= bytes_mut_view(*old(dst)) + spec_frame_bytes(packet@));
        Ok(())
    }
}

/// A frame that was written is read back as the same raw packet, and takes
/// exactly the bytes that were written, whatever follows them.
pub proof fn lemma_frame_round_trip(raw: RawPacketView, max: nat, rest: Seq<u8>)
    requires
        frame_fits(raw, max),
    ensures
        spec_next_frame(spec_frame_bytes(raw) + rest, max) == FrameStep::Frame(
            raw,
            spec_frame_bytes(raw).len(),
        ),
        spec_frame_bytes(raw).len() == LENGTH_FIELD_LENGTH + 1 + raw.payload.len(),
{
    let declared = (1 + raw.payload.len()) as nat;
    let prefix = be_bytes(declared, 4);
    let wire = spec_frame_bytes(raw) + rest;
    lemma_be_bytes_len(declared, 4);
    lemma_be_round_trip(declared, 4);
    lemma2_to64();
    vstd::arithmetic::div_mod::lemma_small_mod(declared, 0x1_0000_0000);
    assert(wire.take(4) =~= prefix);
    assert(wire.subrange(4, 4 + declared as int) =~= spec_raw_bytes(raw));
    lemma_raw_round_trip(raw);
}

/// A strict prefix of a frame is never taken for a frame: it asks for more
/// bytes.
pub proof fn lemma_frame_prefix_pending(raw: RawPacketView, max: nat, n: int)
    requires
        frame_fits(raw, max),
        0 <= n < spec_frame_bytes(raw).len(),
    ensures
        spec_next_frame(spec_frame_bytes(raw).take(n), max) == FrameStep::Pending,
{
    let declared = (1 + raw.payload.len()) as nat;
    let prefix = be_bytes(declared, 4);
    let part = spec_frame_bytes(raw).take(n);
    lemma_be_bytes_len(declared, 4);
    lemma_be_round_trip(declared, 4);
    lemma2_to64();
    vstd::arithmetic::div_mod::lemma_small_mod(declared, 0x1_0000_0000);
    if n >= 4 {
        assert(part.take(4) =~= prefix);
    }
}

/// A frame that is handed out lies wholly within the buffered bytes: its
/// declared length is the length of type tag and payload together, is
/// within the maximum, and all of it has arrived.
pub proof fn lemma_frame_within(src: Seq<u8>, max: nat)
    ensures
        spec_next_frame(src, max) matches FrameStep::Frame(raw, used) ==> {
            &&& used == LENGTH_FIELD_LENGTH + 1 + raw.payload.len()
            &&& used <= src.len()
            &&& 1 + raw.payload.len() <= max
            &&& be_value(src.take(LENGTH_FIELD_LENGTH as int)) == 1 + raw.payload.len()
        },
{
}

/// Two frames written one behind the other are read back one after the
/// other, whatever their type tags are: what the dispatcher later makes of
/// the first has no bearing on where the second starts.
pub proof fn lemma_frames_in_sequence(
    first: RawPacketView,
    second: RawPacketView,
    max: nat,
    rest: Seq<u8>,
)
    requires
        frame_fits(first, max),
        frame_fits(second, max),
    ensures
        ({
            let wire = spec_frame_bytes(first) + spec_frame_bytes(second) + rest;
            let used = spec_frame_bytes(first).len();
            &&& spec_next_frame(wire, max) == FrameStep::Frame(first, used)
            &&& spec_next_frame(wire.skip(used as int), max) == FrameStep::Frame(
                second,
                spec_frame_bytes(second).len(),
            )
        }),
{
    let wire = spec_frame_bytes(first) + spec_frame_bytes(second) + rest;
    let used = spec_frame_bytes(first).len();
    assert(wire =~= spec_frame_bytes(first) + (spec_frame_bytes(second) + rest));
    lemma_frame_round_trip(first, max, spec_frame_bytes(second) + rest);
    assert(wire.skip(used as int) =~= spec_frame_bytes(second) + rest);
    lemma_frame_round_trip(second, max, rest);
}

/// Every packet that can be serialized fits into one frame of a connection
/// with the default maximum.
pub proof fn lemma_packet_fits_default_frame(packet: PacketView)
    requires
        spec_encode_body(packet) is Ok,
    ensures
        frame_fits(
            RawPacketView {
                packet_type: packet.spec_packet_id(),
                payload: spec_encode_body(packet)->Ok_0,
            },
            MAX_PACKET_SIZE as nat,
        ),
{
    packet.lemma_body_fits();
}

} // verus!
