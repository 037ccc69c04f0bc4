use bytes::{Bytes, BytesMut};
use message_relay::coding::{Decoder, Encoder};
use message_relay::networking::error::NetworkingError;
use message_relay::networking::packet::{Packet, MAX_PACKET_SIZE};
use message_relay::networking::packet_type::LoginPacket;
use message_relay::networking::raw_packet::RawPacket;
use message_relay::server::connection::{FrameCodec, LENGTH_FIELD_LENGTH};
use message_relay::types::DecodeError;

fn frame_of(codec: &FrameCodec, raw: &RawPacket) -> Vec<u8> {
    let mut wire = BytesMut::new();
    codec.encode(raw, &mut wire).unwrap();
    wire.to_vec()
}

#[test]
fn frame_round_trip() {
    let mut body = Encoder::new();
    body.write_string(String::from("hola mundo")).unwrap();
    let payload = body.take_bytes();
    assert_eq!(&payload[..], b"\x0ahola mundo");

    let codec = FrameCodec::default();
    let raw = RawPacket::new(0x85, payload.clone());
    let wire = frame_of(&codec, &raw);
    assert_eq!(&wire[..], b"\x00\x00\x00\x0c\x85\x0ahola mundo");

    let (parsed, used) = codec.decode(&wire).unwrap().unwrap();
    assert_eq!(used, wire.len());
    assert_eq!(parsed.packet_type(), 0x85);
    assert_eq!(parsed.payload(), &payload);
    assert_eq!(parsed, raw);

    let mut decoder = Decoder::new(parsed.payload());
    assert_eq!(decoder.read_string(), Ok(String::from("hola mundo")));
    assert_eq!(decoder.remaining(), 0);
}

#[test]
fn codec_settings() {
    assert_eq!(LENGTH_FIELD_LENGTH, 4);
    assert_eq!(FrameCodec::default().max_frame_length(), MAX_PACKET_SIZE);
    assert_eq!(FrameCodec::new(17).max_frame_length(), 17);
}

#[test]
fn encode_appends_prefix_tag_and_payload() {
    let codec = FrameCodec::new(1024);
    let mut wire = BytesMut::new();
    wire.extend_from_slice(&[0xEE]);
    assert_eq!(
        codec.encode(&RawPacket::new(3, Bytes::from(vec![1, 2])), &mut wire),
        Ok(())
    );
    assert_eq!(
        codec.encode(&RawPacket::new(9, Bytes::new()), &mut wire),
        Ok(())
    );
    assert_eq!(&wire[..], &[0xEE, 0, 0, 0, 3, 3, 1, 2, 0, 0, 0, 1, 9]);
}

#[test]
fn encode_writes_the_length_big_endian() {
    let codec = FrameCodec::default();
    let wire = frame_of(&codec, &RawPacket::new(1, Bytes::from(vec![0u8; 0x1_02_03 - 1])));
    assert_eq!(&wire[..5], &[0x00, 0x01, 0x02, 0x03, 1]);
    assert_eq!(wire.len(), 4 + 0x1_02_03);
}

#[test]
fn encode_refuses_a_frame_over_the_maximum() {
    let codec = FrameCodec::new(4);
    let mut wire = BytesMut::new();
    wire.extend_from_slice(&[0xEE]);
    assert_eq!(
        codec.encode(&RawPacket::new(1, Bytes::from(vec![1, 2, 3, 4])), &mut wire),
        Err(NetworkingError::FrameTooLarge)
    );
    assert_eq!(&wire[..], &[0xEE]);
    assert_eq!(
        codec.encode(&RawPacket::new(1, Bytes::from(vec![1, 2, 3])), &mut wire),
        Ok(())
    );
    assert_eq!(&wire[..], &[0xEE, 0, 0, 0, 4, 1, 1, 2, 3]);
    assert_eq!(
        FrameCodec::new(0).encode(&RawPacket::new(1, Bytes::new()), &mut wire),
        Err(NetworkingError::FrameTooLarge)
    );
}

#[test]
fn decode_waits_for_a_whole_frame() {
    let codec = FrameCodec::default();
    let wire = frame_of(&codec, &RawPacket::new(2, Bytes::from(vec![5, 6, 7])));
    for cut in 0..wire.len() {
        assert_eq!(codec.decode(&wire[..cut]), Ok(None));
    }
    let (raw, used) = codec.decode(&wire).unwrap().unwrap();
    assert_eq!(used, 8);
    assert_eq!(raw, RawPacket::new(2, Bytes::from(vec![5, 6, 7])));
}

#[test]
fn decode_takes_one_frame_at_a_time() {
    let codec = FrameCodec::default();
    let mut wire = frame_of(&codec, &RawPacket::new(2, Bytes::from(vec![5])));
    wire.extend_from_slice(&frame_of(&codec, &RawPacket::new(3, Bytes::from(vec![6, 7]))));
    wire.extend_from_slice(&[0, 0]);

    let (first, used) = codec.decode(&wire).unwrap().unwrap();
    assert_eq!(first, RawPacket::new(2, Bytes::from(vec![5])));
    assert_eq!(used, 6);
    let rest = &wire[used..];
    let (second, used) = codec.decode(rest).unwrap().unwrap();
    assert_eq!(second, RawPacket::new(3, Bytes::from(vec![6, 7])));
    assert_eq!(used, 7);
    assert_eq!(codec.decode(&rest[used..]), Ok(None));
}

#[test]
fn decode_accepts_a_frame_with_only_a_tag() {
    let codec = FrameCodec::default();
    let (raw, used) = codec.decode(&[0, 0, 0, 1, 0x42]).unwrap().unwrap();
    assert_eq!(used, 5);
    assert_eq!(raw.packet_type(), 0x42);
    assert_eq!(raw.payload().len(), 0);
}

#[test]
fn decode_refuses_a_frame_without_a_tag() {
    let codec = FrameCodec::default();
    assert_eq!(
        codec.decode(&[0, 0, 0, 0]),
        Err(NetworkingError::InvalidPacketFormat)
    );
    assert_eq!(
        codec.decode(&[0, 0, 0, 0, 1, 2]),
        Err(NetworkingError::InvalidPacketFormat)
    );
}

#[test]
fn decode_refuses_a_declared_length_over_the_maximum() {
    let codec = FrameCodec::new(16);
    // refused as soon as the prefix is there
    assert_eq!(
        codec.decode(&[0, 0, 0, 17]),
        Err(NetworkingError::FrameTooLarge)
    );
    assert_eq!(
        codec.decode(&[0xFF, 0xFF, 0xFF, 0xFF, 1]),
        Err(NetworkingError::FrameTooLarge)
    );
    assert_eq!(codec.decode(&[0, 0, 0, 16]), Ok(None));
    let mut wire = vec![0, 0, 0, 16];
    wire.extend_from_slice(&[7u8; 16]);
    let (raw, used) = codec.decode(&wire).unwrap().unwrap();
    assert_eq!(used, 20);
    assert_eq!(raw, RawPacket::new(7, Bytes::from(vec![7u8; 15])));
    assert_eq!(
        FrameCodec::default().decode(&[0x00, 0x10, 0x00, 0x01]),
        Err(NetworkingError::FrameTooLarge)
    );
    assert_eq!(FrameCodec::default().decode(&[0x00, 0x10, 0x00, 0x00]), Ok(None));
}

#[test]
fn decode_eof_tells_a_clean_close_from_a_cut_frame() {
    let codec = FrameCodec::default();
    assert_eq!(codec.decode_eof(&[]), Ok(None));
    assert_eq!(
        codec.decode_eof(&[0]),
        Err(NetworkingError::TransportClosed)
    );
    assert_eq!(
        codec.decode_eof(&[0, 0, 0, 2, 1]),
        Err(NetworkingError::TransportClosed)
    );
    let (raw, used) = codec.decode_eof(&[0, 0, 0, 2, 1, 9]).unwrap().unwrap();
    assert_eq!(used, 6);
    assert_eq!(raw, RawPacket::new(1, Bytes::from(vec![9])));
    assert_eq!(
        codec.decode_eof(&[0, 0, 0, 0]),
        Err(NetworkingError::InvalidPacketFormat)
    );
    assert_eq!(
        FrameCodec::new(1).decode_eof(&[0, 0, 0, 2]),
        Err(NetworkingError::FrameTooLarge)
    );
}

#[test]
fn unknown_tag_does_not_disturb_the_next_frame() {
    let codec = FrameCodec::default();
    let login = RawPacket::from(Packet::Login(LoginPacket::new(
        String::from("a"),
        String::from("b"),
    )))
    .unwrap();
    let mut wire = frame_of(&codec, &RawPacket::new(0xFE, Bytes::from(vec![1, 2, 3])));
    wire.extend_from_slice(&frame_of(&codec, &login));

    let (first, used) = codec.decode(&wire).unwrap().unwrap();
    assert_eq!(first.packet_type(), 0xFE);
    assert_eq!(Packet::from(first), Err(DecodeError::UnknownPacketTag));

    let (second, used_second) = codec.decode(&wire[used..]).unwrap().unwrap();
    assert_eq!(used + used_second, wire.len());
    assert_eq!(
        Packet::from(second),
        Ok(Packet::Login(LoginPacket::new(
            String::from("a"),
            String::from("b")
        )))
    );
}

#[test]
fn the_longest_packet_fits_a_default_frame() {
    let codec = FrameCodec::default();
    let login = RawPacket::from(Packet::Login(LoginPacket::new(
        "n".repeat(32767),
        "w".repeat(32767),
    )))
    .unwrap();
    let wire = frame_of(&codec, &login);
    assert_eq!(wire.len(), 4 + 1 + 2 * (3 + 32767));
    let (parsed, used) = codec.decode(&wire).unwrap().unwrap();
    assert_eq!(used, wire.len());
    assert_eq!(parsed, login);
}
