use bytes::BytesMut;
use message_relay::coding::buffer::has_room;
use message_relay::coding::varint::{
    decode_varint32, decode_varint64, encode_varint32, encode_varint64, parse_varint32,
    parse_varint64, VarintError,
};

#[test]
fn test_encode_varint32() {
    let test_cases = vec![
        (0, vec![0x00]),
        (1, vec![0x01]),
        (127, vec![0x7F]),
        (128, vec![0x80, 0x01]),
        (300, vec![0xAC, 0x02]),
        (16384, vec![0x80, 0x80, 0x01]),
        (u32::MAX, vec![0xFF, 0xFF, 0xFF, 0xFF, 0x0F]),
    ];

    for (value, expected) in test_cases {
        let mut buf = BytesMut::with_capacity(5);
        let size = encode_varint32(value, &mut buf);
        assert_eq!(&buf[..], &expected[..]);
        assert_eq!(size, expected.len());
    }
}

#[test]
fn test_decode_varint32() {
    let test_cases = vec![
        (vec![0x00], Some((0, 1))),
        (vec![0x01], Some((1, 1))),
        (vec![0x7F], Some((127, 1))),
        (vec![0x80, 0x01], Some((128, 2))),
        (vec![0xAC, 0x02], Some((300, 2))),
        (vec![0x80, 0x80, 0x01], Some((16384, 3))),
        (vec![0xFF, 0xFF, 0xFF, 0xFF, 0x0F], Some((u32::MAX, 5))),
    ];

    for (encoded, expected) in test_cases {
        let decoded = decode_varint32(&encoded);
        assert_eq!(decoded, expected);
    }
}

#[test]
fn test_decode_varint32_incomplete() {
    let test_cases = vec![
        vec![0x80],                   // incomplete
        vec![0x80, 0x80],             // incomplete
        vec![0x80, 0x80, 0x80],       // incomplete
        vec![0x80, 0x80, 0x80, 0x80], // incomplete
    ];

    for encoded in test_cases {
        let decoded = decode_varint32(&encoded);
        assert_eq!(decoded, None);
    }
}

#[test]
fn parse_varint32_tells_incomplete_from_too_large() {
    assert_eq!(parse_varint32(&[]), Err(VarintError::Incomplete));
    assert_eq!(parse_varint32(&[0x80]), Err(VarintError::Incomplete));
    assert_eq!(parse_varint32(&[0x80, 0x80, 0x80, 0x80]), Err(VarintError::Incomplete));
    assert_eq!(parse_varint32(&[0x80, 0x80, 0x80, 0x80, 0x80]), Err(VarintError::TooLarge));
    assert_eq!(
        parse_varint32(&[0x80, 0x80, 0x80, 0x80, 0x80, 0x01]),
        Err(VarintError::TooLarge)
    );
    assert_eq!(parse_varint32(&[0xFF, 0xFF, 0xFF, 0xFF, 0xFF, 0x00]), Err(VarintError::TooLarge));
}

#[test]
fn parse_varint32_stops_at_the_terminator() {
    assert_eq!(parse_varint32(&[0xAC, 0x02, 0xFF, 0xFF]), Ok((300, 2)));
    assert_eq!(parse_varint32(&[0x00, 0x80]), Ok((0, 1)));
    // a longer spelling of a small value is still read as that value
    assert_eq!(parse_varint32(&[0x81, 0x80, 0x00]), Ok((1, 3)));
}

#[test]
fn parse_varint32_drops_bits_above_the_width() {
    // the fifth group has seven bits, of which only four fit
    assert_eq!(parse_varint32(&[0xFF, 0xFF, 0xFF, 0xFF, 0x7F]), Ok((u32::MAX, 5)));
    assert_eq!(parse_varint32(&[0x80, 0x80, 0x80, 0x80, 0x10]), Ok((0, 5)));
    assert_eq!(parse_varint32(&[0x80, 0x80, 0x80, 0x80, 0x11]), Ok((1 << 28, 5)));
}

#[test]
fn varint32_round_trip() {
    let values = [
        0u32,
        1,
        127,
        128,
        255,
        300,
        16383,
        16384,
        2097151,
        2097152,
        268435455,
        268435456,
        u32::MAX - 1,
        u32::MAX,
    ];
    for value in values {
        let mut buf = BytesMut::new();
        let size = encode_varint32(value, &mut buf);
        assert_eq!(size, buf.len());
        assert_eq!(decode_varint32(&buf[..]), Some((value, size)));
        for cut in 0..size {
            assert_eq!(parse_varint32(&buf[..cut]), Err(VarintError::Incomplete));
        }
    }
}

#[test]
fn encode_varint32_appends() {
    let mut buf = BytesMut::new();
    buf.extend_from_slice(&[9, 9]);
    assert_eq!(encode_varint32(300, &mut buf), 2);
    assert_eq!(encode_varint32(0, &mut buf), 1);
    assert_eq!(&buf[..], &[9, 9, 0xAC, 0x02, 0x00]);
}

#[test]
fn encode_varint64_boundaries() {
    let test_cases: Vec<(u64, Vec<u8>)> = vec![
        (0, vec![0x00]),
        (127, vec![0x7F]),
        (128, vec![0x80, 0x01]),
        (300, vec![0xAC, 0x02]),
        (u32::MAX as u64, vec![0xFF, 0xFF, 0xFF, 0xFF, 0x0F]),
        (1 << 32, vec![0x80, 0x80, 0x80, 0x80, 0x10]),
        (
            u64::MAX,
            vec![0xFF, 0xFF, 0xFF, 0xFF, 0xFF, 0xFF, 0xFF, 0xFF, 0xFF, 0x01],
        ),
    ];
    for (value, expected) in test_cases {
        let mut buf = BytesMut::new();
        let size = encode_varint64(value, &mut buf);
        assert_eq!(&buf[..], &expected[..]);
        assert_eq!(size, expected.len());
        assert_eq!(decode_varint64(&expected), Some((value, expected.len())));
    }
}

#[test]
fn parse_varint64_failures() {
    assert_eq!(parse_varint64(&[]), Err(VarintError::Incomplete));
    assert_eq!(parse_varint64(&[0x80; 9]), Err(VarintError::Incomplete));
    assert_eq!(parse_varint64(&[0x80; 10]), Err(VarintError::TooLarge));
    assert_eq!(parse_varint64(&[0x80; 11]), Err(VarintError::TooLarge));
    assert_eq!(decode_varint64(&[0x80; 10]), None);
    assert_eq!(decode_varint64(&[0x80, 0x80]), None);
}

#[test]
fn parse_varint64_drops_bits_above_the_width() {
    let mut encoded = vec![0x80u8; 9];
    encoded.push(0x03);
    assert_eq!(parse_varint64(&encoded), Ok((1 << 63, 10)));
    let mut encoded = vec![0xFFu8; 9];
    encoded.push(0x7F);
    assert_eq!(parse_varint64(&encoded), Ok((u64::MAX, 10)));
}

#[test]
fn varint64_round_trip() {
    let values = [0u64, 1, 127, 128, 1 << 35, (1 << 56) - 1, 1 << 56, 1 << 63, u64::MAX];
    for value in values {
        let mut buf = BytesMut::new();
        let size = encode_varint64(value, &mut buf);
        assert_eq!(decode_varint64(&buf[..]), Some((value, size)));
        for cut in 0..size {
            assert_eq!(parse_varint64(&buf[..cut]), Err(VarintError::Incomplete));
        }
    }
}

#[test]
fn has_room_measures_against_the_buffer_limit() {
    let limit = isize::MAX as usize;
    let mut buf = BytesMut::new();
    assert!(has_room(&buf, 0));
    assert!(has_room(&buf, 5));
    assert!(has_room(&buf, limit));
    assert!(!has_room(&buf, limit + 1));
    assert!(!has_room(&buf, usize::MAX));
    buf.extend_from_slice(&[1, 2, 3]);
    assert!(has_room(&buf, limit - 3));
    assert!(!has_room(&buf, limit - 2));
    assert!(!has_room(&buf, limit));
}
