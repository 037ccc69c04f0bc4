use message_relay::coding::varint::VarintError;
use message_relay::coding::Decoder;
use message_relay::types::DecodeError;

#[test]
fn new_decoder_sees_every_byte() {
    let data = [1u8, 2, 3];
    let decoder = Decoder::new(&data);
    assert_eq!(decoder.remaining(), 3);
    let empty: [u8; 0] = [];
    assert_eq!(Decoder::new(&empty).remaining(), 0);
}

#[test]
fn read_u8_takes_one_byte() {
    let data = [0xABu8, 0xCD];
    let mut decoder = Decoder::new(&data);
    assert_eq!(decoder.read_u8(), Ok(0xAB));
    assert_eq!(decoder.remaining(), 1);
    assert_eq!(decoder.read_u8(), Ok(0xCD));
    assert_eq!(decoder.remaining(), 0);
    assert_eq!(decoder.read_u8(), Err(DecodeError::InsufficientData));
    assert_eq!(decoder.remaining(), 0);
}

#[test]
fn read_u16_is_big_endian() {
    let data = [0x08u8, 0x09, 0xFF];
    let mut decoder = Decoder::new(&data);
    assert_eq!(decoder.read_u16(), Ok(0x0809));
    assert_eq!(decoder.remaining(), 1);
    assert_eq!(decoder.read_u16(), Err(DecodeError::InsufficientData));
    assert_eq!(decoder.remaining(), 1);
    assert_eq!(decoder.read_u8(), Ok(0xFF));
}

#[test]
fn read_u32_is_big_endian() {
    let data = [0x08u8, 0x09, 0xA0, 0xA1, 0x00, 0x00, 0x00];
    let mut decoder = Decoder::new(&data);
    assert_eq!(decoder.read_u32(), Ok(0x0809A0A1));
    assert_eq!(decoder.remaining(), 3);
    assert_eq!(decoder.read_u32(), Err(DecodeError::InsufficientData));
    assert_eq!(decoder.remaining(), 3);
}

#[test]
fn read_u64_is_big_endian() {
    let data = [0x01u8, 0x02, 0x03, 0x04, 0x05, 0x06, 0x07, 0x08, 0x09];
    let mut decoder = Decoder::new(&data);
    assert_eq!(decoder.read_u64(), Ok(0x0102030405060708));
    assert_eq!(decoder.remaining(), 1);
    assert_eq!(decoder.read_u64(), Err(DecodeError::InsufficientData));
    assert_eq!(decoder.remaining(), 1);
    let seven = [0u8; 7];
    assert_eq!(Decoder::new(&seven).read_u64(), Err(DecodeError::InsufficientData));
}

#[test]
fn read_unsigned_extremes() {
    let ones = [0xFFu8; 15];
    let mut decoder = Decoder::new(&ones);
    assert_eq!(decoder.read_u8(), Ok(u8::MAX));
    assert_eq!(decoder.read_u16(), Ok(u16::MAX));
    assert_eq!(decoder.read_u32(), Ok(u32::MAX));
    assert_eq!(decoder.read_u64(), Ok(u64::MAX));
    assert_eq!(decoder.remaining(), 0);
}

#[test]
fn read_signed_is_twos_complement() {
    let data = [
        0xFFu8, // -1
        0x80, // -128
        0x7F, // 127
        0xFF, 0xFE, // -2
        0x80, 0x00, // i16::MIN
        0xFF, 0xFF, 0xFF, 0xFD, // -3
        0x80, 0x00, 0x00, 0x00, // i32::MIN
        0x7F, 0xFF, 0xFF, 0xFF, // i32::MAX
        0xFF, 0xFF, 0xFF, 0xFF, 0xFF, 0xFF, 0xFF, 0xFC, // -4
        0x80, 0x00, 0x00, 0x00, 0x00, 0x00, 0x00, 0x00, // i64::MIN
        0x00, 0x00, 0x00, 0x00, 0x00, 0x00, 0x01, 0x00, // 256
    ];
    let mut decoder = Decoder::new(&data);
    assert_eq!(decoder.read_i8(), Ok(-1));
    assert_eq!(decoder.read_i8(), Ok(-128));
    assert_eq!(decoder.read_i8(), Ok(127));
    assert_eq!(decoder.read_i16(), Ok(-2));
    assert_eq!(decoder.read_i16(), Ok(i16::MIN));
    assert_eq!(decoder.read_i32(), Ok(-3));
    assert_eq!(decoder.read_i32(), Ok(i32::MIN));
    assert_eq!(decoder.read_i32(), Ok(i32::MAX));
    assert_eq!(decoder.read_i64(), Ok(-4));
    assert_eq!(decoder.read_i64(), Ok(i64::MIN));
    assert_eq!(decoder.read_i64(), Ok(256));
    assert_eq!(decoder.remaining(), 0);
}

#[test]
fn read_signed_needs_all_its_bytes() {
    let empty: [u8; 0] = [];
    assert_eq!(Decoder::new(&empty).read_i8(), Err(DecodeError::InsufficientData));
    let one = [1u8];
    let mut decoder = Decoder::new(&one);
    assert_eq!(decoder.read_i16(), Err(DecodeError::InsufficientData));
    assert_eq!(decoder.remaining(), 1);
    let three = [1u8, 2, 3];
    let mut decoder = Decoder::new(&three);
    assert_eq!(decoder.read_i32(), Err(DecodeError::InsufficientData));
    assert_eq!(decoder.read_i64(), Err(DecodeError::InsufficientData));
    assert_eq!(decoder.remaining(), 3);
}

#[test]
fn read_bool_accepts_only_zero_and_one() {
    let data = [0x01u8, 0x00, 0x02, 0x01];
    let mut decoder = Decoder::new(&data);
    assert_eq!(decoder.read_bool(), Ok(true));
    assert_eq!(decoder.read_bool(), Ok(false));
    assert_eq!(decoder.remaining(), 2);
    assert_eq!(decoder.read_bool(), Err(DecodeError::InvalidBoolEncoding));
    // the refused byte is still there
    assert_eq!(decoder.remaining(), 2);
    assert_eq!(decoder.read_u8(), Ok(2));
    assert_eq!(decoder.read_bool(), Ok(true));
    assert_eq!(decoder.read_bool(), Err(DecodeError::InsufficientData));
    let high = [0xFFu8];
    assert_eq!(Decoder::new(&high).read_bool(), Err(DecodeError::InvalidBoolEncoding));
}

#[test]
fn read_varint_moves_past_the_integer() {
    let data = [0xACu8, 0x02, 0x7F, 0x80];
    let mut decoder = Decoder::new(&data);
    assert_eq!(decoder.read_varint(), Ok(300));
    assert_eq!(decoder.remaining(), 2);
    assert_eq!(decoder.read_varint(), Ok(127));
    assert_eq!(decoder.remaining(), 1);
    assert_eq!(
        decoder.read_varint(),
        Err(DecodeError::MalformedVarint(VarintError::Incomplete))
    );
    assert_eq!(decoder.remaining(), 1);
    assert_eq!(decoder.read_u8(), Ok(0x80));
    assert_eq!(decoder.read_varint(), Err(DecodeError::InsufficientData));
}

#[test]
fn read_varint_refuses_an_overlong_integer() {
    let data = [0x80u8, 0x80, 0x80, 0x80, 0x80, 0x01];
    let mut decoder = Decoder::new(&data);
    assert_eq!(
        decoder.read_varint(),
        Err(DecodeError::MalformedVarint(VarintError::TooLarge))
    );
    assert_eq!(decoder.remaining(), 6);
    // the same bytes are a fine 64-bit integer
    assert_eq!(decoder.read_varlong(), Ok(1 << 35));
    assert_eq!(decoder.remaining(), 0);
}

#[test]
fn read_varlong_cases() {
    let data = [0xFFu8, 0xFF, 0xFF, 0xFF, 0xFF, 0xFF, 0xFF, 0xFF, 0xFF, 0x01, 0x05];
    let mut decoder = Decoder::new(&data);
    assert_eq!(decoder.read_varlong(), Ok(u64::MAX));
    assert_eq!(decoder.read_varlong(), Ok(5));
    assert_eq!(decoder.read_varlong(), Err(DecodeError::InsufficientData));
    let long = [0x80u8; 11];
    let mut decoder = Decoder::new(&long);
    assert_eq!(
        decoder.read_varlong(),
        Err(DecodeError::MalformedVarint(VarintError::TooLarge))
    );
    assert_eq!(decoder.remaining(), 11);
    let short = [0x80u8; 3];
    let mut decoder = Decoder::new(&short);
    assert_eq!(
        decoder.read_varlong(),
        Err(DecodeError::MalformedVarint(VarintError::Incomplete))
    );
    assert_eq!(decoder.remaining(), 3);
}

#[test]
fn read_string_takes_prefix_and_text() {
    let data = [5u8, b'h', b'e', b'l', b'l', b'o', 0, 9];
    let mut decoder = Decoder::new(&data);
    assert_eq!(decoder.read_string(), Ok(String::from("hello")));
    assert_eq!(decoder.remaining(), 2);
    assert_eq!(decoder.read_string(), Ok(String::new()));
    assert_eq!(decoder.remaining(), 1);
    assert_eq!(decoder.read_u8(), Ok(9));
}

#[test]
fn read_string_handles_multibyte_text() {
    let text = "año Ω 😀";
    let mut data = vec![text.len() as u8];
    data.extend_from_slice(text.as_bytes());
    data.push(0x2A);
    let mut decoder = Decoder::new(&data);
    assert_eq!(decoder.read_string(), Ok(String::from(text)));
    assert_eq!(decoder.remaining(), 1);
}

#[test]
fn read_string_failures_leave_the_cursor() {
    let empty: [u8; 0] = [];
    assert_eq!(Decoder::new(&empty).read_string(), Err(DecodeError::InsufficientData));

    let short = [3u8, b'a', b'b'];
    let mut decoder = Decoder::new(&short);
    assert_eq!(decoder.read_string(), Err(DecodeError::InsufficientData));
    assert_eq!(decoder.remaining(), 3);
    assert_eq!(decoder.read_u8(), Ok(3));

    let cut = [0x80u8];
    let mut decoder = Decoder::new(&cut);
    assert_eq!(
        decoder.read_string(),
        Err(DecodeError::MalformedVarint(VarintError::Incomplete))
    );
    assert_eq!(decoder.remaining(), 1);

    let bad = [2u8, 0xC3, 0x28, 7];
    let mut decoder = Decoder::new(&bad);
    assert_eq!(decoder.read_string(), Err(DecodeError::InvalidUtf8));
    assert_eq!(decoder.remaining(), 4);
    assert_eq!(decoder.read_u8(), Ok(2));
}

#[test]
fn read_string_with_a_two_byte_prefix() {
    let mut data = vec![0xACu8, 0x02];
    data.extend(std::iter::repeat(b'x').take(300));
    data.push(1);
    let mut decoder = Decoder::new(&data);
    let text = decoder.read_string().unwrap();
    assert_eq!(text.len(), 300);
    assert!(text.bytes().all(|b| b == b'x'));
    assert_eq!(decoder.remaining(), 1);
}

#[test]
fn read_bytes_copies_the_blob() {
    let data = [3u8, 0xDE, 0xAD, 0xBE, 0xEF];
    let mut decoder = Decoder::new(&data);
    let blob = decoder.read_bytes().unwrap();
    assert_eq!(&blob[..], &[0xDE, 0xAD, 0xBE]);
    assert_eq!(decoder.remaining(), 1);
    assert_eq!(decoder.read_u8(), Ok(0xEF));
}

#[test]
fn read_bytes_failures_leave_the_cursor() {
    let empty: [u8; 0] = [];
    assert_eq!(Decoder::new(&empty).read_bytes(), Err(DecodeError::InsufficientData));

    let short = [4u8, 1, 2, 3];
    let mut decoder = Decoder::new(&short);
    assert_eq!(decoder.read_bytes(), Err(DecodeError::InsufficientData));
    assert_eq!(decoder.remaining(), 4);

    let long = [0xFFu8, 0xFF, 0xFF, 0xFF, 0xFF, 0xFF];
    let mut decoder = Decoder::new(&long);
    assert_eq!(
        decoder.read_bytes(),
        Err(DecodeError::MalformedVarint(VarintError::TooLarge))
    );
    assert_eq!(decoder.remaining(), 6);

    let none = [0u8];
    let mut decoder = Decoder::new(&none);
    assert_eq!(decoder.read_bytes().unwrap().len(), 0);
    assert_eq!(decoder.remaining(), 0);
}
